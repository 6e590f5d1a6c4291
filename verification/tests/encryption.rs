use stellarconduit_sync_engine::encryption::{generate_salt, EncryptedData, EncryptionKey, NONCE_SIZE};
use stellarconduit_sync_engine::errors::SyncEngineError;

#[test]
fn test_key_derivation() {
    let salt = generate_salt();
    let key1 = EncryptionKey::from_passphrase("correct horse battery staple", &salt).unwrap();
    let key2 = EncryptionKey::from_passphrase("correct horse battery staple", &salt).unwrap();

    // Same passphrase + salt should produce same key
    assert_eq!(key1.as_bytes(), key2.as_bytes());
}

#[test]
fn test_different_passphrases_produce_different_keys() {
    let salt = generate_salt();
    let key1 = EncryptionKey::from_passphrase("passphrase1", &salt).unwrap();
    let key2 = EncryptionKey::from_passphrase("passphrase2", &salt).unwrap();

    assert_ne!(key1.as_bytes(), key2.as_bytes());
}

#[test]
fn test_different_salts_produce_different_keys() {
    let salt1 = generate_salt();
    let salt2 = generate_salt();
    let key1 = EncryptionKey::from_passphrase("passphrase", &salt1).unwrap();
    let key2 = EncryptionKey::from_passphrase("passphrase", &salt2).unwrap();

    assert_ne!(key1.as_bytes(), key2.as_bytes());
}

#[test]
fn test_encryption_decryption_roundtrip() {
    let salt = generate_salt();
    let key = EncryptionKey::from_passphrase("test passphrase", &salt).unwrap();
    let plaintext = b"This is sensitive transaction data";

    let encrypted = EncryptedData::encrypt(plaintext, &key).unwrap();
    let decrypted = encrypted.decrypt(&key).unwrap();

    assert_eq!(plaintext.to_vec(), decrypted);
}

#[test]
fn test_encryption_produces_different_ciphertexts() {
    let salt = generate_salt();
    let key = EncryptionKey::from_passphrase("test passphrase", &salt).unwrap();
    let plaintext = b"Same plaintext";

    let encrypted1 = EncryptedData::encrypt(plaintext, &key).unwrap();
    let encrypted2 = EncryptedData::encrypt(plaintext, &key).unwrap();

    // Same plaintext encrypted twice should produce different ciphertexts
    // (due to random nonces)
    assert_ne!(encrypted1.as_bytes(), encrypted2.as_bytes());

    // But both should decrypt to the same plaintext
    assert_eq!(
        encrypted1.decrypt(&key).unwrap(),
        encrypted2.decrypt(&key).unwrap()
    );
}

#[test]
fn test_wrong_key_fails_decryption() {
    let salt = generate_salt();
    let key1 = EncryptionKey::from_passphrase("correct key", &salt).unwrap();
    let key2 = EncryptionKey::from_passphrase("wrong key", &salt).unwrap();

    let plaintext = b"Secret data";
    let encrypted = EncryptedData::encrypt(plaintext, &key1).unwrap();

    // Decrypting with wrong key should fail
    let result = encrypted.decrypt(&key2);
    assert!(matches!(result, Err(SyncEngineError::DecryptionFailed)));
}

#[test]
fn test_corrupted_data_fails_decryption() {
    let salt = generate_salt();
    let key = EncryptionKey::from_passphrase("test passphrase", &salt).unwrap();

    let plaintext = b"Original data";
    let encrypted = EncryptedData::encrypt(plaintext, &key).unwrap();

    // Corrupt the ciphertext
    let bytes = encrypted.as_bytes().to_vec();
    let mut corrupted = bytes.clone();
    if !corrupted.is_empty() {
        let len = corrupted.len();
        corrupted[len - 1] ^= 0xFF;
    }
    let corrupted_encrypted = EncryptedData::from_bytes(corrupted);

    // Decryption should fail
    let result = corrupted_encrypted.decrypt(&key);
    assert!(matches!(result, Err(SyncEngineError::DecryptionFailed)));
}

#[test]
fn test_plaintext_not_in_ciphertext() {
    let salt = generate_salt();
    let key = EncryptionKey::from_passphrase("test passphrase", &salt).unwrap();
    let plaintext = b"mock_xdr_sensitive_transaction_data";

    let encrypted = EncryptedData::encrypt(plaintext, &key).unwrap();

    // Plaintext should not appear anywhere in the ciphertext
    let ciphertext = encrypted.as_bytes();
    assert!(!ciphertext.windows(plaintext.len()).any(|w| w == plaintext));
}

#[test]
fn test_nonce_is_prepended() {
    let salt = generate_salt();
    let key = EncryptionKey::from_passphrase("test passphrase", &salt).unwrap();
    let plaintext = b"test data";

    let encrypted = EncryptedData::encrypt(plaintext, &key).unwrap();
    let bytes = encrypted.as_bytes();

    // First NONCE_SIZE bytes should be the nonce
    assert_eq!(bytes.len(), NONCE_SIZE + plaintext.len() + 16); // 16 = GCM auth tag
}
