use ed25519_dalek::{Signature, Signer, SigningKey, Verifier};
use rand::rngs::OsRng;
use stellarconduit_sync_engine::envelope::secure_signing::AttestationStatement;
use stellarconduit_sync_engine::envelope::{InMemorySigner, KeySigner, TeeSigner};
use stellarconduit_sync_engine::errors::SyncEngineError;

#[test]
fn test_in_memory_signer_produces_valid_signatures() {
    let key = SigningKey::generate(&mut OsRng);
    let verifying_key = key.verifying_key();

    let signer = InMemorySigner::new(key.to_bytes());
    let msg = b"test payload";
    let sig_bytes = signer.sign(msg).unwrap();

    let signature = Signature::from_bytes(&sig_bytes);
    assert!(verifying_key.verify(msg, &signature).is_ok());
    assert!(!signer.is_tee());
    assert!(signer.attestation().is_none());
}

#[test]
fn test_tee_signer_unavailable_fails_hard_no_silent_fallback() {
    let result = TeeSigner::try_new([0; 32], vec![], false);
    assert!(matches!(result, Err(SyncEngineError::TeeUnavailable)));
}

#[test]
fn test_valid_attestation_verifies() {
    let root_key = SigningKey::generate(&mut OsRng);
    let root_vk = root_key.verifying_key();

    let payload = b"genuine hardware attestation".to_vec();
    let signature = root_key.sign(&payload).to_bytes();

    let stmt = AttestationStatement { payload, signature };
    assert!(stmt.verify(root_vk.as_bytes()).is_ok());
}

#[test]
fn test_forged_attestation_is_rejected() {
    let root_key = SigningKey::generate(&mut OsRng);
    let root_vk = root_key.verifying_key();

    // Signed by a different (untrusted) key
    let attacker_key = SigningKey::generate(&mut OsRng);
    let payload = b"genuine hardware attestation".to_vec();
    let forged_sig = attacker_key.sign(&payload).to_bytes();

    let stmt = AttestationStatement { payload, signature: forged_sig };
    assert!(matches!(stmt.verify(root_vk.as_bytes()), Err(SyncEngineError::InvalidAttestation(_))));

    // Valid signature but forged payload content
    let bad_payload = b"forged hardware attestation".to_vec();
    let bad_sig = root_key.sign(&bad_payload).to_bytes();

    let bad_stmt = AttestationStatement { payload: bad_payload, signature: bad_sig };
    assert!(matches!(bad_stmt.verify(root_vk.as_bytes()), Err(SyncEngineError::InvalidAttestation(_))));
}
