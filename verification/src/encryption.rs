//! Encryption at rest for sensitive database fields.
//!
//! Column-level authenticated encryption for data in the local database:
//!
//! - **Algorithm:** AES-256-GCM
//! - **Key derivation:** Argon2id from a user passphrase
//! - **Nonces:** random, 96 bits, one per encryption, stored before the ciphertext
//!
//! The embedding application supplies the key. The table names, row counts and query
//! patterns of the database remain visible.
use crate::errors::SyncEngineError;
use aes_gcm::aead::{Aead, KeyInit};
use rand::{RngCore, SeedableRng};
use vstd::prelude::*;
use vstd::string::*;
use vstd::utf8::encode_utf8;

verus! {

/// Encryption key size (256 bits / 32 bytes)
pub const KEY_SIZE: usize = 32;

/// Nonce size for AES-256-GCM (96 bits / 12 bytes)
pub const NONCE_SIZE: usize = 12;

/// Salt size for key derivation (128 bits / 16 bytes)
pub const SALT_SIZE: usize = 16;

/// Size of the authentication tag at the end of a ciphertext.
pub const TAG_SIZE: usize = 16;

/// The longest plaintext that AES-GCM encrypts, in bytes.
pub const MAX_PLAINTEXT: u64 = 0x10_0000_0000;

/// Argon2 memory cost (64 MB) - tuned for mobile devices
const ARGON2_MEMORY_COST: u32 = 65536;

/// Argon2 time cost (iterations)
const ARGON2_TIME_COST: u32 = 3;

/// Argon2 parallelism
const ARGON2_PARALLELISM: u32 = 4;

// ---------------------------------------------------------------------------
// The outside functions
// ---------------------------------------------------------------------------

/// The key that Argon2id version 0x13 derives from a password and a salt, with `m`
/// KiB of memory, `t` passes and `p` lanes, or the message of the error.
pub uninterp spec fn argon2id_key(
    password: Seq<u8>,
    salt: Seq<u8>,
    m: u32,
    t: u32,
    p: u32,
) -> Result<[u8; 32], Seq<char>>;

/// Calls `argon2::Params::new` and `argon2::Argon2::hash_password_into` for Argon2id,
/// version 0x13, and 32 bytes of output; costs in this range are accepted. The claims:
/// the key depends on the password, the salt and the costs alone; and there is one
/// unless the password has over 2^32 - 1 bytes.
#[verifier::external_body]
fn argon2_derive(password: &[u8], salt: &[u8; 16], m: u32, t: u32, p: u32) -> (r: Result<
    [u8; 32],
    String,
>)
    requires
        1 <= p <= 0xff_ffff,
        m >= 8 * p,
        t >= 1,
    ensures
        match argon2id_key(password@, salt@, m, t, p) {
            Ok(key) => r == Ok::<[u8; 32], String>(key),
            Err(message) => r matches Err(e) && e@ == message,
        },
        r is Ok <==> password@.len() <= u32::MAX,
{
    let params = argon2::Params::new(m, t, p, Some(32)).expect("the costs are in range");
    let argon2 = argon2::Argon2::new(argon2::Algorithm::Argon2id, argon2::Version::V0x13, params);
    let mut key = [0u8; 32];
    match argon2.hash_password_into(password, salt, &mut key) {
        Ok(()) => Ok(key),
        Err(e) => Err(e.to_string()),
    }
}

/// The AES-256-GCM ciphertext of a plaintext under a key and a nonce, with its tag.
pub uninterp spec fn gcm_sealed(key: Seq<u8>, nonce: Seq<u8>, plaintext: Seq<u8>) -> Seq<u8>;

/// The plaintext of an AES-256-GCM ciphertext under a key and a nonce, if its tag is
/// valid.
pub uninterp spec fn gcm_opened(key: Seq<u8>, nonce: Seq<u8>, ciphertext: Seq<u8>) -> Option<
    Seq<u8>,
>;

/// Calls `encrypt` of `aes_gcm::Aes256Gcm`, without associated data. The claims: the
/// ciphertext depends on the arguments alone; it is as long as the plaintext and a tag
/// of 16 bytes; it opens to the plaintext under the same key and nonce; and it is
/// refused, always with the same message, only where the plaintext has over 2^36 bytes.
#[verifier::external_body]
fn gcm_encrypt(key: &[u8; 32], nonce: &[u8; 12], plaintext: &[u8]) -> (r: Result<Vec<u8>, String>)
    ensures
        r is Ok <==> plaintext@.len() <= 0x10_0000_0000,
        r matches Ok(c) ==> c@ == gcm_sealed(key@, nonce@, plaintext@) && c@.len()
            == plaintext@.len() + 16 && gcm_opened(key@, nonce@, c@) == Some(plaintext@),
        r matches Err(e) ==> e@ == "aead::Error"@,
{
    let cipher = aes_gcm::Aes256Gcm::new(key.into());
    match cipher.encrypt(nonce.into(), plaintext) {
        Ok(ciphertext) => Ok(ciphertext),
        Err(e) => Err(e.to_string()),
    }
}

/// Calls `decrypt` of `aes_gcm::Aes256Gcm`, without associated data. The claims: the
/// result depends on the arguments alone; a plaintext is shorter than its ciphertext
/// by the tag of 16 bytes; and, where it has at most 2^36 bytes, the ciphertext is the
/// one that encrypting it gives.
#[verifier::external_body]
fn gcm_decrypt(key: &[u8; 32], nonce: &[u8; 12], ciphertext: &[u8]) -> (r: Option<Vec<u8>>)
    ensures
        r is Some <==> gcm_opened(key@, nonce@, ciphertext@) is Some,
        r matches Some(plaintext) ==> gcm_opened(key@, nonce@, ciphertext@) == Some(plaintext@)
            && ciphertext@.len() == plaintext@.len() + 16 && (plaintext@.len() <= 0x10_0000_0000
            ==> ciphertext@ == gcm_sealed(key@, nonce@, plaintext@)),
{
    let cipher = aes_gcm::Aes256Gcm::new(key.into());
    match cipher.decrypt(nonce.into(), ciphertext) {
        Ok(plaintext) => Some(plaintext),
        Err(_) => None,
    }
}

/// Calls `fill_bytes` of a `rand_chacha::ChaCha20Rng` seeded from the system's entropy.
/// Nothing is claimed of the bytes but their number. Without entropy the call panics.
#[verifier::external_body]
fn random_bytes(len: usize) -> (bytes: Vec<u8>)
    ensures
        bytes@.len() == len,
{
    let mut bytes = vec![0u8; len];
    rand_chacha::ChaCha20Rng::from_entropy().fill_bytes(&mut bytes);
    bytes
}

// ---------------------------------------------------------------------------
// Keys and nonces
// ---------------------------------------------------------------------------

/// An encryption key derived from a user passphrase.
#[derive(Clone, Debug)]
pub struct EncryptionKey {
    pub key: [u8; 32],
}

impl View for EncryptionKey {
    type V = Seq<u8>;

    open spec fn view(&self) -> Seq<u8> {
        self.key@
    }
}

/// The key of a passphrase and a salt, or the message of the error: that of the
/// derivation after the words `Key derivation failed: `.
pub open spec fn passphrase_key(passphrase: Seq<char>, salt: Seq<u8>) -> Result<
    [u8; 32],
    Seq<char>,
> {
    match argon2id_key(encode_utf8(passphrase), salt, 65536, 3, 4) {
        Ok(key) => Ok(key),
        Err(message) => Err("Key derivation failed: "@ + message),
    }
}

impl EncryptionKey {
    /// Derive an encryption key from a user passphrase using Argon2id, with 64 MB of
    /// memory, 3 passes and 4 lanes. Fails on a passphrase of over 2^32 - 1 bytes.
    pub fn from_passphrase(passphrase: &str, salt: &[u8; 16]) -> (r: Result<Self, SyncEngineError>)
        ensures
            match passphrase_key(passphrase@, salt@) {
                Ok(key) => r matches Ok(k) && k.key == key,
                Err(message) => r matches Err(SyncEngineError::EncryptionError(detail)) && detail@
                    == message,
            },
            r is Ok <==> encode_utf8(passphrase@).len() <= u32::MAX,
    {
        match argon2_derive(
            passphrase.as_bytes(),
            salt,
            ARGON2_MEMORY_COST,
            ARGON2_TIME_COST,
            ARGON2_PARALLELISM,
        ) {
            Ok(key) => Ok(EncryptionKey { key }),
            Err(e) => {
                let mut detail = "Key derivation failed: ".to_owned();
                detail.append(e.as_str());
                Err(SyncEngineError::EncryptionError(detail))
            },
        }
    }

    /// Create an encryption key from raw bytes (when the key is already derived).
    pub fn from_bytes(key: [u8; 32]) -> (r: Self)
        ensures
            r.key == key,
    {
        EncryptionKey { key }
    }

    /// Get the raw key bytes.
    pub fn as_bytes(&self) -> (r: &[u8; 32])
        ensures
            *r == self.key,
    {
        &self.key
    }
}

/// A cryptographic nonce (number used once) for encryption.
#[derive(Clone, Debug)]
pub struct EncryptionNonce(pub [u8; 12]);

impl View for EncryptionNonce {
    type V = Seq<u8>;

    open spec fn view(&self) -> Seq<u8> {
        self.0@
    }
}

impl EncryptionNonce {
    /// Generate a random nonce. Every nonce can come out.
    pub fn generate() -> (nonce: Self) {
        let bytes = random_bytes(NONCE_SIZE);
        EncryptionNonce(first_12(bytes.as_slice()))
    }

    /// Create a nonce from bytes.
    pub fn from_bytes(bytes: [u8; 12]) -> (nonce: Self)
        ensures
            nonce.0 == bytes,
    {
        EncryptionNonce(bytes)
    }

    /// Get the raw nonce bytes.
    pub fn as_bytes(&self) -> (r: &[u8; 12])
        ensures
            *r == self.0,
    {
        &self.0
    }
}

/// The first twelve bytes.
fn first_12(bytes: &[u8]) -> (r: [u8; 12])
    requires
        bytes@.len() >= 12,
    ensures
        r@ == bytes@.subrange(0, 12),
{
    let mut out: [u8; 12] = [0; 12];
    let mut i: usize = 0;
    while i < 12
        invariant
            i <= 12,
            bytes@.len() >= 12,
            forall|j: int| 0 <= j < i ==> out@[j] == bytes@[j],
        decreases 12 - i,
    {
        out[i] = bytes[i];
        i += 1;
    }
    assert(out@ =~= bytes@.subrange(0, 12));
    out
}

/// Generate a random salt for key derivation. Every salt can come out.
pub fn generate_salt() -> (salt: [u8; 16]) {
    let bytes = random_bytes(SALT_SIZE);
    let mut salt: [u8; 16] = [0; 16];
    let mut i: usize = 0;
    while i < SALT_SIZE
        invariant
            i <= 16,
            bytes@.len() == 16,
        decreases 16 - i,
    {
        salt[i] = bytes[i];
        i += 1;
    }
    salt
}

// ---------------------------------------------------------------------------
// Encryption
// ---------------------------------------------------------------------------

/// Encrypt plaintext using AES-256-GCM. The result is the ciphertext with the
/// authentication tag appended, which opens to the plaintext under the same key and
/// nonce. Each encryption must use a unique nonce.
pub fn encrypt(plaintext: &[u8], key: &EncryptionKey, nonce: &EncryptionNonce) -> (r: Result<
    Vec<u8>,
    SyncEngineError,
>)
    ensures
        plaintext@.len() <= MAX_PLAINTEXT ==> (r matches Ok(c) && c@ == gcm_sealed(
            key@,
            nonce@,
            plaintext@,
        ) && c@.len() == plaintext@.len() + TAG_SIZE && gcm_opened(key@, nonce@, c@) == Some(
            plaintext@,
        )),
        plaintext@.len() > MAX_PLAINTEXT ==> (r matches Err(
            SyncEngineError::EncryptionError(detail),
        ) && detail@ == "Encryption failed: "@ + "aead::Error"@),
{
    match gcm_encrypt(key.as_bytes(), nonce.as_bytes(), plaintext) {
        Ok(ciphertext) => Ok(ciphertext),
        Err(e) => {
            let mut detail = "Encryption failed: ".to_owned();
            detail.append(e.as_str());
            Err(SyncEngineError::EncryptionError(detail))
        },
    }
}

/// Decrypt ciphertext using AES-256-GCM. Fails with `DecryptionFailed` where the tag is
/// not that of the ciphertext under this key and nonce.
pub fn decrypt(ciphertext: &[u8], key: &EncryptionKey, nonce: &EncryptionNonce) -> (r: Result<
    Vec<u8>,
    SyncEngineError,
>)
    ensures
        match gcm_opened(key@, nonce@, ciphertext@) {
            Some(plaintext) => r matches Ok(p) && p@ == plaintext && ciphertext@.len() == p@.len()
                + TAG_SIZE && (p@.len() <= MAX_PLAINTEXT ==> ciphertext@ == gcm_sealed(
                key@,
                nonce@,
                p@,
            )),
            None => r == Err::<Vec<u8>, SyncEngineError>(SyncEngineError::DecryptionFailed),
        },
{
    match gcm_decrypt(key.as_bytes(), nonce.as_bytes(), ciphertext) {
        Some(plaintext) => Ok(plaintext),
        None => Err(SyncEngineError::DecryptionFailed),
    }
}

/// Encrypted data with nonce prepended.
///
/// Format: [nonce (12 bytes)] [ciphertext + auth tag]
#[derive(Clone, Debug, PartialEq)]
pub struct EncryptedData(Vec<u8>);

impl View for EncryptedData {
    type V = Seq<u8>;

    closed spec fn view(&self) -> Seq<u8> {
        self.0@
    }
}

/// The plaintext of encrypted data: the twelve bytes at the start are the nonce, the
/// rest is the ciphertext.
pub open spec fn data_opened(data: Seq<u8>, key: Seq<u8>) -> Option<Seq<u8>> {
    if data.len() < NONCE_SIZE {
        None
    } else {
        gcm_opened(key, data.subrange(0, 12), data.subrange(12, data.len() as int))
    }
}

/// The encrypted data of a plaintext under a key and a nonce.
pub open spec fn data_sealed(plaintext: Seq<u8>, key: Seq<u8>, nonce: Seq<u8>) -> Seq<u8> {
    nonce + gcm_sealed(key, nonce, plaintext)
}

impl EncryptedData {
    /// Encrypt plaintext under a given nonce, prepended to the ciphertext. What comes
    /// out opens to the plaintext under the same key.
    pub fn encrypt_with_nonce(
        plaintext: &[u8],
        key: &EncryptionKey,
        nonce: &EncryptionNonce,
    ) -> (r: Result<Self, SyncEngineError>)
        ensures
            plaintext@.len() <= MAX_PLAINTEXT ==> (r matches Ok(data) && data@ == data_sealed(
                plaintext@,
                key@,
                nonce@,
            ) && data@.len() == NONCE_SIZE + plaintext@.len() + TAG_SIZE && data_opened(data@, key@)
                == Some(plaintext@)),
            plaintext@.len() > MAX_PLAINTEXT ==> (r matches Err(
                SyncEngineError::EncryptionError(detail),
            ) && detail@ == "Encryption failed: "@ + "aead::Error"@),
    {
        let ciphertext = match encrypt(plaintext, key, nonce) {
            Ok(ciphertext) => ciphertext,
            Err(e) => {
                return Err(e);
            },
        };
        let mut data: Vec<u8> = Vec::new();
        data.extend_from_slice(nonce.as_bytes().as_slice());
        data.extend_from_slice(ciphertext.as_slice());
        proof {
            assert(data@ =~= nonce@ + ciphertext@);
            assert(data@.subrange(0, 12) =~= nonce@);
            assert(data@.subrange(12, data@.len() as int) =~= ciphertext@);
        }
        Ok(EncryptedData(data))
    }

    /// Encrypt plaintext under a fresh random nonce, prepended to the ciphertext. What
    /// comes out opens to the plaintext under the same key.
    pub fn encrypt(plaintext: &[u8], key: &EncryptionKey) -> (r: Result<Self, SyncEngineError>)
        ensures
            plaintext@.len() <= MAX_PLAINTEXT ==> (r matches Ok(data) && data@ == data_sealed(
                plaintext@,
                key@,
                data@.subrange(0, 12),
            ) && data@.len() == NONCE_SIZE + plaintext@.len() + TAG_SIZE && data_opened(data@, key@)
                == Some(plaintext@)),
            plaintext@.len() > MAX_PLAINTEXT ==> (r matches Err(
                SyncEngineError::EncryptionError(detail),
            ) && detail@ == "Encryption failed: "@ + "aead::Error"@),
    {
        let nonce = EncryptionNonce::generate();
        let r = Self::encrypt_with_nonce(plaintext, key, &nonce);
        proof {
            if let Ok(ref data) = r {
                assert(data@.subrange(0, 12) =~= nonce@);
            }
        }
        r
    }

    /// Decrypt this EncryptedData using the provided key. Whatever is returned is what
    /// was encrypted: encrypting it again under the stored nonce gives the same bytes.
    pub fn decrypt(&self, key: &EncryptionKey) -> (r: Result<Vec<u8>, SyncEngineError>)
        ensures
            match data_opened(self@, key@) {
                Some(plaintext) => r matches Ok(p) && p@ == plaintext && (p@.len() <= MAX_PLAINTEXT
                    ==> self@ == data_sealed(p@, key@, self@.subrange(0, 12))),
                None => r == Err::<Vec<u8>, SyncEngineError>(SyncEngineError::DecryptionFailed),
            },
    {
        if self.0.len() < NONCE_SIZE {
            return Err(SyncEngineError::DecryptionFailed);
        }
        let nonce = EncryptionNonce::from_bytes(first_12(self.0.as_slice()));
        let ciphertext = vstd::slice::slice_subrange(self.0.as_slice(), NONCE_SIZE, self.0.len());
        assert(self@ =~= self@.subrange(0, 12) + self@.subrange(12, self@.len() as int));
        decrypt(ciphertext, key, &nonce)
    }

    /// Get the raw bytes (nonce + ciphertext).
    pub fn as_bytes(&self) -> (r: &[u8])
        ensures
            r@ == self@,
    {
        self.0.as_slice()
    }

    /// Create EncryptedData from raw bytes.
    pub fn from_bytes(bytes: Vec<u8>) -> (r: Self)
        ensures
            r@ == bytes@,
    {
        EncryptedData(bytes)
    }
}

/// Encrypted data is the nonce followed by what the cipher makes of key, nonce and plaintext:
/// the nonce can be read off it, and it opens to what the rest opens to under that nonce. Data
/// too short for a nonce does not open.
pub proof fn encrypted_data_starts_with_its_nonce(
    plaintext: Seq<u8>,
    key: Seq<u8>,
    nonce: Seq<u8>,
    data: Seq<u8>,
)
    requires
        nonce.len() == 12,
    ensures
        data_sealed(plaintext, key, nonce).subrange(0, 12) == nonce,
        data_sealed(plaintext, key, nonce).skip(12) == gcm_sealed(key, nonce, plaintext),
        data_opened(data_sealed(plaintext, key, nonce), key) == gcm_opened(
            key,
            nonce,
            gcm_sealed(key, nonce, plaintext),
        ),
        data.len() < 12 ==> data_opened(data, key) is None,
        data_opened(nonce + data, key) == gcm_opened(key, nonce, data),
{
    let all = data_sealed(plaintext, key, nonce);
    assert(all.subrange(0, 12) =~= nonce);
    assert(all.skip(12) =~= gcm_sealed(key, nonce, plaintext));
    assert(all.subrange(12, all.len() as int) =~= gcm_sealed(key, nonce, plaintext));
    assert((nonce + data).subrange(0, 12) =~= nonce);
    assert((nonce + data).subrange(12, (nonce + data).len() as int) =~= data);
}

/// A passphrase gives the key that Argon2id derives from all of it and the salt, with 64 MB of
/// memory, three passes and four lanes.
pub proof fn passphrases_give_their_argon2id_key(
    passphrase: Seq<char>,
    salt: Seq<u8>,
    key: [u8; 32],
)
    ensures
        passphrase_key(passphrase, salt) == Ok::<[u8; 32], Seq<char>>(key) <==> argon2id_key(
            encode_utf8(passphrase),
            salt,
            65536,
            3,
            4,
        ) == Ok::<[u8; 32], Seq<char>>(key),
{
}

} // verus!
