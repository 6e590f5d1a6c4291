//! ed25519 keys. A signing key is held as its 32-byte seed.
use vstd::prelude::*;

verus! {

/// The public key of the signing key with the given seed.
pub uninterp spec fn ed25519_public(seed: Seq<u8>) -> [u8; 32];

/// Why 32 bytes are not an ed25519 public key, in the words of the key's
/// decoder; `None` where they are one.
pub uninterp spec fn ed25519_key_fault(key: Seq<u8>) -> Option<Seq<char>>;

/// Calls `ed25519_dalek::SigningKey::verifying_key`. The claim: the public key
/// depends on the seed alone.
#[verifier::external_body]
pub(crate) fn public_key(seed: &[u8; 32]) -> (key: [u8; 32])
    ensures
        key == ed25519_public(seed@),
{
    ed25519_dalek::SigningKey::from_bytes(seed).verifying_key().to_bytes()
}

/// Calls `ed25519_dalek::VerifyingKey::from_bytes`. The claim: whether 32 bytes
/// decode to a key, and the message of the error where they do not, depend on
/// those bytes alone.
#[verifier::external_body]
pub(crate) fn check_public_key(key: &[u8; 32]) -> (r: Result<(), String>)
    ensures
        r is Ok <==> ed25519_key_fault(key@) is None,
        r matches Err(e) ==> ed25519_key_fault(key@) == Some(e@),
{
    match ed25519_dalek::VerifyingKey::from_bytes(key) {
        Ok(_) => Ok(()),
        Err(e) => Err(e.to_string()),
    }
}

/// The signature of a message under the signing key with the given seed.
pub uninterp spec fn ed25519_signature(seed: Seq<u8>, message: Seq<u8>) -> [u8; 64];

/// Whether a signature of a message verifies under a public key.
pub uninterp spec fn ed25519_verifies(key: Seq<u8>, message: Seq<u8>, signature: Seq<u8>) -> bool;

/// Calls the `sign` of an `ed25519_dalek::SigningKey`. The claims: the signature
/// depends on the seed and the message alone, and verifies under the seed's public
/// key.
#[verifier::external_body]
pub(crate) fn sign_message(seed: &[u8; 32], message: &[u8]) -> (signature: [u8; 64])
    ensures
        signature == ed25519_signature(seed@, message@),
        ed25519_verifies(ed25519_public(seed@)@, message@, signature@),
{
    ed25519_dalek::Signer::sign(&ed25519_dalek::SigningKey::from_bytes(seed), message).to_bytes()
}

/// Calls the `verify` of an `ed25519_dalek::VerifyingKey`; bytes that are no key
/// verify nothing. The claim: the verdict depends on the arguments alone.
#[verifier::external_body]
pub(crate) fn verify_message(key: &[u8; 32], message: &[u8], signature: &[u8; 64]) -> (r: bool)
    ensures
        r == ed25519_verifies(key@, message@, signature@),
{
    let signature = ed25519_dalek::Signature::from_bytes(signature);
    match ed25519_dalek::VerifyingKey::from_bytes(key) {
        Ok(key) => ed25519_dalek::Verifier::verify(&key, message, &signature).is_ok(),
        Err(_) => false,
    }
}

} // verus!
