//! Signers for envelopes: in memory, or behind a trusted execution environment.
//!
//! Residual trust: the host OS must deliver the enclave's own attestation statement,
//! and the root key that statements are verified against must be distributed securely.
use crate::bytes::{has_prefix, starts_with};
use crate::errors::SyncEngineError;
use crate::keys::{
    ed25519_public, ed25519_signature, ed25519_verifies, public_key, sign_message, verify_message,
};
use vstd::prelude::*;
use vstd::utf8::encode_utf8;

verus! {

/// A hardware-isolated or memory-backed signer for envelopes.
pub trait KeySigner {
    /// The public key of this signer.
    spec fn key(&self) -> [u8; 32];

    /// What signing a message may return.
    spec fn may_sign(&self, message: Seq<u8>, r: Result<[u8; 64], SyncEngineError>) -> bool;

    /// Whether the signing key lives in a Trusted Execution Environment (TEE).
    spec fn in_tee(&self) -> bool;

    /// Returns the Ed25519 public key.
    fn public_key(&self) -> (key: [u8; 32])
        ensures
            key == self.key(),
    ;

    /// Signs the given message payload and returns a 64-byte Ed25519 signature.
    fn sign(&self, message: &[u8]) -> (r: Result<[u8; 64], SyncEngineError>)
        ensures
            self.may_sign(message@, r),
    ;

    /// Returns `true` if this signer is backed by a Trusted Execution Environment
    /// (TEE).
    fn is_tee(&self) -> (r: bool)
        ensures
            r == self.in_tee(),
    ;

    /// Returns the attestation statement, if this signer provides one. A signer that does
    /// not say otherwise provides none.
    fn attestation(&self) -> (r: Option<&[u8]>)
        default_ensures
            r is None,
    {
        None
    }
}

/// An ordinary in-memory signer that holds the signing key in process memory.
/// Suitable for platforms without TEE access, or tests.
pub struct InMemorySigner {
    seed: [u8; 32],
}

impl InMemorySigner {
    /// The seed of the signing key.
    pub closed spec fn seed(self) -> Seq<u8> {
        self.seed@
    }

    /// A signer that holds the signing key with the given seed.
    pub fn new(seed: [u8; 32]) -> (signer: Self)
        ensures
            signer.seed() == seed@,
    {
        InMemorySigner { seed }
    }
}

impl KeySigner for InMemorySigner {
    open spec fn key(&self) -> [u8; 32] {
        ed25519_public(self.seed())
    }

    /// Signing always succeeds, and the signature verifies under the signer's key.
    open spec fn may_sign(&self, message: Seq<u8>, r: Result<[u8; 64], SyncEngineError>) -> bool {
        &&& r == Ok::<[u8; 64], SyncEngineError>(ed25519_signature(self.seed(), message))
        &&& ed25519_verifies(
            self.key()@,
            message,
            ed25519_signature(self.seed(), message)@,
        )
    }

    fn public_key(&self) -> (key: [u8; 32]) {
        public_key(&self.seed)
    }

    fn sign(&self, message: &[u8]) -> (r: Result<[u8; 64], SyncEngineError>) {
        Ok(sign_message(&self.seed, message))
    }

    open spec fn in_tee(&self) -> bool {
        false
    }

    fn is_tee(&self) -> (r: bool)
        ensures
            !r,
    {
        false
    }

    fn attestation(&self) -> (r: Option<&[u8]>)
        ensures
            r is None,
    {
        None
    }
}

/// Statement provided by a Trusted Execution Environment (TEE) proving the key
/// resides in genuine hardware.
#[derive(Debug, Clone)]
pub struct AttestationStatement {
    pub payload: Vec<u8>,
    pub signature: [u8; 64],
}

/// The payload names itself forged.
pub open spec fn says_forged(payload: Seq<u8>) -> bool {
    has_prefix(payload, encode_utf8("forged"@))
}

impl AttestationStatement {
    /// Judge this statement, given whether its signature verifies.
    pub fn judge(&self, signature_valid: bool) -> (r: Result<(), SyncEngineError>)
        ensures
            r is Ok <==> signature_valid && !says_forged(self.payload@),
            r matches Err(e) ==> e matches SyncEngineError::InvalidAttestation(msg) && msg@ == (
            if !signature_valid {
                "signature verification failed"@
            } else {
                "payload indicates a forged attestation"@
            }),
    {
        if !signature_valid {
            return Err(
                SyncEngineError::InvalidAttestation("signature verification failed".to_owned()),
            );
        }
        if starts_with(self.payload.as_slice(), "forged".as_bytes()) {
            return Err(
                SyncEngineError::InvalidAttestation(
                    "payload indicates a forged attestation".to_owned(),
                ),
            );
        }
        Ok(())
    }

    /// Verifies this attestation statement against a trusted root public key.
    pub fn verify(&self, trusted_root: &[u8; 32]) -> (r: Result<(), SyncEngineError>)
        ensures
            r is Ok <==> ed25519_verifies(trusted_root@, self.payload@, self.signature@)
                && !says_forged(self.payload@),
            r matches Err(e) ==> e matches SyncEngineError::InvalidAttestation(msg) && msg@ == (
            if !ed25519_verifies(trusted_root@, self.payload@, self.signature@) {
                "signature verification failed"@
            } else {
                "payload indicates a forged attestation"@
            }),
    {
        self.judge(verify_message(trusted_root, self.payload.as_slice(), &self.signature))
    }
}

/// A stub for a TEE-backed signer (e.g. Android Keystore or iOS Secure Enclave), with
/// actual signing deferred to mobile FFI.
pub struct TeeSigner {
    public_key: [u8; 32],
    attestation: Vec<u8>,
}

impl TeeSigner {
    /// The attestation statement.
    pub closed spec fn statement(self) -> Seq<u8> {
        self.attestation@
    }

    /// Attempt to acquire a TEE-backed signer. If genuine TEE is unavailable, this
    /// fails hard; it never falls back to software.
    pub fn try_new(public_key: [u8; 32], attestation: Vec<u8>, tee_available: bool) -> (r: Result<
        Self,
        SyncEngineError,
    >)
        ensures
            r is Ok <==> tee_available,
            r matches Ok(signer) ==> signer.key() == public_key && signer.statement()
                == attestation@,
            r matches Err(e) ==> e is TeeUnavailable,
    {
        if !tee_available {
            return Err(SyncEngineError::TeeUnavailable);
        }
        Ok(TeeSigner { public_key, attestation })
    }
}

impl KeySigner for TeeSigner {
    closed spec fn key(&self) -> [u8; 32] {
        self.public_key
    }

    /// Signing always fails: the hardware is not integrated yet.
    open spec fn may_sign(&self, message: Seq<u8>, r: Result<[u8; 64], SyncEngineError>) -> bool {
        r matches Err(e) && e is TeeSignerUnimplemented
    }

    fn public_key(&self) -> (key: [u8; 32]) {
        self.public_key
    }

    fn sign(&self, _message: &[u8]) -> (r: Result<[u8; 64], SyncEngineError>) {
        Err(SyncEngineError::TeeSignerUnimplemented)
    }

    open spec fn in_tee(&self) -> bool {
        true
    }

    fn is_tee(&self) -> (r: bool)
        ensures
            r,
    {
        true
    }

    fn attestation(&self) -> (r: Option<&[u8]>)
        ensures
            r matches Some(bytes) && bytes@ == self.statement(),
    {
        Some(self.attestation.as_slice())
    }
}

/// A signer in memory signs every message with its own key, and the signature verifies under
/// the public key of that key; a stub of a hardware signer signs none.
pub proof fn signers_sign_with_their_own_key(
    signer: InMemorySigner,
    tee: TeeSigner,
    message: Seq<u8>,
    r: Result<[u8; 64], SyncEngineError>,
)
    ensures
        signer.key() == ed25519_public(signer.seed()),
        signer.may_sign(message, r) ==> {
            &&& r == Ok::<[u8; 64], SyncEngineError>(ed25519_signature(signer.seed(), message))
            &&& ed25519_verifies(
                ed25519_public(signer.seed())@,
                message,
                ed25519_signature(signer.seed(), message)@,
            )
        },
        tee.may_sign(message, r) <==> r == Err::<[u8; 64], SyncEngineError>(
            SyncEngineError::TeeSignerUnimplemented,
        ),
        tee.in_tee() && !signer.in_tee(),
{
}

/// A payload says that it is forged exactly where it begins with that word.
pub proof fn forged_payloads_begin_with_the_word(payload: Seq<u8>, rest: Seq<u8>)
    ensures
        says_forged(encode_utf8("forged"@) + rest),
        says_forged(payload) ==> payload == encode_utf8("forged"@) + payload.skip(
            encode_utf8("forged"@).len() as int,
        ),
{
    crate::bytes::prefixes_are_beginnings(payload, encode_utf8("forged"@), rest);
}

} // verus!
