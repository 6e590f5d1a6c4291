//! Optional post-quantum signatures beside the classical one.
use crate::errors::SyncEngineError;
use crate::message::TransactionEnvelope;
use pqcrypto_traits::sign::{DetachedSignature, PublicKey, SecretKey};
use vstd::prelude::*;
use vstd::utf8::encode_utf8;

verus! {

/// Size of a Dilithium2 public key.
pub const PQ_PUBLIC_KEY_BYTES: usize = 1312;

/// Size of a Dilithium2 secret key.
pub const PQ_SECRET_KEY_BYTES: usize = 2560;

/// Size of a Dilithium2 signature.
pub const PQ_SIGNATURE_BYTES: usize = 2420;

/// The Dilithium2 signature of a payload under a secret key.
pub uninterp spec fn dilithium_signature(secret_key: Seq<u8>, payload: Seq<u8>) -> Seq<u8>;

/// Whether a Dilithium2 signature of a payload verifies under a public key.
pub uninterp spec fn dilithium_verifies(
    public_key: Seq<u8>,
    payload: Seq<u8>,
    signature: Seq<u8>,
) -> bool;

/// Calls `pqcrypto_dilithium::dilithium2::detached_sign`, which takes a secret key of
/// 2560 bytes. The claims: the signature depends on the key and the payload alone
/// (signing draws no random numbers), and has 2420 bytes.
#[verifier::external_body]
fn pq_sign(payload: &[u8], secret_key: &[u8]) -> (signature: Vec<u8>)
    requires
        secret_key@.len() == PQ_SECRET_KEY_BYTES,
    ensures
        signature@ == dilithium_signature(secret_key@, payload@),
        signature@.len() == PQ_SIGNATURE_BYTES,
{
    let key = pqcrypto_dilithium::dilithium2::SecretKey::from_bytes(secret_key)
        .expect("the key has the right size");
    pqcrypto_dilithium::dilithium2::detached_sign(payload, &key).as_bytes().to_vec()
}

/// Calls `pqcrypto_dilithium::dilithium2::verify_detached_signature`, which takes a
/// public key of 1312 bytes and a signature of at most 2420. The claim: the verdict
/// depends on the arguments alone.
#[verifier::external_body]
fn pq_verify(signature: &[u8], payload: &[u8], public_key: &[u8]) -> (r: bool)
    requires
        public_key@.len() == PQ_PUBLIC_KEY_BYTES,
        signature@.len() <= PQ_SIGNATURE_BYTES,
    ensures
        r == dilithium_verifies(public_key@, payload@, signature@),
{
    let key = pqcrypto_dilithium::dilithium2::PublicKey::from_bytes(public_key)
        .expect("the key has the right size");
    let signature = pqcrypto_dilithium::dilithium2::DetachedSignature::from_bytes(signature)
        .expect("the signature is not too long");
    pqcrypto_dilithium::dilithium2::verify_detached_signature(&signature, payload, &key).is_ok()
}

/// A Dilithium2 key pair.
#[derive(Debug, Clone)]
pub struct PqKeyPair {
    public_key: Vec<u8>,
    secret_key: Vec<u8>,
}

impl PqKeyPair {
    /// The bytes of the public key.
    pub closed spec fn public(self) -> Seq<u8> {
        self.public_key@
    }

    /// The bytes of the secret key.
    pub closed spec fn secret(self) -> Seq<u8> {
        self.secret_key@
    }

    /// The keys have the right sizes.
    pub open spec fn wf(self) -> bool {
        self.public().len() == PQ_PUBLIC_KEY_BYTES && self.secret().len() == PQ_SECRET_KEY_BYTES
    }

    /// What one key signs, the other verifies.
    pub open spec fn matching(self) -> bool {
        forall|payload: Seq<u8>|
            dilithium_verifies(
                self.public(),
                payload,
                #[trigger] dilithium_signature(self.secret(), payload),
            )
    }

    /// A key pair from the bytes of both keys; `None` where one has the wrong size.
    pub fn from_bytes(public_key: Vec<u8>, secret_key: Vec<u8>) -> (r: Option<PqKeyPair>)
        ensures
            r is Some <==> public_key@.len() == PQ_PUBLIC_KEY_BYTES && secret_key@.len()
                == PQ_SECRET_KEY_BYTES,
            r matches Some(pair) ==> pair.wf() && pair.public() == public_key@ && pair.secret()
                == secret_key@,
    {
        if public_key.len() == PQ_PUBLIC_KEY_BYTES && secret_key.len() == PQ_SECRET_KEY_BYTES {
            Some(PqKeyPair { public_key, secret_key })
        } else {
            None
        }
    }
}

/// Opt-in signing policy for the envelope builder.
pub enum SigningPolicy {
    /// A classical signature only.
    ClassicalOnly,
    /// Adds a post-quantum signature (ML-DSA-44 / Dilithium2) over the canonical
    /// payload.
    Hybrid(PqKeyPair),
}

impl SigningPolicy {
    /// The keys of the policy have the right sizes.
    pub open spec fn wf(self) -> bool {
        self matches SigningPolicy::Hybrid(pair) ==> pair.wf()
    }
}

/// A [`TransactionEnvelope`] that can carry an optional PQ signature.
#[derive(Debug, Clone)]
pub struct HybridSignedEnvelope {
    pub classical_envelope: TransactionEnvelope,
    pub pq_signature: Option<Vec<u8>>,
    pub pq_public_key: Option<Vec<u8>>,
}

/// The payload that post-quantum signatures are computed over: the origin's key and the
/// transaction.
pub open spec fn payload_of(envelope: TransactionEnvelope) -> Seq<u8> {
    envelope.origin_pubkey@ + encode_utf8(envelope.tx_xdr@)
}

/// Whether a public key and a signature are there and verify for a payload.
pub open spec fn pq_checks_out(
    public_key: Seq<u8>,
    payload: Seq<u8>,
    signature: Seq<u8>,
) -> bool {
    &&& public_key.len() == PQ_PUBLIC_KEY_BYTES
    &&& signature.len() <= PQ_SIGNATURE_BYTES
    &&& dilithium_verifies(public_key, payload, signature)
}

impl HybridSignedEnvelope {
    /// Canonical payload that the PQ signature is computed over.
    pub fn canonical_payload(&self) -> (payload: Vec<u8>)
        ensures
            payload@ == payload_of(self.classical_envelope),
    {
        let mut payload: Vec<u8> = Vec::new();
        payload.extend_from_slice(self.classical_envelope.origin_pubkey.as_slice());
        payload.extend_from_slice(self.classical_envelope.tx_xdr.as_str().as_bytes());
        assert(payload@ =~= payload_of(self.classical_envelope));
        payload
    }

    /// Verifies the PQ signature if present. An envelope without a signature or without
    /// a key passes.
    pub fn verify_pq(&self) -> (r: Result<(), SyncEngineError>)
        ensures
            r is Ok <==> (self.pq_signature matches Some(signature) ==> (
            self.pq_public_key matches Some(key) ==> pq_checks_out(
                key@,
                payload_of(self.classical_envelope),
                signature@,
            ))),
            r matches Err(e) ==> e is PqVerificationFailed,
    {
        match (&self.pq_signature, &self.pq_public_key) {
            (Some(signature), Some(key)) => {
                if key.len() != PQ_PUBLIC_KEY_BYTES || signature.len() > PQ_SIGNATURE_BYTES {
                    return Err(SyncEngineError::PqVerificationFailed);
                }
                let payload = self.canonical_payload();
                if pq_verify(signature.as_slice(), payload.as_slice(), key.as_slice()) {
                    Ok(())
                } else {
                    Err(SyncEngineError::PqVerificationFailed)
                }
            },
            _ => Ok(()),
        }
    }
}

/// What a policy adds to an envelope: nothing, or the signature of its payload and the
/// public key.
pub open spec fn signed_under(envelope: HybridSignedEnvelope, policy: SigningPolicy) -> bool {
    match policy {
        SigningPolicy::ClassicalOnly => envelope.pq_signature is None && envelope.pq_public_key
            is None,
        SigningPolicy::Hybrid(pair) => {
            &&& envelope.pq_signature matches Some(signature) && signature@ == dilithium_signature(
                pair.secret(),
                payload_of(envelope.classical_envelope),
            ) && signature@.len() == PQ_SIGNATURE_BYTES
            &&& envelope.pq_public_key matches Some(key) && key@ == pair.public()
        },
    }
}

/// Add what a policy asks for to a classical envelope.
pub fn apply_policy(classical_envelope: TransactionEnvelope, policy: &SigningPolicy) -> (e:
    HybridSignedEnvelope)
    requires
        policy.wf(),
    ensures
        e.classical_envelope == classical_envelope,
        signed_under(e, *policy),
{
    let mut envelope = HybridSignedEnvelope {
        classical_envelope,
        pq_signature: None,
        pq_public_key: None,
    };
    if let SigningPolicy::Hybrid(pair) = policy {
        let payload = envelope.canonical_payload();
        envelope.pq_signature = Some(pq_sign(payload.as_slice(), pair.secret_key.as_slice()));
        envelope.pq_public_key = Some(pair.public_key.clone());
    }
    envelope
}

/// Hybrid signing with a matching key pair produces a signature that verifies, and
/// classical-only signing produces none.
pub proof fn signed_envelopes_verify(envelope: HybridSignedEnvelope, policy: SigningPolicy)
    requires
        policy.wf(),
        signed_under(envelope, policy),
    ensures
        (policy matches SigningPolicy::Hybrid(pair) ==> pair.matching()) ==> (
        envelope.pq_signature matches Some(signature) ==> (envelope.pq_public_key matches Some(key)
            ==> pq_checks_out(
            key@,
            payload_of(envelope.classical_envelope),
            signature@,
        ))),
        policy is ClassicalOnly <==> envelope.pq_signature is None,
{
}

/// What is signed is the origin and the transaction, and nothing else: two envelopes have the
/// same payload exactly where they have the same origin and the same transaction.
pub proof fn payloads_tell_transactions_apart(a: TransactionEnvelope, b: TransactionEnvelope)
    ensures
        payload_of(a) == payload_of(b) <==> a.origin_pubkey == b.origin_pubkey && a.tx_xdr@
            == b.tx_xdr@,
        payload_of(a).len() == 32 + encode_utf8(a.tx_xdr@).len(),
{
    if payload_of(a) == payload_of(b) {
        let bytes = payload_of(a);
        let n = bytes.len() as int;
        assert(bytes.subrange(0, 32) =~= a.origin_pubkey@);
        assert(bytes.subrange(0, 32) =~= b.origin_pubkey@);
        assert(a.origin_pubkey =~= b.origin_pubkey);
        assert(bytes.subrange(32, n) =~= encode_utf8(a.tx_xdr@));
        assert(bytes.subrange(32, n) =~= encode_utf8(b.tx_xdr@));
        vstd::utf8::encode_utf8_decode_utf8(a.tx_xdr@);
        vstd::utf8::encode_utf8_decode_utf8(b.tx_xdr@);
    }
}

/// A signature that does not verify, or a key or a signature of a wrong size, does not check
/// out; any other does.
pub proof fn checks_need_a_verifying_signature(
    public_key: Seq<u8>,
    payload: Seq<u8>,
    signature: Seq<u8>,
)
    ensures
        !dilithium_verifies(public_key, payload, signature) ==> !pq_checks_out(
            public_key,
            payload,
            signature,
        ),
        public_key.len() != 1312 || signature.len() > 2420 ==> !pq_checks_out(
            public_key,
            payload,
            signature,
        ),
        dilithium_verifies(public_key, payload, signature) && public_key.len() == 1312
            && signature.len() <= 2420 ==> pq_checks_out(public_key, payload, signature),
{
}

/// A hybrid policy adds the signature of the envelope's payload under its own secret key, and
/// its own public key; a classical one adds neither.
pub proof fn policies_sign_with_their_own_keys(envelope: HybridSignedEnvelope, pair: PqKeyPair)
    ensures
        signed_under(envelope, SigningPolicy::Hybrid(pair)) ==> {
            &&& envelope.pq_signature is Some
            &&& envelope.pq_signature->0@ == dilithium_signature(
                pair.secret(),
                payload_of(envelope.classical_envelope),
            )
            &&& envelope.pq_public_key is Some
            &&& envelope.pq_public_key->0@ == pair.public()
        },
        signed_under(envelope, SigningPolicy::ClassicalOnly) <==> envelope.pq_signature is None
            && envelope.pq_public_key is None,
{
}

} // verus!
