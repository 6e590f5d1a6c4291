//! The hash functions the library commits to its data with.
use sha2::Digest;
use vstd::prelude::*;

verus! {

/// The SHA-256 digest of a byte string.
pub uninterp spec fn sha256_digest(data: Seq<u8>) -> [u8; 32];

/// Calls `sha2::Sha256::digest`. The claim: the result depends on the bytes
/// of `data` alone.
#[verifier::external_body]
pub(crate) fn sha256(data: &[u8]) -> (digest: [u8; 32])
    ensures
        digest == sha256_digest(data@),
{
    sha2::Sha256::digest(data).into()
}

/// The SHA-512 digest of a byte string.
pub uninterp spec fn sha512_digest(data: Seq<u8>) -> [u8; 64];

/// Calls `sha2::Sha512::digest`. The claim: the result depends on the bytes
/// of `data` alone.
#[verifier::external_body]
pub(crate) fn sha512(data: &[u8]) -> (digest: [u8; 64])
    ensures
        digest == sha512_digest(data@),
{
    sha2::Sha512::digest(data).into()
}

/// Two different inputs with the same SHA-256 digest.
pub open spec fn digests_collide(x: Seq<u8>, y: Seq<u8>) -> bool {
    x != y && sha256_digest(x) == sha256_digest(y)
}

/// Two different inputs with the same SHA-512 digest.
pub open spec fn long_digests_collide(x: Seq<u8>, y: Seq<u8>) -> bool {
    x != y && sha512_digest(x) == sha512_digest(y)
}

} // verus!
