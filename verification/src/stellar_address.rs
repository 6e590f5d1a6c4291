//! Conversion of a raw ed25519 public key to its Stellar StrKey (SEP-0023)
//! account address (`G...`).
use vstd::prelude::*;

verus! {

/// The StrKey address of an account key.
pub uninterp spec fn strkey_address(pubkey: Seq<u8>) -> Seq<char>;

/// Calls `stellar_strkey::ed25519::PublicKey::to_string`. The claims: the address
/// depends on the key alone, has 56 characters of which the first is `G`, and no
/// other key has the same address (the key's bytes are part of what is encoded).
#[verifier::external_body]
fn encode_strkey(pubkey: &[u8; 32]) -> (address: String)
    ensures
        address@ == strkey_address(pubkey@),
        address@.len() == 56,
        address@[0] == 'G',
        forall|other: [u8; 32]| #[trigger] strkey_address(other@) == address@ ==> other@ == pubkey@,
{
    stellar_strkey::ed25519::PublicKey(*pubkey).to_string().as_str().to_owned()
}

/// Encode `pubkey` as a Stellar `G...` account StrKey. Different keys have
/// different addresses.
pub fn pubkey_to_stellar_address(pubkey: &[u8; 32]) -> (address: String)
    ensures
        address@ == strkey_address(pubkey@),
        address@.len() == 56,
        address@[0] == 'G',
        forall|other: [u8; 32]| #[trigger] strkey_address(other@) == address@ ==> other@ == pubkey@,
{
    encode_strkey(pubkey)
}

} // verus!
