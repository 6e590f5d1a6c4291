//! The message types shared with the mesh layer.
use vstd::prelude::*;

verus! {

/// A relay's signed statement that it forwarded an envelope: a signature over
/// the envelope's id, the hash of the relay chain so far and the sequence number.
/// It does not name its signer.
#[derive(Debug, Clone, Copy, PartialEq, Eq)]
pub struct RelayChainProof {
    pub signature: [u8; 64],
    pub chain_hash: [u8; 32],
    pub sequence: u64,
}

/// A signed transaction on its way through the mesh.
#[derive(Debug, Clone, PartialEq, Eq)]
pub struct TransactionEnvelope {
    pub message_id: [u8; 32],
    pub origin_pubkey: [u8; 32],
    pub tx_xdr: String,
    pub ttl_hops: u8,
    pub timestamp: u64,
    pub signature: [u8; 64],
}

impl TransactionEnvelope {
    /// An envelope with the same contents.
    pub fn copy(&self) -> (r: Self)
        ensures
            r == *self,
    {
        TransactionEnvelope {
            message_id: self.message_id,
            origin_pubkey: self.origin_pubkey,
            tx_xdr: self.tx_xdr.clone(),
            ttl_hops: self.ttl_hops,
            timestamp: self.timestamp,
            signature: self.signature,
        }
    }
}

} // verus!
