//! The records a durable store keeps.
use crate::message::TransactionEnvelope;
use crate::queue::priority::TxPriority;
use vstd::prelude::*;

verus! {

/// A queued envelope as it is stored.
#[derive(Debug, Clone, PartialEq)]
pub struct QueuedEnvelopeRecord {
    pub envelope: TransactionEnvelope,
    pub source_account: String,
    pub sequence: i64,
    pub priority: TxPriority,
    pub enqueued_at: u64,
}

} // verus!
