//! A device's own outgoing payments: priorities, sequence numbers, dispatch.
pub mod dispatch;
pub mod expiry_policy;
pub mod priority;
pub mod reputation;
pub mod sequence;
pub mod spendable;
pub mod vdf_ordering;

pub use dispatch::{DispatchWindow, DEFAULT_MAX_IN_FLIGHT, DEFAULT_TIMEOUT_SECS};
pub use priority::{EmergencyGuardConfig, OutboundTxQueue, TxPriority};
pub use sequence::{MultisigAccountRegistry, ReconciliationOutcome, SequenceReservationManager};
pub use spendable::{estimate_spendable, QueuedEnvelopeSpend};
pub use vdf_ordering::{
    evaluate as vdf_evaluate, sort_for_dispatch, verify as vdf_verify, VdfOrderedEntry, VdfParams,
    VdfProof,
};
