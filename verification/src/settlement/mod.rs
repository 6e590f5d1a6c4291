//! Settlement: the life cycle of a queued payment and its audit trail.
pub mod invariants;
pub mod tracker;
pub mod transparency_log;

pub use invariants::{check_invariants, InvariantCheckResult, InvariantViolation};
pub use tracker::{SettlementStatus, SettlementTracker};
pub use transparency_log::{ConsistencyProof, InclusionProof, LogEntry, TransparencyLog};
