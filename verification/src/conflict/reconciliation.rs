//! Deterministic reconvergence for independently-resolved conflicts.
//!
//! When two mesh partitions reconcile after a long split, both sides may already
//! have resolved the same logical conflict, to different outcomes. [`classify`]
//! buckets a single record's divergence; [`reconverge`] picks the winning
//! resolution from two competing ones by a rule that is order-independent, so
//! both partitions reach the same final state whichever side initiates.
use crate::bytes::{bytes32_eq, bytes_lt, lex_lt, lex_lt_is_total, lex_lt_is_transitive};
use crate::hashing::{sha256, sha256_digest};
use vstd::prelude::*;

verus! {

/// A compact, comparable summary of one conflict resolution as recorded by a
/// single partition.
///
/// `causal_depth` is the length of the causal history behind the resolution
/// decision: a smaller value means the decision was made earlier in logical
/// time. `payload_hash` is used only as a final, total-order tie-break.
#[derive(Debug, Clone, Copy, PartialEq, Eq)]
pub struct ResolutionSummary {
    /// Length of the causal history behind this resolution decision.
    pub causal_depth: u64,
    /// SHA-256 of the canonical resolution payload.
    pub payload_hash: [u8; 32],
}

impl ResolutionSummary {
    /// Build a summary from a causal depth and the raw canonical bytes of the
    /// resolution payload. The bytes are hashed with SHA-256 and are not
    /// retained.
    pub fn from_payload(causal_depth: u64, canonical_payload: &[u8]) -> (s: Self)
        ensures
            s == (ResolutionSummary {
                causal_depth,
                payload_hash: sha256_digest(canonical_payload@),
            }),
    {
        ResolutionSummary { causal_depth, payload_hash: sha256(canonical_payload) }
    }

    /// The total order used for reconvergence: earliest causal decision first,
    /// then lowest payload hash.
    pub open spec fn precedes(self, other: ResolutionSummary) -> bool {
        self.causal_depth < other.causal_depth || (self.causal_depth == other.causal_depth
            && lex_lt(self.payload_hash@, other.payload_hash@))
    }

    fn comes_before(&self, other: &ResolutionSummary) -> (r: bool)
        ensures
            r == self.precedes(*other),
    {
        self.causal_depth < other.causal_depth || (self.causal_depth == other.causal_depth
            && bytes_lt(self.payload_hash.as_slice(), other.payload_hash.as_slice()))
    }
}

/// How a single record differs between the local and remote partition, once
/// both sides are known to hold that record.
#[derive(Debug, Clone, Copy, PartialEq, Eq, Structural)]
pub enum DivergenceClass {
    /// Neither side has recorded a resolution yet, or both recorded the same
    /// one: nothing to do.
    Converged,
    /// Exactly one side has recorded a resolution. Propagate it to the other
    /// side (verifying its causal history first).
    OneSidedResolution,
    /// Both sides independently recorded a resolution for the same logical
    /// conflict, and the two disagree. Feed both summaries to [`reconverge`].
    DoublyResolved,
}

/// Bucket the divergence of a record that both partitions hold, given each
/// side's recorded resolution (if any).
pub fn classify(local: Option<ResolutionSummary>, remote: Option<ResolutionSummary>) -> (r:
    DivergenceClass)
    ensures
        r is OneSidedResolution <==> local is Some != remote is Some,
        r is Converged <==> local == remote,
{
    match (local, remote) {
        (None, None) => DivergenceClass::Converged,
        (Some(_), None) => DivergenceClass::OneSidedResolution,
        (None, Some(_)) => DivergenceClass::OneSidedResolution,
        (Some(a), Some(b)) => {
            if a.causal_depth == b.causal_depth && bytes32_eq(&a.payload_hash, &b.payload_hash) {
                DivergenceClass::Converged
            } else {
                DivergenceClass::DoublyResolved
            }
        },
    }
}

/// The outcome of reconverging two competing resolutions.
#[derive(Debug, Clone, Copy, PartialEq, Eq, Structural)]
pub enum Reconvergence {
    /// Both sides already hold the same resolution; no state change.
    AlreadyConverged,
    /// The local resolution wins; the remote side must adopt it.
    LocalWins,
    /// The remote resolution wins; the local side must adopt it.
    RemoteWins,
}

/// Pick the winner of two independently-recorded resolutions for the same
/// logical conflict: the one that precedes the other.
pub fn reconverge(local: ResolutionSummary, remote: ResolutionSummary) -> (r: Reconvergence)
    ensures
        r == outcome(local, remote),
{
    if local.comes_before(&remote) {
        Reconvergence::LocalWins
    } else if remote.comes_before(&local) {
        Reconvergence::RemoteWins
    } else {
        Reconvergence::AlreadyConverged
    }
}

/// What [`reconverge`] decides.
pub open spec fn outcome(local: ResolutionSummary, remote: ResolutionSummary) -> Reconvergence {
    if local.precedes(remote) {
        Reconvergence::LocalWins
    } else if remote.precedes(local) {
        Reconvergence::RemoteWins
    } else {
        Reconvergence::AlreadyConverged
    }
}

/// The resolution that a reconvergence names as the winner.
pub open spec fn named_winner(
    local: ResolutionSummary,
    remote: ResolutionSummary,
) -> Option<ResolutionSummary> {
    match outcome(local, remote) {
        Reconvergence::LocalWins => Some(local),
        Reconvergence::RemoteWins => Some(remote),
        Reconvergence::AlreadyConverged => None,
    }
}

/// The order of resolutions is total and strict: of two different summaries
/// exactly one precedes the other.
pub proof fn resolutions_are_totally_ordered(a: ResolutionSummary, b: ResolutionSummary)
    ensures
        a != b ==> (a.precedes(b) != b.precedes(a)),
        a == b ==> !a.precedes(b),
{
    lex_lt_is_total(a.payload_hash@, b.payload_hash@);
    if a.payload_hash@ == b.payload_hash@ {
        assert(a.payload_hash =~= b.payload_hash);
    }
}

/// The order of resolutions is transitive, so any number of partitions agree on
/// the same first one.
pub proof fn resolution_order_is_transitive(
    a: ResolutionSummary,
    b: ResolutionSummary,
    c: ResolutionSummary,
)
    requires
        a.precedes(b),
        b.precedes(c),
    ensures
        a.precedes(c),
{
    if a.causal_depth == c.causal_depth {
        lex_lt_is_transitive(a.payload_hash@, b.payload_hash@, c.payload_hash@);
    }
}

/// Both partitions name the same winner, whichever side is passed first.
pub proof fn reconvergence_is_order_independent(a: ResolutionSummary, b: ResolutionSummary)
    ensures
        named_winner(a, b) == named_winner(b, a),
{
    resolutions_are_totally_ordered(a, b);
}

/// Nothing changes exactly when both sides hold the same resolution.
pub proof fn reconvergence_keeps_only_equals(a: ResolutionSummary, b: ResolutionSummary)
    ensures
        outcome(a, b) is AlreadyConverged <==> a == b,
{
    resolutions_are_totally_ordered(a, b);
}

/// The resolution with the shorter causal history wins, and of two with histories of the same
/// length the one with the smaller payload hash.
pub proof fn the_earliest_resolution_wins(local: ResolutionSummary, remote: ResolutionSummary)
    ensures
        local.causal_depth < remote.causal_depth ==> outcome(local, remote) is LocalWins,
        local.causal_depth > remote.causal_depth ==> outcome(local, remote) is RemoteWins,
        local.causal_depth == remote.causal_depth && lex_lt(
            local.payload_hash@,
            remote.payload_hash@,
        ) ==> outcome(local, remote) is LocalWins,
        local.causal_depth == remote.causal_depth && lex_lt(
            remote.payload_hash@,
            local.payload_hash@,
        ) ==> outcome(local, remote) is RemoteWins,
        outcome(local, remote) is LocalWins ==> named_winner(local, remote) == Some(local),
        outcome(local, remote) is RemoteWins ==> named_winner(local, remote) == Some(remote),
        outcome(local, remote) is AlreadyConverged ==> named_winner(local, remote) is None,
{
    lex_lt_is_total(local.payload_hash@, remote.payload_hash@);
}

} // verus!
