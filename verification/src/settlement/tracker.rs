//! Settlement state machine for a queued envelope, from the moment it's
//! signed offline to final on-chain confirmation (or failure).
use crate::errors::SyncEngineError;
use crate::maps::{keys_distinct, map_of, IdMap};
use crate::text::{hex_of, hex_string, str_eq};
use vstd::prelude::*;

verus! {

/// Where a queued envelope stands on its way to the ledger.
#[derive(Debug, Clone, Copy, PartialEq, Eq, Structural)]
pub enum SettlementStatus {
    /// Signed and durably stored on-device; not yet handed to the mesh.
    Queued,
    /// Handed to the gossip layer; propagating toward a relay node.
    Propagating,
    /// A relay node submitted it to Stellar and it was confirmed.
    Settled,
    /// Propagation or submission failed (TTL expired, relay rejected it, etc).
    Failed,
    /// A conflicting envelope was detected for the same account/sequence and
    /// the conflict could not be resolved off-chain. Awaiting on-chain
    /// arbitration via the `dispute-resolver` contract.
    Disputed,
}

impl SettlementStatus {
    /// The name a status is stored under.
    pub open spec fn name(self) -> Seq<char> {
        match self {
            SettlementStatus::Queued => "queued"@,
            SettlementStatus::Propagating => "propagating"@,
            SettlementStatus::Settled => "settled"@,
            SettlementStatus::Failed => "failed"@,
            SettlementStatus::Disputed => "disputed"@,
        }
    }

    /// The legal state changes.
    pub open spec fn may_become(self, next: SettlementStatus) -> bool {
        match self {
            SettlementStatus::Queued => next is Propagating || next is Failed,
            SettlementStatus::Propagating => next is Settled || next is Failed || next is Disputed,
            SettlementStatus::Settled => false,
            SettlementStatus::Failed => next is Propagating,
            SettlementStatus::Disputed => next is Settled || next is Failed,
        }
    }

    /// The name this status is stored under.
    pub fn as_str(&self) -> (s: &'static str)
        ensures
            s@ == self.name(),
    {
        match self {
            SettlementStatus::Queued => "queued",
            SettlementStatus::Propagating => "propagating",
            SettlementStatus::Settled => "settled",
            SettlementStatus::Failed => "failed",
            SettlementStatus::Disputed => "disputed",
        }
    }

    /// Whether transitioning from `self` to `next` is a legal state change.
    pub fn can_transition_to(&self, next: SettlementStatus) -> (r: bool)
        ensures
            r == self.may_become(next),
    {
        match (*self, next) {
            (SettlementStatus::Queued, SettlementStatus::Propagating) => true,
            (SettlementStatus::Queued, SettlementStatus::Failed) => true,
            (SettlementStatus::Propagating, SettlementStatus::Settled) => true,
            (SettlementStatus::Propagating, SettlementStatus::Failed) => true,
            (SettlementStatus::Propagating, SettlementStatus::Disputed) => true,
            (SettlementStatus::Disputed, SettlementStatus::Settled) => true,
            (SettlementStatus::Disputed, SettlementStatus::Failed) => true,
            (SettlementStatus::Failed, SettlementStatus::Propagating) => true,
            _ => false,
        }
    }

    /// The status stored under `s`.
    pub fn from_str(s: &str) -> (r: Result<SettlementStatus, SyncEngineError>)
        ensures
            r is Ok <==> exists|status: SettlementStatus| status.name() == s@,
            r matches Ok(status) ==> status.name() == s@,
            r matches Err(e) ==> e matches SyncEngineError::InvalidStateTransition { from, to }
                && from@ == s@ && to@ == "<unknown>"@,
    {
        assert(SettlementStatus::Queued.name() == "queued"@);
        assert(SettlementStatus::Propagating.name() == "propagating"@);
        assert(SettlementStatus::Settled.name() == "settled"@);
        assert(SettlementStatus::Failed.name() == "failed"@);
        assert(SettlementStatus::Disputed.name() == "disputed"@);
        if str_eq(s, "queued") {
            Ok(SettlementStatus::Queued)
        } else if str_eq(s, "propagating") {
            Ok(SettlementStatus::Propagating)
        } else if str_eq(s, "settled") {
            Ok(SettlementStatus::Settled)
        } else if str_eq(s, "failed") {
            Ok(SettlementStatus::Failed)
        } else if str_eq(s, "disputed") {
            Ok(SettlementStatus::Disputed)
        } else {
            Err(
                SyncEngineError::InvalidStateTransition {
                    from: s.to_owned(),
                    to: "<unknown>".to_owned(),
                },
            )
        }
    }
}

impl std::str::FromStr for SettlementStatus {
    type Err = SyncEngineError;

    fn from_str(s: &str) -> (r: Result<Self, Self::Err>)
        ensures
            r is Ok <==> exists|status: SettlementStatus| status.name() == s@,
            r matches Ok(status) ==> status.name() == s@,
            r matches Err(e) ==> e matches SyncEngineError::InvalidStateTransition { from, to }
                && from@ == s@ && to@ == "<unknown>"@,
    {
        SettlementStatus::from_str(s)
    }
}

/// No two statuses are stored under the same name, so reading back the name a
/// status is stored under gives that status.
pub proof fn status_names_are_distinct(a: SettlementStatus, b: SettlementStatus)
    ensures
        a.name() == b.name() <==> a == b,
{
    reveal_strlit("queued");
    reveal_strlit("propagating");
    reveal_strlit("settled");
    reveal_strlit("failed");
    reveal_strlit("disputed");
    assert("queued"@[0] == 'q');
    assert("propagating"@[0] == 'p');
    assert("settled"@[0] == 's');
    assert("failed"@[0] == 'f');
    assert("disputed"@[0] == 'd');
}

/// Settled is terminal: nothing follows it.
pub proof fn settled_is_terminal(next: SettlementStatus)
    ensures
        !SettlementStatus::Settled.may_become(next),
{
}

/// No envelope is stuck: from every status but `Settled` an envelope can still
/// settle, in at most two steps.
pub proof fn every_open_status_can_settle(status: SettlementStatus)
    requires
        status !is Settled,
    ensures
        status.may_become(SettlementStatus::Settled) || exists|mid: SettlementStatus|
            status.may_become(mid) && mid.may_become(SettlementStatus::Settled),
{
    if status is Queued || status is Failed {
        assert(status.may_become(SettlementStatus::Propagating)
            && SettlementStatus::Propagating.may_become(SettlementStatus::Settled));
    }
}

/// A dispute arises only from an envelope that is propagating, and nothing goes
/// back to `Queued`.
pub proof fn disputes_come_from_propagation(from: SettlementStatus)
    ensures
        from.may_become(SettlementStatus::Disputed) <==> from is Propagating,
        !from.may_become(SettlementStatus::Queued),
{
}

/// In-memory tracker enforcing legal [`SettlementStatus`] transitions per
/// envelope.
#[derive(Debug)]
pub struct SettlementTracker {
    statuses: IdMap<SettlementStatus>,
}

impl View for SettlementTracker {
    type V = Map<[u8; 32], SettlementStatus>;

    closed spec fn view(&self) -> Map<[u8; 32], SettlementStatus> {
        self.statuses@
    }
}

impl SettlementTracker {
    /// Every envelope has one status.
    pub closed spec fn wf(self) -> bool {
        self.statuses.wf()
    }

    /// A tracker that tracks nothing.
    pub fn new() -> (tracker: Self)
        ensures
            tracker.wf(),
            tracker@ == Map::<[u8; 32], SettlementStatus>::empty(),
    {
        SettlementTracker { statuses: IdMap::new() }
    }

    /// Register a newly-queued envelope. Fresh entries always start `Queued`.
    pub fn track(&mut self, message_id: [u8; 32])
        requires
            old(self).wf(),
        ensures
            final(self).wf(),
            final(self)@ == old(self)@.insert(message_id, SettlementStatus::Queued),
    {
        self.statuses.insert(message_id, SettlementStatus::Queued);
    }

    /// Restore an envelope directly to `status`, bypassing transition
    /// validation. Used when rehydrating the tracker from durable storage on
    /// restart: the persisted status is ground truth.
    pub fn restore(&mut self, message_id: [u8; 32], status: SettlementStatus)
        requires
            old(self).wf(),
        ensures
            final(self).wf(),
            final(self)@ == old(self)@.insert(message_id, status),
    {
        self.statuses.insert(message_id, status);
    }

    /// The status of an envelope, if it is tracked.
    pub fn status(&self, message_id: &[u8; 32]) -> (r: Option<SettlementStatus>)
        requires
            self.wf(),
        ensures
            r == if self@.dom().contains(*message_id) {
                Some(self@[*message_id])
            } else {
                None
            },
    {
        match self.statuses.get(message_id) {
            Some(status) => Some(*status),
            None => None,
        }
    }

    /// Attempt to move `message_id` to `next`. Fails if no such envelope is
    /// tracked, or if the transition is not legal from its current status.
    pub fn transition(&mut self, message_id: [u8; 32], next: SettlementStatus) -> (r: Result<
        (),
        SyncEngineError,
    >)
        requires
            old(self).wf(),
        ensures
            final(self).wf(),
            r is Ok <==> old(self)@.dom().contains(message_id) && old(self)@[message_id].may_become(
                next,
            ),
            r is Ok ==> final(self)@ == old(self)@.insert(message_id, next),
            r is Err ==> final(self)@ == old(self)@,
            r matches Err(e) ==> if old(self)@.dom().contains(message_id) {
                e matches SyncEngineError::InvalidStateTransition { from, to } && from@ == old(
                    self,
                )@[message_id].name() && to@ == next.name()
            } else {
                e matches SyncEngineError::EnvelopeNotFound(id) && id@ == hex_of(message_id@)
            },
    {
        let current = match self.status(&message_id) {
            Some(current) => current,
            None => {
                return Err(SyncEngineError::EnvelopeNotFound(hex_string(message_id.as_slice())));
            },
        };
        if !current.can_transition_to(next) {
            return Err(
                SyncEngineError::InvalidStateTransition {
                    from: current.as_str().to_owned(),
                    to: next.as_str().to_owned(),
                },
            );
        }
        self.statuses.insert(message_id, next);
        Ok(())
    }

    /// All tracked envelopes with their status; none occurs twice.
    pub fn get_all_entries(&self) -> (r: Vec<([u8; 32], SettlementStatus)>)
        requires
            self.wf(),
        ensures
            keys_distinct(r@),
            map_of(r@) == self@,
    {
        let entries = self.statuses.entries();
        let mut r: Vec<([u8; 32], SettlementStatus)> = Vec::new();
        let mut i: usize = 0;
        while i < entries.len()
            invariant
                i <= entries.len(),
                r@ == entries@.subrange(0, i as int),
            decreases entries.len() - i,
        {
            r.push((entries[i].0, entries[i].1));
            i += 1;
            assert(r@ =~= entries@.subrange(0, i as int));
        }
        assert(r@ =~= entries@);
        r
    }
}

impl Default for SettlementTracker {
    fn default() -> (tracker: Self)
        ensures
            tracker.wf(),
            tracker@ == Map::<[u8; 32], SettlementStatus>::empty(),
    {
        Self::new()
    }
}

/// Where each status comes from: an envelope propagates after it was queued or has failed,
/// settles after it propagated or was disputed, fails from everywhere but `Settled` and
/// `Failed`, is disputed while it propagates, and is never queued again.
pub proof fn statuses_follow_one_another(from: SettlementStatus)
    ensures
        from.may_become(SettlementStatus::Propagating) <==> from == SettlementStatus::Queued || from
            == SettlementStatus::Failed,
        from.may_become(SettlementStatus::Settled) <==> from == SettlementStatus::Propagating
            || from == SettlementStatus::Disputed,
        from.may_become(SettlementStatus::Failed) <==> from == SettlementStatus::Queued || from
            == SettlementStatus::Propagating || from == SettlementStatus::Disputed,
        from.may_become(SettlementStatus::Disputed) <==> from == SettlementStatus::Propagating,
        !from.may_become(SettlementStatus::Queued),
{
}

} // verus!
