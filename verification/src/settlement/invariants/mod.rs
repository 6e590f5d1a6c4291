//! Runtime invariant checker for the settlement state machine.
use crate::bytes::bytes32_eq;
use crate::maps::keys_distinct;
use crate::settlement::tracker::{SettlementStatus, SettlementTracker};
use crate::text::{hex_of, hex_string};
use vstd::prelude::*;
use vstd::string::*;

verus! {

/// Invariant violations that can be detected by the checker.
#[derive(Debug, Clone, PartialEq, Eq)]
pub enum InvariantViolation {
    TerminalStateMutated {
        message_id: [u8; 32],
        current_status: SettlementStatus,
        attempted_status: SettlementStatus,
    },
    StuckState {
        message_id: [u8; 32],
        status: SettlementStatus,
        legal_transitions: Vec<SettlementStatus>,
    },
    UnknownState { message_id: [u8; 32], status: SettlementStatus },
    DuplicateEntry { message_id: [u8; 32] },
    UnreachableState {
        message_id: [u8; 32],
        status: SettlementStatus,
        transition_history: Vec<SettlementStatus>,
    },
}

/// The name of a status's variant.
pub open spec fn variant_name(status: SettlementStatus) -> Seq<char> {
    match status {
        SettlementStatus::Queued => "Queued"@,
        SettlementStatus::Propagating => "Propagating"@,
        SettlementStatus::Settled => "Settled"@,
        SettlementStatus::Failed => "Failed"@,
        SettlementStatus::Disputed => "Disputed"@,
    }
}

fn variant_str(status: SettlementStatus) -> (s: &'static str)
    ensures
        s@ == variant_name(status),
{
    match status {
        SettlementStatus::Queued => "Queued",
        SettlementStatus::Propagating => "Propagating",
        SettlementStatus::Settled => "Settled",
        SettlementStatus::Failed => "Failed",
        SettlementStatus::Disputed => "Disputed",
    }
}

/// The variant names of a list of statuses, separated by commas.
pub open spec fn joined_names(list: Seq<SettlementStatus>) -> Seq<char>
    decreases list.len(),
{
    if list.len() == 0 {
        Seq::empty()
    } else if list.len() == 1 {
        variant_name(list[0])
    } else {
        joined_names(list.drop_last()) + ", "@ + variant_name(list.last())
    }
}

/// A list of statuses between square brackets.
pub open spec fn list_text(list: Seq<SettlementStatus>) -> Seq<char> {
    "["@ + joined_names(list) + "]"@
}

fn list_string(list: &Vec<SettlementStatus>) -> (s: String)
    ensures
        s@ == list_text(list@),
{
    let mut names = String::new();
    let mut i: usize = 0;
    while i < list.len()
        invariant
            i <= list.len(),
            names@ == joined_names(list@.subrange(0, i as int)),
        decreases list.len() - i,
    {
        let ghost upto = list@.subrange(0, i + 1);
        assert(upto.drop_last() =~= list@.subrange(0, i as int));
        if i > 0 {
            names.append(", ");
        }
        names.append(variant_str(list[i]));
        i += 1;
        assert(names@ =~= joined_names(upto));
    }
    assert(list@.subrange(0, i as int) =~= list@);
    let mut s: String = "[".to_owned();
    s.append(names.as_str());
    s.append("]");
    s
}

impl InvariantViolation {
    /// The message of each violation.
    pub open spec fn message(self) -> Seq<char> {
        match self {
            InvariantViolation::TerminalStateMutated {
                message_id,
                current_status,
                attempted_status,
            } => "Terminal state mutation: message "@ + hex_of(message_id@) + " is "@
                + current_status.name() + " but attempted to transition to "@
                + attempted_status.name(),
            InvariantViolation::StuckState { message_id, status, legal_transitions } =>
            "Stuck state: message "@ + hex_of(message_id@) + " is "@ + status.name()
                + " but has no legal outgoing transitions (legal: "@ + list_text(
                legal_transitions@,
            ) + ")"@,
            InvariantViolation::UnknownState { message_id, status } => "Unknown state: message "@
                + hex_of(message_id@) + " has unknown status "@ + variant_name(status),
            InvariantViolation::DuplicateEntry { message_id } => "Duplicate entry: message "@
                + hex_of(message_id@) + " appears multiple times"@,
            InvariantViolation::UnreachableState { message_id, status, transition_history } =>
            "Unreachable state: message "@ + hex_of(message_id@) + " is "@ + status.name()
                + " but no legal path exists (history: "@ + list_text(transition_history@) + ")"@,
        }
    }

    /// The message of this violation.
    pub fn to_string(&self) -> (s: String)
        ensures
            s@ == self.message(),
    {
        match self {
            InvariantViolation::TerminalStateMutated {
                message_id,
                current_status,
                attempted_status,
            } => {
                let mut s: String = "Terminal state mutation: message ".to_owned();
                s.append(hex_string(message_id.as_slice()).as_str());
                s.append(" is ");
                s.append(current_status.as_str());
                s.append(" but attempted to transition to ");
                s.append(attempted_status.as_str());
                s
            },
            InvariantViolation::StuckState { message_id, status, legal_transitions } => {
                let mut s: String = "Stuck state: message ".to_owned();
                s.append(hex_string(message_id.as_slice()).as_str());
                s.append(" is ");
                s.append(status.as_str());
                s.append(" but has no legal outgoing transitions (legal: ");
                s.append(list_string(legal_transitions).as_str());
                s.append(")");
                s
            },
            InvariantViolation::UnknownState { message_id, status } => {
                let mut s: String = "Unknown state: message ".to_owned();
                s.append(hex_string(message_id.as_slice()).as_str());
                s.append(" has unknown status ");
                s.append(variant_str(*status));
                s
            },
            InvariantViolation::DuplicateEntry { message_id } => {
                let mut s: String = "Duplicate entry: message ".to_owned();
                s.append(hex_string(message_id.as_slice()).as_str());
                s.append(" appears multiple times");
                s
            },
            InvariantViolation::UnreachableState { message_id, status, transition_history } => {
                let mut s: String = "Unreachable state: message ".to_owned();
                s.append(hex_string(message_id.as_slice()).as_str());
                s.append(" is ");
                s.append(status.as_str());
                s.append(" but no legal path exists (history: ");
                s.append(list_string(transition_history).as_str());
                s.append(")");
                s
            },
        }
    }
}

pub type InvariantCheckResult = Result<(), InvariantViolation>;

/// Check the settlement invariants over a list of entries: every envelope
/// occurs once, `Settled` has no way out, every other status has one, and
/// `Disputed` follows `Propagating`. Only the first can fail of a list of known
/// statuses; the first envelope that occurs again is reported.
pub fn check_entries(entries: &[([u8; 32], SettlementStatus)]) -> (r: InvariantCheckResult)
    ensures
        r is Ok <==> keys_distinct(entries@),
        r matches Err(v) ==> v matches InvariantViolation::DuplicateEntry { message_id } && exists|
            i: int,
            j: int,
        |
            0 <= i < j < entries@.len() && entries@[i].0 == message_id && entries@[j].0 == message_id
                && keys_distinct(entries@.subrange(0, j)),
{
    let mut i: usize = 0;
    while i < entries.len()
        invariant
            i <= entries.len(),
            keys_distinct(entries@.subrange(0, i as int)),
        decreases entries.len() - i,
    {
        let message_id = entries[i].0;
        let status = entries[i].1;
        let mut k: usize = 0;
        while k < i
            invariant
                k <= i < entries.len(),
                message_id == entries@[i as int].0,
                keys_distinct(entries@.subrange(0, i as int)),
                forall|m: int| 0 <= m < k ==> (#[trigger] entries@[m]).0 != message_id,
            decreases i - k,
        {
            if bytes32_eq(&entries[k].0, &message_id) {
                assert(entries@[k as int].0 == entries@[i as int].0);
                return Err(InvariantViolation::DuplicateEntry { message_id });
            }
            k += 1;
        }
        let ghost upto = entries@.subrange(0, i + 1);
        let ghost before = entries@.subrange(0, i as int);
        assert(keys_distinct(upto)) by {
            assert forall|a: int, b: int| 0 <= a < b < upto.len() implies (#[trigger] upto[a]).0 != (
            #[trigger] upto[b]).0 by {
                assert(upto[a] == entries@[a]);
                if b < i {
                    assert(before[a] == upto[a] && before[b] == upto[b]);
                }
            }
        }
        i += 1;
        // Terminal state immutability.
        let legal = get_legal_transitions(status);
        if status == SettlementStatus::Settled {
            if legal.len() > 0 {
                return Err(
                    InvariantViolation::TerminalStateMutated {
                        message_id,
                        current_status: status,
                        attempted_status: legal[0],
                    },
                );
            }
            continue ;
        }
        // No stuck non-terminal states.
        if legal.len() == 0 {
            return Err(
                InvariantViolation::StuckState {
                    message_id,
                    status,
                    legal_transitions: Vec::new(),
                },
            );
        }
        // Disputed is only reachable from Propagating.
        if status == SettlementStatus::Disputed && !SettlementStatus::Propagating.can_transition_to(
            status,
        ) {
            return Err(
                InvariantViolation::UnreachableState {
                    message_id,
                    status,
                    transition_history: Vec::new(),
                },
            );
        }
    }
    assert(entries@.subrange(0, i as int) =~= entries@);
    Ok(())
}

/// Check the settlement invariants of a tracker. A tracker holds one status per
/// envelope, so there is nothing to report.
pub fn check_invariants(tracker: &SettlementTracker) -> (r: InvariantCheckResult)
    requires
        tracker.wf(),
    ensures
        r is Ok,
{
    let entries = tracker.get_all_entries();
    check_entries(entries.as_slice())
}

/// The statuses that may follow `status`.
pub open spec fn legal_transitions(status: SettlementStatus) -> Seq<SettlementStatus> {
    match status {
        SettlementStatus::Queued => seq![SettlementStatus::Propagating, SettlementStatus::Failed],
        SettlementStatus::Propagating => seq![
            SettlementStatus::Settled,
            SettlementStatus::Failed,
            SettlementStatus::Disputed,
        ],
        SettlementStatus::Disputed => seq![SettlementStatus::Settled, SettlementStatus::Failed],
        SettlementStatus::Failed => seq![SettlementStatus::Propagating],
        SettlementStatus::Settled => Seq::empty(),
    }
}

/// The statuses that may follow `status`.
pub fn get_legal_transitions(status: SettlementStatus) -> (r: Vec<SettlementStatus>)
    ensures
        r@ == legal_transitions(status),
{
    match status {
        SettlementStatus::Queued => vec![SettlementStatus::Propagating, SettlementStatus::Failed],
        SettlementStatus::Propagating => vec![
            SettlementStatus::Settled,
            SettlementStatus::Failed,
            SettlementStatus::Disputed,
        ],
        SettlementStatus::Disputed => vec![SettlementStatus::Settled, SettlementStatus::Failed],
        SettlementStatus::Failed => vec![SettlementStatus::Propagating],
        SettlementStatus::Settled => Vec::new(),
    }
}

/// The list of legal transitions and the transition check agree.
pub proof fn legal_transitions_agree(from: SettlementStatus, to: SettlementStatus)
    ensures
        legal_transitions(from).contains(to) <==> from.may_become(to),
{
    let list = legal_transitions(from);
    if from.may_become(to) {
        let at: int = match (from, to) {
            (SettlementStatus::Queued, SettlementStatus::Failed) => 1,
            (SettlementStatus::Propagating, SettlementStatus::Failed) => 1,
            (SettlementStatus::Propagating, SettlementStatus::Disputed) => 2,
            (SettlementStatus::Disputed, SettlementStatus::Failed) => 1,
            _ => 0,
        };
        assert(list[at] == to);
    }
}

/// The legal transitions of a status are listed once each, and `Settled` has none.
pub proof fn legal_transitions_are_listed_once(status: SettlementStatus)
    ensures
        legal_transitions(status).no_duplicates(),
        legal_transitions(status).len() == 0 <==> status is Settled,
{
}

/// A list of statuses is written between brackets, in its order, with commas between the names.
pub proof fn lists_are_written_in_order(list: Seq<SettlementStatus>, status: SettlementStatus)
    ensures
        joined_names(Seq::<SettlementStatus>::empty()).len() == 0,
        joined_names(seq![status]) == variant_name(status),
        list.len() > 0 ==> joined_names(list.push(status)) == joined_names(list) + ", "@
            + variant_name(status),
        list_text(list) == "["@ + joined_names(list) + "]"@,
{
    assert(list.push(status).drop_last() =~= list);
}

} // verus!
