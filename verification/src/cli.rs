//! The commands of `sync-engine-cli`, a read-only inspector for the engine's database,
//! and which rows they select.
use crate::queue::priority::TxPriority;
use crate::storage::QueuedEnvelopeRecord;
use crate::text::str_eq;
use vstd::prelude::*;

verus! {

/// A parsed command line.
#[derive(Debug)]
pub struct Cli {
    /// Path to the database file to inspect.
    pub db_path: String,
    /// Emit machine-readable JSON instead of a human-readable table.
    pub json: bool,
    pub command: Command,
}

/// What to inspect.
#[derive(Debug)]
pub enum Command {
    /// Inspect the outbound envelope queue.
    Queue { action: QueueAction },
    /// Inspect settlement status and history for a queued envelope.
    Settlement { action: SettlementAction },
    /// Inspect detected double-spend conflicts.
    Conflicts { action: ConflictsAction },
    /// Inspect the database as a whole.
    Db { action: DbAction },
}

/// What to show of the queue.
#[derive(Debug)]
pub enum QueueAction {
    /// List queued envelopes, optionally filtered by account and/or priority.
    List { account: Option<String>, priority: Option<PriorityArg> },
}

/// What to show of an envelope.
#[derive(Debug)]
pub enum SettlementAction {
    /// Show current settlement status and full history for one message id
    /// (hex-encoded).
    Status { message_id: String },
}

/// What to show of the conflicts.
#[derive(Debug)]
pub enum ConflictsAction {
    /// List recorded double-spend conflicts.
    List { unresolved_only: bool },
}

/// What to show of the database.
#[derive(Debug)]
pub enum DbAction {
    /// Show row counts per table and queue age extremes.
    Summary,
}

/// A priority on the command line.
#[derive(Copy, Clone, Debug)]
pub enum PriorityArg {
    Low,
    Normal,
    Emergency,
}

impl PriorityArg {
    /// The priority that the argument names.
    pub open spec fn named(self) -> TxPriority {
        match self {
            PriorityArg::Low => TxPriority::Low,
            PriorityArg::Normal => TxPriority::Normal,
            PriorityArg::Emergency => TxPriority::Emergency,
        }
    }
}

impl From<PriorityArg> for TxPriority {
    fn from(p: PriorityArg) -> Self {
        match p {
            PriorityArg::Low => TxPriority::Low,
            PriorityArg::Normal => TxPriority::Normal,
            PriorityArg::Emergency => TxPriority::Emergency,
        }
    }
}

impl vstd::std_specs::convert::FromSpecImpl<PriorityArg> for TxPriority {
    open spec fn obeys_from_spec() -> bool {
        true
    }

    open spec fn from_spec(p: PriorityArg) -> TxPriority {
        p.named()
    }
}

impl QueueAction {
    /// A listing shows the envelopes of the account and at the priority, where they are
    /// given.
    pub open spec fn shows(self, record: QueuedEnvelopeRecord) -> bool {
        match self {
            QueueAction::List { account, priority } => {
                &&& account matches Some(a) ==> a@ == record.source_account@
                &&& priority matches Some(p) ==> p.named() == record.priority
            },
        }
    }

    /// Whether a listing shows a queued envelope.
    pub fn selects(&self, record: &QueuedEnvelopeRecord) -> (r: bool)
        ensures
            r == self.shows(*record),
    {
        match self {
            QueueAction::List { account, priority } => {
                let account_ok = match account {
                    Some(a) => str_eq(a.as_str(), record.source_account.as_str()),
                    None => true,
                };
                let priority_ok = match priority {
                    Some(p) => TxPriority::from(*p) == record.priority,
                    None => true,
                };
                account_ok && priority_ok
            },
        }
    }
}

/// A listing without filters shows every envelope; one with a filter shows those that it
/// names, and two filters show what each of them alone would show.
pub proof fn listings_show_what_is_asked_for(
    record: QueuedEnvelopeRecord,
    account: String,
    priority: PriorityArg,
)
    ensures
        (QueueAction::List { account: None, priority: None }).shows(record),
        (QueueAction::List { account: Some(account), priority: None }).shows(record)
            <==> record.source_account@ == account@,
        (QueueAction::List { account: None, priority: Some(priority) }).shows(record) <==> (
        record.priority == TxPriority::Low <==> priority is Low) && (record.priority
            == TxPriority::Normal <==> priority is Normal) && (record.priority
            == TxPriority::Emergency <==> priority is Emergency),
        (QueueAction::List { account: Some(account), priority: Some(priority) }).shows(record) <==> (
        QueueAction::List { account: Some(account), priority: None }).shows(record) && (
        QueueAction::List { account: None, priority: Some(priority) }).shows(record),
{
}

} // verus!
