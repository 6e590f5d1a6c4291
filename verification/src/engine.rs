//! `SyncEngine` - the restart-safe driver that wires together the queue, sequence
//! reservation, offline signing and settlement tracking into a single state machine.
//!
//! ## Crash-consistency contract
//!
//! Devices stay offline for long stretches and can be killed at any instant. Durable
//! storage is the single source of truth: all in-memory state is rehydrated from it by
//! [`SyncEngine::open`], which reconstructs the state that a fully-completed previous
//! call would have produced. A crash mid-call never loses a queued payment, reuses a
//! sequence number, or re-dispatches an envelope that was already handed to the mesh.
//!
//! The engine performs no storage operations itself. Every operation that must be
//! durable has two steps, and its caller writes to storage between them:
//!
//! - **payments**: [`SyncEngine::prepare_payment`] reserves the sequence and signs. The
//!   caller writes reservation, envelope and the status `Queued` in one atomic
//!   transaction, and hands the outcome to [`SyncEngine::commit_payment`], which only
//!   then touches the queue and the tracker.
//! - **dispatch**: [`SyncEngine::next_to_dispatch`] names the envelope. The caller
//!   writes its status `Propagating`, and only after that does
//!   [`SyncEngine::commit_dispatch`] hand the envelope out.
//! - **settlement**: [`SyncEngine::check_settlement`] validates the transition. The
//!   caller writes the new status, and [`SyncEngine::mark_settlement`] advances the
//!   tracker and takes a payment that was still queued out of the queue.
use crate::clock::Clock;
use crate::envelope::builder::{built, MessageStamp, OfflineEnvelopeBuilder};
use crate::envelope::pq::{HybridSignedEnvelope, SigningPolicy};
use crate::envelope::secure_signing::KeySigner;
use crate::errors::SyncEngineError;
use crate::message::TransactionEnvelope;
use crate::queue::priority::{
    is_next, without_id, OutboundTxQueue, QueueView, QueuedTx, TxPriority,
};
use crate::queue::sequence::{value_of, SequenceReservationManager, SequenceView};
use crate::settlement::tracker::{SettlementStatus, SettlementTracker};
use crate::storage::QueuedEnvelopeRecord;
use crate::text::{hex_of, hex_string};
use vstd::prelude::*;

verus! {

/// A payment as durable storage lists it: the queued envelope and its settlement
/// status, if one was written.
#[derive(Debug)]
pub struct StoredPayment {
    pub record: QueuedEnvelopeRecord,
    pub status: Option<SettlementStatus>,
}

impl StoredPayment {
    /// The settlement status; a payment without one was only queued.
    pub open spec fn effective_status(self) -> SettlementStatus {
        match self.status {
            Some(status) => status,
            None => SettlementStatus::Queued,
        }
    }

    /// The payment as the queue holds it.
    pub open spec fn item(self) -> QueuedTx {
        QueuedTx {
            priority: self.record.priority,
            enqueued_at: self.record.enqueued_at,
            envelope: self.record.envelope,
        }
    }
}

/// The payments that are still to be dispatched: anything already handed to the mesh
/// is left out.
pub open spec fn dispatchable(rows: Seq<StoredPayment>) -> Seq<QueuedTx>
    decreases rows.len(),
{
    if rows.len() == 0 {
        Seq::empty()
    } else if rows.last().effective_status() is Queued {
        dispatchable(rows.drop_last()).push(rows.last().item())
    } else {
        dispatchable(rows.drop_last())
    }
}

/// The statuses of stored payments.
pub open spec fn stored_statuses(rows: Seq<StoredPayment>) -> Map<[u8; 32], SettlementStatus>
    decreases rows.len(),
{
    if rows.len() == 0 {
        Map::empty()
    } else {
        stored_statuses(rows.drop_last()).insert(
            rows.last().record.envelope.message_id,
            rows.last().effective_status(),
        )
    }
}

/// The reservations with every stored one seeded.
pub open spec fn seeded_with(stored: Seq<(String, i64)>) -> SequenceView
    decreases stored.len(),
{
    if stored.len() == 0 {
        SequenceView { baseline: Map::empty(), reserved: Map::empty() }
    } else {
        seeded_with(stored.drop_last()).seeded(stored.last().0@, stored.last().1)
    }
}

/// Restart-safe driver combining the queue, sequence reservations and settlement
/// tracker.
pub struct SyncEngine<C> {
    queue: OutboundTxQueue<C>,
    sequences: SequenceReservationManager,
    settlement: SettlementTracker,
}

/// The state of an engine.
#[verifier::ext_equal]
pub struct EngineView {
    /// The payments to be dispatched, in the order in which they were queued.
    pub items: Seq<QueuedTx>,
    pub sequences: SequenceView,
    pub settlement: Map<[u8; 32], SettlementStatus>,
}

impl<C> View for SyncEngine<C> {
    type V = EngineView;

    closed spec fn view(&self) -> EngineView {
        EngineView {
            items: self.queue@.items,
            sequences: self.sequences@,
            settlement: self.settlement@,
        }
    }
}

impl SequenceView {
    /// With a baseline for an account: an account that was never seeded starts at zero.
    pub open spec fn with_baseline(self, account: Seq<char>) -> SequenceView {
        if self.reserved.dom().contains(account) {
            self
        } else {
            self.seeded(account, 0)
        }
    }

    /// With the last reservation of an account rolled back, if it is the given one.
    pub open spec fn rolled_back(self, account: Seq<char>, sequence: i64) -> SequenceView {
        if value_of(self.reserved, account) == Some(sequence) {
            self.with_reserved(account, (sequence - 1) as i64)
        } else {
            self
        }
    }
}

impl EngineView {
    /// With a payment queued.
    pub open spec fn with_payment(self, item: QueuedTx) -> EngineView {
        EngineView {
            items: self.items.push(item),
            settlement: self.settlement.insert(item.envelope.message_id, SettlementStatus::Queued),
            ..self
        }
    }

    /// Whether the envelope is tracked and may move to the status.
    pub open spec fn allows(self, id: [u8; 32], next: SettlementStatus) -> bool {
        self.settlement.dom().contains(id) && self.settlement[id].may_become(next)
    }

    /// With a status tracked, if the change is legal.
    pub open spec fn with_tracked(self, id: [u8; 32], next: SettlementStatus) -> EngineView {
        if self.allows(id, next) {
            EngineView { settlement: self.settlement.insert(id, next), ..self }
        } else {
            self
        }
    }

    /// With a status changed, if the change is legal. No change leads back to `Queued`, so
    /// the payment is not to be dispatched any more.
    pub open spec fn with_status(self, id: [u8; 32], next: SettlementStatus) -> EngineView {
        if self.allows(id, next) {
            EngineView { items: without_id(self.items, id), ..self.with_tracked(id, next) }
        } else {
            self
        }
    }

    /// With a payment handed out.
    pub open spec fn without_item(self, i: int) -> EngineView {
        EngineView { items: self.items.remove(i), ..self }
    }
}

/// The outcome of asking for a status change: the envelope must be tracked, and the
/// change legal.
pub open spec fn settlement_verdict(
    r: Result<(), SyncEngineError>,
    statuses: Map<[u8; 32], SettlementStatus>,
    id: [u8; 32],
    next: SettlementStatus,
) -> bool {
    match value_of(statuses, id) {
        None => r matches Err(SyncEngineError::EnvelopeNotFound(text)) && text@ == hex_of(id@),
        Some(current) => if current.may_become(next) {
            r is Ok
        } else {
            r matches Err(SyncEngineError::InvalidStateTransition { from, to }) && from@
                == current.name() && to@ == next.name()
        },
    }
}

impl<C: Clock> SyncEngine<C> {
    /// The parts are well formed, and the queue has no spending guard.
    pub closed spec fn wf(self) -> bool {
        self.queue@.guard is None && self.sequences.wf() && self.settlement.wf()
    }

    /// Rehydrate all in-memory state from what durable storage holds: the last reserved
    /// sequence of every known account, and every stored payment in the order in which
    /// they were queued. Only payments that are still `Queued` are dispatchable.
    pub fn open(
        reservations: &Vec<(String, i64)>,
        payments: Vec<StoredPayment>,
        clock: C,
    ) -> (engine: Self)
        ensures
            engine.wf(),
            engine@ == (EngineView {
                items: dispatchable(payments@),
                sequences: seeded_with(reservations@),
                settlement: stored_statuses(payments@),
            }),
    {
        let mut sequences = SequenceReservationManager::new();
        let mut i: usize = 0;
        while i < reservations.len()
            invariant
                i <= reservations.len(),
                sequences.wf(),
                sequences@ == seeded_with(reservations@.subrange(0, i as int)),
            decreases reservations.len() - i,
        {
            assert(reservations@.subrange(0, i + 1).drop_last() =~= reservations@.subrange(
                0,
                i as int,
            ));
            sequences.seed(reservations[i].0.as_str(), reservations[i].1);
            i += 1;
        }
        assert(reservations@.subrange(0, i as int) =~= reservations@);
        let ghost rows = payments@;
        let mut queue = OutboundTxQueue::new(clock);
        let mut settlement = SettlementTracker::new();
        for payment in iter: payments
            invariant
                iter.seq() == rows,
                queue@ == (QueueView {
                    items: dispatchable(rows.subrange(0, iter.index() as int)),
                    guard: None,
                }),
                settlement.wf(),
                settlement@ == stored_statuses(rows.subrange(0, iter.index() as int)),
        {
            proof {
                let upto = rows.subrange(0, iter.index() + 1);
                assert(upto.drop_last() =~= rows.subrange(0, iter.index() as int));
                assert(upto.last() == payment);
            }
            let status = match payment.status {
                Some(status) => status,
                None => SettlementStatus::Queued,
            };
            let record = payment.record;
            // The tracker resumes at the persisted status.
            settlement.restore(record.envelope.message_id, status);
            // Anything already handed to the mesh is never dispatched a second time.
            if status == SettlementStatus::Queued {
                queue.restore_at(record.envelope, record.priority, record.enqueued_at);
            }
        }
        assert(rows.subrange(0, rows.len() as int) =~= rows);
        SyncEngine { queue, sequences, settlement }
    }

    /// Seed (or re-seed) an account's sequence baseline from its last-known on-chain
    /// sequence number. Accounts left unseeded are seeded at `0` by
    /// [`SyncEngine::prepare_payment`].
    pub fn seed_account(&mut self, source_account: &str, current_chain_sequence: i64)
        requires
            old(self).wf(),
        ensures
            final(self).wf(),
            final(self)@ == (EngineView {
                sequences: old(self)@.sequences.seeded(source_account@, current_chain_sequence),
                ..old(self)@
            }),
    {
        self.sequences.seed(source_account, current_chain_sequence);
    }

    /// The last-reserved sequence number of an account. `None` if the account has never
    /// been seeded or queued.
    pub fn last_reserved_sequence(&self, source_account: &str) -> (r: Option<i64>)
        requires
            self.wf(),
        ensures
            r == value_of(self@.sequences.reserved, source_account@),
    {
        self.sequences.last_reserved(source_account)
    }

    /// The current settlement status of a queued envelope. `None` if it is not tracked.
    pub fn settlement_status(&self, message_id: [u8; 32]) -> (r: Option<SettlementStatus>)
        requires
            self.wf(),
        ensures
            r == value_of(self@.settlement, message_id),
    {
        self.settlement.status(&message_id)
    }

    /// Reserve a sequence number and sign a new payment. Neither the queue nor the
    /// tracker changes until the payment is stored: see [`SyncEngine::commit_payment`].
    pub fn prepare_payment<S: KeySigner>(
        &mut self,
        source_account: &str,
        signer: &S,
        tx_xdr: String,
        ttl_hops: u8,
        stamp: &MessageStamp,
    ) -> (r: Result<(HybridSignedEnvelope, i64), SyncEngineError>)
        requires
            old(self).wf(),
            value_of(old(self)@.sequences.reserved, source_account@) != Some(i64::MAX),
        ensures
            final(self).wf(),
            final(self)@.items == old(self)@.items,
            final(self)@.settlement == old(self)@.settlement,
            built(
                old(self)@.sequences.with_baseline(source_account@),
                final(self)@.sequences,
                r,
                source_account@,
                *signer,
                SigningPolicy::ClassicalOnly,
                tx_xdr@,
                ttl_hops,
                *stamp,
            ),
    {
        if self.sequences.last_reserved(source_account).is_none() {
            self.sequences.seed(source_account, 0);
        }
        OfflineEnvelopeBuilder::build_and_sign(
            &mut self.sequences,
            source_account,
            signer,
            &SigningPolicy::ClassicalOnly,
            tx_xdr,
            ttl_hops,
            stamp,
        )
    }

    /// Finish queuing a payment that was prepared, given how storing it went. A payment
    /// that was not stored gives its sequence number back, so that a retry does not skip
    /// one; a stored one enters the queue and the tracker.
    pub fn commit_payment(
        &mut self,
        source_account: &str,
        sequence: i64,
        envelope: TransactionEnvelope,
        priority: TxPriority,
        enqueued_at: u64,
        stored: Result<(), SyncEngineError>,
    ) -> (r: Result<TransactionEnvelope, SyncEngineError>)
        requires
            old(self).wf(),
            sequence > i64::MIN,
        ensures
            final(self).wf(),
            match stored {
                Err(e) => {
                    &&& r == Err::<TransactionEnvelope, SyncEngineError>(e)
                    &&& final(self)@ == (EngineView {
                        sequences: old(self)@.sequences.rolled_back(source_account@, sequence),
                        ..old(self)@
                    })
                },
                Ok(()) => {
                    &&& r == Ok::<TransactionEnvelope, SyncEngineError>(envelope)
                    &&& final(self)@ == old(self)@.with_payment(
                        (QueuedTx { priority, enqueued_at, envelope }),
                    )
                },
            },
    {
        if let Err(e) = stored {
            let _ = self.sequences.release(source_account, sequence);
            return Err(e);
        }
        let copy = envelope.copy();
        if let Err(e) = self.queue.push_at(copy, priority, enqueued_at) {
            return Err(e);
        }
        self.settlement.track(envelope.message_id);
        Ok(envelope)
    }

    /// The id of the envelope to hand to the mesh next. It stays queued until its
    /// dispatch is recorded: see [`SyncEngine::commit_dispatch`].
    pub fn next_to_dispatch(&self) -> (r: Option<[u8; 32]>)
        requires
            self.wf(),
        ensures
            r is None <==> self@.items.len() == 0,
            r matches Some(id) ==> exists|i: int| #[trigger]
                is_next(self@.items, i) && self@.items[i].envelope.message_id == id,
    {
        match self.queue.peek() {
            Some(envelope) => Some(envelope.message_id),
            None => None,
        }
    }

    /// Hand out the next envelope, given whether its status `Propagating` was recorded.
    /// An envelope whose dispatch was not recorded stays queued.
    pub fn commit_dispatch(&mut self, recorded: bool) -> (r: Option<TransactionEnvelope>)
        requires
            old(self).wf(),
        ensures
            final(self).wf(),
            r is None <==> !recorded || old(self)@.items.len() == 0,
            r is None ==> final(self)@ == old(self)@,
            r matches Some(envelope) ==> exists|i: int| #[trigger]
                is_next(old(self)@.items, i) && old(self)@.items[i].envelope == envelope
                    && final(self)@ == old(self)@.without_item(i).with_tracked(
                    envelope.message_id,
                    SettlementStatus::Propagating,
                ),
    {
        if !recorded {
            return None;
        }
        let ghost before = self@;
        let envelope = match self.queue.pop() {
            Some(envelope) => envelope,
            None => {
                assert(self@ =~= before);
                return None;
            },
        };
        let _ = self.settlement.transition(envelope.message_id, SettlementStatus::Propagating);
        proof {
            let i = choose|i: int| #[trigger]
                is_next(before.items, i) && before.items[i].envelope == envelope && self@.items
                    == before.items.remove(i);
            assert(is_next(before.items, i));
            assert(self@ =~= before.without_item(i).with_tracked(
                envelope.message_id,
                SettlementStatus::Propagating,
            ));
        }
        Some(envelope)
    }

    /// Whether an envelope may move to a status, before anything is stored or changed.
    pub fn check_settlement(&self, message_id: [u8; 32], next: SettlementStatus) -> (r: Result<
        (),
        SyncEngineError,
    >)
        requires
            self.wf(),
        ensures
            settlement_verdict(r, self@.settlement, message_id, next),
    {
        let current = match self.settlement.status(&message_id) {
            Some(current) => current,
            None => {
                return Err(SyncEngineError::EnvelopeNotFound(hex_string(message_id.as_slice())));
            },
        };
        if !current.can_transition_to(next) {
            return Err(
                SyncEngineError::InvalidStateTransition {
                    from: current.as_str().to_owned(),
                    to: next.as_str().to_owned(),
                },
            );
        }
        Ok(())
    }

    /// Apply a settlement state transition. It succeeds where
    /// [`SyncEngine::check_settlement`] allows it, and changes nothing elsewhere. A payment
    /// that was still queued leaves the queue: the queue holds `Queued` payments only.
    pub fn mark_settlement(&mut self, message_id: [u8; 32], next: SettlementStatus) -> (r: Result<
        (),
        SyncEngineError,
    >)
        requires
            old(self).wf(),
        ensures
            final(self).wf(),
            settlement_verdict(r, old(self)@.settlement, message_id, next),
            final(self)@ == old(self)@.with_status(message_id, next),
    {
        let ghost before = self@;
        let r = self.settlement.transition(message_id, next);
        if r.is_ok() {
            self.queue.withdraw(&message_id);
        }
        assert(self@ =~= before.with_status(message_id, next));
        r
    }
}

// ---------------------------------------------------------------------------
// Crash consistency
// ---------------------------------------------------------------------------

/// What durable storage holds.
#[verifier::ext_equal]
pub struct DurableView {
    /// The last reserved sequence of every account.
    pub reservations: Map<Seq<char>, i64>,
    /// The queued envelopes, in the order in which they were stored.
    pub records: Seq<QueuedTx>,
    pub statuses: Map<[u8; 32], SettlementStatus>,
}

/// The status of an envelope in storage; one without a status was only queued.
pub open spec fn status_in(
    statuses: Map<[u8; 32], SettlementStatus>,
    id: [u8; 32],
) -> SettlementStatus {
    match value_of(statuses, id) {
        Some(status) => status,
        None => SettlementStatus::Queued,
    }
}

/// The last reserved sequence of an account; one without a reservation starts at zero.
pub open spec fn reserved_in(reservations: Map<Seq<char>, i64>, account: Seq<char>) -> i64 {
    match value_of(reservations, account) {
        Some(sequence) => sequence,
        None => 0,
    }
}

/// The records that are still to be dispatched.
pub open spec fn still_queued(
    records: Seq<QueuedTx>,
    statuses: Map<[u8; 32], SettlementStatus>,
) -> Seq<QueuedTx>
    decreases records.len(),
{
    if records.len() == 0 {
        Seq::empty()
    } else if status_in(statuses, records.last().envelope.message_id) is Queued {
        still_queued(records.drop_last(), statuses).push(records.last())
    } else {
        still_queued(records.drop_last(), statuses)
    }
}

/// A record with this id is stored at `i`.
pub open spec fn id_at(records: Seq<QueuedTx>, id: [u8; 32], i: int) -> bool {
    0 <= i < records.len() && records[i].envelope.message_id == id
}

/// No two records have the same id.
pub open spec fn ids_distinct(records: Seq<QueuedTx>) -> bool {
    forall|i: int, j: int|
        0 <= i < j < records.len() ==> (#[trigger] records[i]).envelope.message_id != (
        #[trigger] records[j]).envelope.message_id
}

impl DurableView {
    /// A payment is written: reservation, record and status in one transaction.
    pub open spec fn with_payment(
        self,
        account: Seq<char>,
        sequence: i64,
        item: QueuedTx,
    ) -> DurableView {
        DurableView {
            reservations: self.reservations.insert(account, sequence),
            records: self.records.push(item),
            statuses: self.statuses.insert(item.envelope.message_id, SettlementStatus::Queued),
        }
    }

    /// A status is written.
    pub open spec fn with_status(self, id: [u8; 32], status: SettlementStatus) -> DurableView {
        DurableView { statuses: self.statuses.insert(id, status), ..self }
    }

    /// A reservation is written.
    pub open spec fn with_reservation(self, account: Seq<char>, sequence: i64) -> DurableView {
        DurableView { reservations: self.reservations.insert(account, sequence), ..self }
    }

    /// Storage lists these reservations and payments.
    pub open spec fn lists(
        self,
        reservations: Seq<(String, i64)>,
        payments: Seq<StoredPayment>,
    ) -> bool {
        &&& seeded_with(reservations).reserved == self.reservations
        &&& payments.len() == self.records.len()
        &&& forall|i: int|
            0 <= i < payments.len() ==> (#[trigger] payments[i]).item() == self.records[i]
                && payments[i].status == value_of(
                self.statuses,
                self.records[i].envelope.message_id,
            )
    }
}

impl EngineView {
    /// The engine and storage agree: on what is still to be dispatched and in which
    /// order, on the status of every envelope, and on every account's last reserved
    /// sequence.
    pub open spec fn agrees_with(self, durable: DurableView) -> bool {
        &&& ids_distinct(durable.records)
        &&& self.items == still_queued(durable.records, durable.statuses)
        &&& forall|id: [u8; 32]| #[trigger]
            self.settlement.dom().contains(id) <==> exists|i: int| id_at(durable.records, id, i)
        &&& forall|id: [u8; 32]| #[trigger]
            self.settlement.dom().contains(id) ==> self.settlement[id] == status_in(
                durable.statuses,
                id,
            )
        &&& forall|account: Seq<char>| #[trigger]
            reserved_in(self.sequences.reserved, account) == reserved_in(
                durable.reservations,
                account,
            )
    }
}

/// A status that is not about any of the records changes nothing about them.
proof fn lemma_other_status(
    records: Seq<QueuedTx>,
    statuses: Map<[u8; 32], SettlementStatus>,
    id: [u8; 32],
    status: SettlementStatus,
)
    requires
        forall|i: int| !id_at(records, id, i),
    ensures
        still_queued(records, statuses.insert(id, status)) == still_queued(records, statuses),
    decreases records.len(),
{
    if records.len() > 0 {
        assert(!id_at(records, id, records.len() - 1));
        assert forall|i: int| !id_at(records.drop_last(), id, i) by {
            assert(!id_at(records, id, i));
        }
        lemma_other_status(records.drop_last(), statuses, id, status);
    }
}

/// Where an envelope gets another status than `Queued`, what is still queued is what was,
/// without it.
proof fn lemma_left_queued(
    records: Seq<QueuedTx>,
    statuses: Map<[u8; 32], SettlementStatus>,
    id: [u8; 32],
    status: SettlementStatus,
)
    requires
        status !is Queued,
    ensures
        still_queued(records, statuses.insert(id, status)) == without_id(
            still_queued(records, statuses),
            id,
        ),
    decreases records.len(),
{
    if records.len() > 0 {
        let front = records.drop_last();
        lemma_left_queued(front, statuses, id, status);
        let items = still_queued(front, statuses);
        assert(items.push(records.last()).drop_last() =~= items);
    }
}

/// What is still queued was recorded, and has the status `Queued`.
proof fn lemma_queued_is_recorded(
    records: Seq<QueuedTx>,
    statuses: Map<[u8; 32], SettlementStatus>,
    i: int,
) -> (at: int)
    requires
        0 <= i < still_queued(records, statuses).len(),
    ensures
        0 <= at < records.len(),
        records[at] == still_queued(records, statuses)[i],
        status_in(statuses, records[at].envelope.message_id) is Queued,
    decreases records.len(),
{
    let front = records.drop_last();
    if i < still_queued(front, statuses).len() {
        lemma_queued_is_recorded(front, statuses, i)
    } else {
        records.len() - 1
    }
}

/// A queued envelope that is marked as handed out leaves the queue, and nothing else
/// does.
proof fn lemma_dispatched(
    records: Seq<QueuedTx>,
    statuses: Map<[u8; 32], SettlementStatus>,
    i: int,
    id: [u8; 32],
    status: SettlementStatus,
)
    requires
        ids_distinct(records),
        0 <= i < still_queued(records, statuses).len(),
        still_queued(records, statuses)[i].envelope.message_id == id,
        status !is Queued,
    ensures
        still_queued(records, statuses.insert(id, status)) == still_queued(
            records,
            statuses,
        ).remove(i),
    decreases records.len(),
{
    let front = records.drop_last();
    let items = still_queued(records, statuses);
    let front_items = still_queued(front, statuses);
    let last = records.last();
    let at = lemma_queued_is_recorded(records, statuses, i);
    assert(ids_distinct(front));
    if last.envelope.message_id == id {
        if i < front_items.len() {
            let earlier = lemma_queued_is_recorded(front, statuses, i);
            assert(records[earlier].envelope.message_id
                != records[records.len() - 1].envelope.message_id);
        }
        assert forall|j: int| !id_at(front, id, j) by {
            if 0 <= j < front.len() {
                assert(records[j].envelope.message_id
                    != records[records.len() - 1].envelope.message_id);
            }
        }
        lemma_other_status(front, statuses, id, status);
        assert(items.remove(i) =~= front_items);
    } else {
        lemma_dispatched(front, statuses, i, id, status);
        if status_in(statuses, last.envelope.message_id) is Queued {
            assert(items.remove(i) =~= front_items.remove(i).push(last));
        }
    }
}

/// Queuing a payment keeps engine and storage in agreement: the payment that was
/// prepared is written to storage, and committed.
pub proof fn queuing_keeps_agreement(
    engine: EngineView,
    durable: DurableView,
    account: Seq<char>,
    sequence: i64,
    item: QueuedTx,
)
    requires
        engine.agrees_with(durable),
        forall|i: int| !id_at(durable.records, item.envelope.message_id, i),
    ensures
        (EngineView {
            sequences: engine.sequences.with_baseline(account).with_reserved(account, sequence),
            ..engine
        }).with_payment(item).agrees_with(durable.with_payment(account, sequence, item)),
{
    let id = item.envelope.message_id;
    let after = EngineView {
        sequences: engine.sequences.with_baseline(account).with_reserved(account, sequence),
        ..engine
    }.with_payment(item);
    let stored = durable.with_payment(account, sequence, item);
    assert(stored.records.drop_last() =~= durable.records);
    lemma_other_status(durable.records, durable.statuses, id, SettlementStatus::Queued);
    assert(ids_distinct(stored.records)) by {
        assert forall|i: int, j: int| 0 <= i < j < stored.records.len() implies (
        #[trigger] stored.records[i]).envelope.message_id != (
        #[trigger] stored.records[j]).envelope.message_id by {
            assert(!id_at(durable.records, id, i));
        }
    }
    assert forall|other: [u8; 32]| #[trigger]
        after.settlement.dom().contains(other) <==> exists|i: int| id_at(
            stored.records,
            other,
            i,
        ) by {
        if after.settlement.dom().contains(other) {
            if other == id {
                assert(id_at(stored.records, other, durable.records.len() as int));
            } else {
                assert(engine.settlement.dom().contains(other));
                let i = choose|i: int| id_at(durable.records, other, i);
                assert(id_at(stored.records, other, i));
            }
        }
        if exists|i: int| id_at(stored.records, other, i) {
            let i = choose|i: int| id_at(stored.records, other, i);
            if i < durable.records.len() {
                assert(id_at(durable.records, other, i));
                assert(engine.settlement.dom().contains(other));
            }
        }
    }
    assert forall|other: [u8; 32]| #[trigger]
        after.settlement.dom().contains(other) implies after.settlement[other] == status_in(
        stored.statuses,
        other,
    ) by {
        if other != id {
            assert(engine.settlement.dom().contains(other));
        }
    }
    assert forall|other: Seq<char>| #[trigger]
        reserved_in(after.sequences.reserved, other) == reserved_in(stored.reservations, other) by {
        assert(reserved_in(engine.sequences.reserved, other) == reserved_in(
            durable.reservations,
            other,
        ));
    }
}

/// A payment that could not be stored leaves no trace: the sequence it had reserved is
/// rolled back, and engine and storage agree as before.
pub proof fn failed_payments_leave_no_trace(
    engine: EngineView,
    durable: DurableView,
    account: Seq<char>,
)
    requires
        engine.agrees_with(durable),
        reserved_in(engine.sequences.reserved, account) < i64::MAX,
    ensures
        ({
            let sequence = (reserved_in(engine.sequences.reserved, account) + 1) as i64;
            (EngineView {
                sequences: engine.sequences.with_baseline(account).with_reserved(
                    account,
                    sequence,
                ).rolled_back(account, sequence),
                ..engine
            }).agrees_with(durable)
        }),
{
    let sequence = (reserved_in(engine.sequences.reserved, account) + 1) as i64;
    let after = engine.sequences.with_baseline(account).with_reserved(
        account,
        sequence,
    ).rolled_back(account, sequence);
    assert forall|other: Seq<char>| #[trigger]
        reserved_in(after.reserved, other) == reserved_in(durable.reservations, other) by {
        assert(reserved_in(engine.sequences.reserved, other) == reserved_in(
            durable.reservations,
            other,
        ));
    }
}

/// Dispatching keeps engine and storage in agreement: the status `Propagating` is
/// written to storage, and then the envelope is handed out.
pub proof fn dispatch_keeps_agreement(engine: EngineView, durable: DurableView, i: int)
    requires
        engine.agrees_with(durable),
        is_next(engine.items, i),
    ensures
        ({
            let id = engine.items[i].envelope.message_id;
            engine.without_item(i).with_tracked(id, SettlementStatus::Propagating).agrees_with(
                durable.with_status(id, SettlementStatus::Propagating),
            )
        }),
{
    let id = engine.items[i].envelope.message_id;
    let after = engine.without_item(i).with_tracked(id, SettlementStatus::Propagating);
    let stored = durable.with_status(id, SettlementStatus::Propagating);
    let at = lemma_queued_is_recorded(durable.records, durable.statuses, i);
    assert(id_at(durable.records, id, at));
    assert(engine.settlement.dom().contains(id));
    lemma_dispatched(durable.records, durable.statuses, i, id, SettlementStatus::Propagating);
    lemma_status_written(engine, durable, id, SettlementStatus::Propagating);
    assert(after.items == still_queued(stored.records, stored.statuses));
    assert(after.settlement.dom() =~= engine.settlement.dom());
    assert forall|other: [u8; 32]| #[trigger]
        after.settlement.dom().contains(other) <==> exists|k: int| id_at(
            stored.records,
            other,
            k,
        ) by {
        assert(engine.settlement.dom().contains(other) <==> exists|k: int| id_at(
            durable.records,
            other,
            k,
        ));
    }
    assert forall|other: Seq<char>| #[trigger]
        reserved_in(after.sequences.reserved, other) == reserved_in(stored.reservations, other) by {
        assert(reserved_in(engine.sequences.reserved, other) == reserved_in(
            durable.reservations,
            other,
        ));
    }
}

/// Writing a legal status of a tracked envelope on both sides keeps the statuses equal.
proof fn lemma_status_written(
    engine: EngineView,
    durable: DurableView,
    id: [u8; 32],
    next: SettlementStatus,
)
    requires
        engine.agrees_with(durable),
        engine.settlement.dom().contains(id),
        engine.settlement[id].may_become(next),
    ensures
        forall|other: [u8; 32]| #[trigger]
            engine.settlement.insert(id, next).dom().contains(other) ==> engine.settlement.insert(
                id,
                next,
            )[other] == status_in(durable.statuses.insert(id, next), other),
{
    assert forall|other: [u8; 32]| #[trigger]
        engine.settlement.insert(id, next).dom().contains(other) implies engine.settlement.insert(
        id,
        next,
    )[other] == status_in(durable.statuses.insert(id, next), other) by {
        if other != id {
            assert(engine.settlement.dom().contains(other));
        }
    }
}

/// Recording a legal settlement keeps engine and storage in agreement, whatever the
/// envelope's status was.
pub proof fn settlement_keeps_agreement(
    engine: EngineView,
    durable: DurableView,
    id: [u8; 32],
    next: SettlementStatus,
)
    requires
        engine.agrees_with(durable),
        engine.settlement.dom().contains(id),
        engine.settlement[id].may_become(next),
    ensures
        engine.with_status(id, next).agrees_with(durable.with_status(id, next)),
{
    let after = engine.with_status(id, next);
    let stored = durable.with_status(id, next);
    lemma_left_queued(durable.records, durable.statuses, id, next);
    lemma_status_written(engine, durable, id, next);
    assert(after.settlement.dom() =~= engine.settlement.dom());
    assert forall|other: [u8; 32]| #[trigger]
        after.settlement.dom().contains(other) <==> exists|k: int| id_at(
            stored.records,
            other,
            k,
        ) by {
        assert(stored.records == durable.records);
        assert(after.settlement.dom().contains(other) == engine.settlement.dom().contains(other));
    }
    assert forall|other: Seq<char>| #[trigger]
        reserved_in(after.sequences.reserved, other) == reserved_in(stored.reservations, other) by {
        assert(reserved_in(engine.sequences.reserved, other) == reserved_in(
            durable.reservations,
            other,
        ));
    }
}

/// The queue holds `Queued` payments only: what is to be dispatched is tracked as `Queued`,
/// so that handing it out always moves it to `Propagating`.
pub proof fn only_queued_payments_are_dispatched(engine: EngineView, durable: DurableView, i: int)
    requires
        engine.agrees_with(durable),
        0 <= i < engine.items.len(),
    ensures
        ({
            let id = engine.items[i].envelope.message_id;
            &&& engine.settlement.dom().contains(id)
            &&& engine.settlement[id] is Queued
            &&& engine.without_item(i).with_tracked(
                id,
                SettlementStatus::Propagating,
            ).settlement[id] is Propagating
        }),
{
    let at = lemma_queued_is_recorded(durable.records, durable.statuses, i);
    let id = engine.items[i].envelope.message_id;
    assert(id_at(durable.records, id, at));
    assert(engine.settlement.dom().contains(id));
}

/// Seeding an account keeps engine and storage in agreement.
pub proof fn seeding_keeps_agreement(
    engine: EngineView,
    durable: DurableView,
    account: Seq<char>,
    sequence: i64,
)
    requires
        engine.agrees_with(durable),
    ensures
        (EngineView {
            sequences: engine.sequences.seeded(account, sequence),
            ..engine
        }).agrees_with(durable.with_reservation(account, sequence)),
{
    let after = engine.sequences.seeded(account, sequence);
    let stored = durable.with_reservation(account, sequence);
    assert forall|other: Seq<char>| #[trigger]
        reserved_in(after.reserved, other) == reserved_in(stored.reservations, other) by {
        assert(reserved_in(engine.sequences.reserved, other) == reserved_in(
            durable.reservations,
            other,
        ));
    }
}

/// What storage lists gives what storage holds.
proof fn lemma_listed(
    payments: Seq<StoredPayment>,
    records: Seq<QueuedTx>,
    statuses: Map<[u8; 32], SettlementStatus>,
)
    requires
        payments.len() == records.len(),
        ids_distinct(records),
        forall|i: int|
            0 <= i < payments.len() ==> (#[trigger] payments[i]).item() == records[i]
                && payments[i].status == value_of(statuses, records[i].envelope.message_id),
    ensures
        dispatchable(payments) == still_queued(records, statuses),
        forall|id: [u8; 32]| #[trigger]
            stored_statuses(payments).dom().contains(id) <==> exists|i: int| id_at(records, id, i),
        forall|id: [u8; 32]| #[trigger]
            stored_statuses(payments).dom().contains(id) ==> stored_statuses(payments)[id]
                == status_in(statuses, id),
    decreases payments.len(),
{
    if payments.len() == 0 {
        assert forall|id: [u8; 32]| #[trigger]
            stored_statuses(payments).dom().contains(id) <==> exists|i: int| id_at(
                records,
                id,
                i,
            ) by {}
    } else {
        let front = payments.drop_last();
        let front_records = records.drop_last();
        let last = records.len() - 1;
        assert(payments[last].item() == records[last]);
        assert forall|i: int| 0 <= i < front.len() implies (#[trigger] front[i]).item()
            == front_records[i] && front[i].status == value_of(
            statuses,
            front_records[i].envelope.message_id,
        ) by {
            assert(payments[i].item() == records[i]);
        }
        lemma_listed(front, front_records, statuses);
        let last_id = records[last].envelope.message_id;
        assert(payments.last().record.envelope.message_id == last_id);
        assert forall|id: [u8; 32]| #[trigger]
            stored_statuses(payments).dom().contains(id) <==> exists|i: int| id_at(
                records,
                id,
                i,
            ) by {
            if stored_statuses(payments).dom().contains(id) {
                if id == last_id {
                    assert(id_at(records, id, last));
                } else {
                    assert(stored_statuses(front).dom().contains(id));
                    let i = choose|i: int| id_at(front_records, id, i);
                    assert(id_at(records, id, i));
                }
            }
            if exists|i: int| id_at(records, id, i) {
                let i = choose|i: int| id_at(records, id, i);
                if i < last {
                    assert(id_at(front_records, id, i));
                    assert(stored_statuses(front).dom().contains(id));
                }
            }
        }
        assert forall|id: [u8; 32]| #[trigger]
            stored_statuses(payments).dom().contains(id) implies stored_statuses(payments)[id]
            == status_in(statuses, id) by {
            if id != last_id {
                assert(stored_statuses(front).dom().contains(id));
            }
        }
    }
}

/// A restart restores the state: an engine opened on what storage lists holds the same
/// payments in the same order as the engine that storage agreed with, the same status
/// of every envelope, and hands out the same sequence numbers next.
pub proof fn restart_restores_the_state(
    engine: EngineView,
    durable: DurableView,
    reservations: Seq<(String, i64)>,
    payments: Seq<StoredPayment>,
)
    requires
        engine.agrees_with(durable),
        durable.lists(reservations, payments),
    ensures
        dispatchable(payments) == engine.items,
        stored_statuses(payments) == engine.settlement,
        forall|account: Seq<char>|
            reserved_in(seeded_with(reservations).reserved, account) == #[trigger] reserved_in(
                engine.sequences.reserved,
                account,
            ),
        (EngineView {
            items: dispatchable(payments),
            sequences: seeded_with(reservations),
            settlement: stored_statuses(payments),
        }).agrees_with(durable),
{
    lemma_listed(payments, durable.records, durable.statuses);
    let opened = stored_statuses(payments);
    assert forall|id: [u8; 32]|
        opened.dom().contains(id) <==> engine.settlement.dom().contains(id) by {
        assert(opened.dom().contains(id) <==> exists|i: int| id_at(durable.records, id, i));
        assert(engine.settlement.dom().contains(id) <==> exists|i: int| id_at(
            durable.records,
            id,
            i,
        ));
    }
    assert forall|id: [u8; 32]| #[trigger] opened.dom().contains(id) implies opened[id]
        == engine.settlement[id] by {
        assert(engine.settlement.dom().contains(id));
    }
    assert(opened =~= engine.settlement);
}

/// An envelope that was handed to the mesh is never dispatched a second time after a
/// restart: nothing that storage has at another status than `Queued` enters the queue.
pub proof fn restart_never_redispatches(
    durable: DurableView,
    reservations: Seq<(String, i64)>,
    payments: Seq<StoredPayment>,
    id: [u8; 32],
    i: int,
)
    requires
        ids_distinct(durable.records),
        durable.lists(reservations, payments),
        status_in(durable.statuses, id) !is Queued,
        0 <= i < dispatchable(payments).len(),
    ensures
        dispatchable(payments)[i].envelope.message_id != id,
{
    lemma_listed(payments, durable.records, durable.statuses);
    let at = lemma_queued_is_recorded(durable.records, durable.statuses, i);
}

/// What is read back from storage, payment by payment: one that is stored as queued, or without
/// a status, is dispatched after those before it, with its own priority and time; any other is
/// not dispatched. Either way its status is known. The last reservation stored for an account
/// is the one that counts.
pub proof fn stored_payments_come_back_one_by_one(
    rows: Seq<StoredPayment>,
    row: StoredPayment,
    stored: Seq<(String, i64)>,
    account: String,
    sequence: i64,
    other: Seq<char>,
)
    requires
        other != account@,
    ensures
        dispatchable(Seq::empty()).len() == 0,
        stored_statuses(Seq::empty()) == Map::<[u8; 32], SettlementStatus>::empty(),
        row.status is None || row.status == Some(SettlementStatus::Queued) ==> {
            &&& dispatchable(rows.push(row)).drop_last() == dispatchable(rows)
            &&& dispatchable(rows.push(row)).last().envelope == row.record.envelope
            &&& dispatchable(rows.push(row)).last().priority == row.record.priority
            &&& dispatchable(rows.push(row)).last().enqueued_at == row.record.enqueued_at
            &&& dispatchable(rows.push(row)).len() == dispatchable(rows).len() + 1
            &&& stored_statuses(rows.push(row)) == stored_statuses(rows).insert(
                row.record.envelope.message_id,
                SettlementStatus::Queued,
            )
        },
        row.status matches Some(status) ==> {
            &&& status != SettlementStatus::Queued ==> dispatchable(rows.push(row)) == dispatchable(
                rows,
            )
            &&& stored_statuses(rows.push(row)) == stored_statuses(rows).insert(
                row.record.envelope.message_id,
                status,
            )
        },
        value_of(seeded_with(stored.push((account, sequence))).reserved, account@) == Some(sequence),
        value_of(seeded_with(stored.push((account, sequence))).baseline, account@) == Some(sequence),
        value_of(seeded_with(stored.push((account, sequence))).reserved, other) == value_of(
            seeded_with(stored).reserved,
            other,
        ),
        value_of(seeded_with(Seq::empty()).reserved, other) is None,
{
    assert(rows.push(row).drop_last() =~= rows);
    assert(stored.push((account, sequence)).drop_last() =~= stored);
    let items = dispatchable(rows);
    assert(items.push(row.item()).drop_last() =~= items);
}

/// A payment that is queued goes to the end of the queue and is tracked as queued; nothing else
/// changes.
pub proof fn queued_payments_are_tracked(engine: EngineView, item: QueuedTx, other: [u8; 32])
    requires
        other != item.envelope.message_id,
    ensures
        ({
            let after = engine.with_payment(item);
            &&& after.items == engine.items.push(item)
            &&& after.sequences == engine.sequences
            &&& value_of(after.settlement, item.envelope.message_id) == Some(
                SettlementStatus::Queued,
            )
            &&& value_of(after.settlement, other) == value_of(engine.settlement, other)
        }),
{
}

/// A change of status is carried out exactly where the envelope is tracked and the change is
/// legal: then the envelope has the new status and no longer waits for dispatch, and the other
/// envelopes and the reservations are not affected. Any other change is refused, and changes
/// nothing.
pub proof fn status_changes_touch_one_envelope(
    engine: EngineView,
    id: [u8; 32],
    next: SettlementStatus,
    other: [u8; 32],
    item: QueuedTx,
)
    requires
        other != id,
    ensures
        ({
            let after = engine.with_status(id, next);
            &&& after.sequences == engine.sequences
            &&& value_of(after.settlement, other) == value_of(engine.settlement, other)
            &&& engine.settlement.dom().contains(id) && engine.settlement[id].may_become(next)
                ==> value_of(after.settlement, id) == Some(next) && (after.items.contains(item)
                <==> engine.items.contains(item) && item.envelope.message_id != id)
            &&& !engine.settlement.dom().contains(id) || !engine.settlement[id].may_become(next)
                ==> after == engine
        }),
{
    crate::queue::priority::withdrawing_leaves_the_others(engine.items, item, id);
}

/// The verdict on a change of status: it is refused for an envelope that is not tracked, and
/// for a change that is not legal, with an error that says which.
pub proof fn verdicts_follow_the_tracked_status(
    r: Result<(), SyncEngineError>,
    statuses: Map<[u8; 32], SettlementStatus>,
    id: [u8; 32],
    next: SettlementStatus,
)
    requires
        settlement_verdict(r, statuses, id, next),
    ensures
        r is Ok <==> statuses.dom().contains(id) && statuses[id].may_become(next),
        !statuses.dom().contains(id) ==> (r matches Err(SyncEngineError::EnvelopeNotFound(text))
            && text@ == hex_of(id@)),
        statuses.dom().contains(id) && !statuses[id].may_become(next) ==> (r matches Err(
            SyncEngineError::InvalidStateTransition { from, to },
        ) && from@ == statuses[id].name() && to@ == next.name()),
{
}

/// Handing out a payment takes that one out of the queue and leaves the others in their order,
/// and its status becomes `Propagating` where it was queued.
pub proof fn dispatch_takes_one_payment(engine: EngineView, i: int)
    requires
        0 <= i < engine.items.len(),
    ensures
        ({
            let id = engine.items[i].envelope.message_id;
            let after = engine.without_item(i).with_tracked(id, SettlementStatus::Propagating);
            &&& after.items == engine.items.subrange(0, i) + engine.items.skip(i + 1)
            &&& after.sequences == engine.sequences
            &&& value_of(engine.settlement, id) == Some(SettlementStatus::Queued) ==> value_of(
                after.settlement,
                id,
            ) == Some(SettlementStatus::Propagating)
            &&& forall|other: [u8; 32]|
                other != id ==> #[trigger] value_of(after.settlement, other) == value_of(
                    engine.settlement,
                    other,
                )
        }),
{
    assert(engine.items.remove(i) =~= engine.items.subrange(0, i) + engine.items.skip(i + 1));
}

/// An account that was never seeded starts at zero, one that was is left as it is; and rolling
/// back a reservation frees exactly that number, and only where it was the last.
pub proof fn baselines_and_rollbacks(state: SequenceView, account: Seq<char>, sequence: i64)
    requires
        sequence > i64::MIN,
    ensures
        !state.reserved.dom().contains(account) ==> value_of(
            state.with_baseline(account).reserved,
            account,
        ) == Some(0i64),
        state.reserved.dom().contains(account) ==> state.with_baseline(account) == state,
        value_of(state.reserved, account) == Some(sequence) ==> value_of(
            state.rolled_back(account, sequence).reserved,
            account,
        ) == Some((sequence - 1) as i64),
        value_of(state.reserved, account) != Some(sequence) ==> state.rolled_back(account, sequence)
            == state,
{
}

/// What storage holds of a payment is what was written last of it: its status, or that it is
/// queued where none was written; and of an account its last reservation, or zero.
pub proof fn storage_holds_what_was_written(
    durable: DurableView,
    id: [u8; 32],
    status: SettlementStatus,
    account: Seq<char>,
    sequence: i64,
    item: QueuedTx,
)
    ensures
        status_in(durable.with_status(id, status).statuses, id) == status,
        !durable.statuses.dom().contains(id) ==> status_in(durable.statuses, id)
            == SettlementStatus::Queued,
        reserved_in(durable.with_reservation(account, sequence).reservations, account) == sequence,
        !durable.reservations.dom().contains(account) ==> reserved_in(durable.reservations, account)
            == 0,
        ({
            let after = durable.with_payment(account, sequence, item);
            &&& after.records == durable.records.push(item)
            &&& reserved_in(after.reservations, account) == sequence
            &&& status_in(after.statuses, item.envelope.message_id) == SettlementStatus::Queued
        }),
{
}

} // verus!
