//! Local, pre-gossip ordering of a device's own outgoing payments.
//!
//! [`TxPriority`] governs the order in which this device's own queued payments are
//! signed and handed off to the mesh: an emergency payment queued while offline is
//! dispatched ahead of a routine one queued earlier.
//!
//! ## Emergency spending guard
//!
//! Because [`TxPriority::Emergency`] jumps the queue, it is the most attractive
//! tier for a thief to abuse. [`OutboundTxQueue`] supports an optional
//! [`EmergencyGuardConfig`] that caps how many Emergency-tier entries may be pushed
//! within a rolling time window. The guard's history is in memory, but seeded from
//! durable state: after a restart, the previously queued Emergency envelopes are
//! replayed through [`OutboundTxQueue::restore_at`], so a forced restart cannot
//! reset the counter.
use crate::bytes::bytes32_eq;
use crate::clock::Clock;
use crate::errors::SyncEngineError;
use crate::message::TransactionEnvelope;
use crate::text::{append_signed, signed_decimal};
use vstd::prelude::*;
use vstd::string::*;

verus! {

/// The urgency of a queued payment.
#[derive(Debug, Clone, Copy, PartialEq, Eq, PartialOrd, Ord, Structural)]
pub enum TxPriority {
    Low,
    Normal,
    Emergency,
}

impl TxPriority {
    /// The number a priority is stored as; higher is more urgent.
    pub open spec fn rank(self) -> i64 {
        match self {
            TxPriority::Low => 0,
            TxPriority::Normal => 1,
            TxPriority::Emergency => 2,
        }
    }

    /// The number this priority is stored as.
    pub fn to_i64(self) -> (n: i64)
        ensures
            n == self.rank(),
    {
        match self {
            TxPriority::Low => 0,
            TxPriority::Normal => 1,
            TxPriority::Emergency => 2,
        }
    }

    /// The priority stored as `value`.
    pub fn from_i64(value: i64) -> (r: Result<TxPriority, SyncEngineError>)
        ensures
            r is Ok <==> 0 <= value <= 2,
            r matches Ok(p) ==> p.rank() == value,
            r matches Err(e) ==> e matches SyncEngineError::InvalidEnvelope(msg) && msg@
                == "unknown TxPriority discriminant "@ + signed_decimal(value as int),
    {
        match value {
            0 => Ok(TxPriority::Low),
            1 => Ok(TxPriority::Normal),
            2 => Ok(TxPriority::Emergency),
            _ => {
                let mut s: String = "unknown TxPriority discriminant ".to_owned();
                append_signed(&mut s, value);
                Err(SyncEngineError::InvalidEnvelope(s))
            },
        }
    }
}

/// Reading back the number a priority is stored as gives that priority.
pub proof fn priority_numbers_are_distinct(a: TxPriority, b: TxPriority)
    ensures
        a.rank() == b.rank() <==> a == b,
        0 <= a.rank() <= 2,
{
}

impl From<TxPriority> for i64 {
    fn from(p: TxPriority) -> i64 {
        p.to_i64()
    }
}

impl vstd::std_specs::convert::FromSpecImpl<TxPriority> for i64 {
    open spec fn obeys_from_spec() -> bool {
        true
    }

    open spec fn from_spec(p: TxPriority) -> i64 {
        p.rank()
    }
}

impl TryFrom<i64> for TxPriority {
    type Error = SyncEngineError;

    fn try_from(value: i64) -> (r: Result<Self, Self::Error>)
        ensures
            r is Ok <==> 0 <= value <= 2,
            r matches Ok(p) ==> p.rank() == value,
            r matches Err(e) ==> e matches SyncEngineError::InvalidEnvelope(msg) && msg@
                == "unknown TxPriority discriminant "@ + signed_decimal(value as int),
    {
        TxPriority::from_i64(value)
    }
}

impl vstd::std_specs::convert::TryFromSpecImpl<i64> for TxPriority {
    open spec fn obeys_try_from_spec() -> bool {
        false
    }

    open spec fn try_from_spec(value: i64) -> Result<Self, Self::Error> {
        Ok(TxPriority::Low)
    }
}

/// A queued payment.
#[derive(Debug, Clone)]
pub struct QueuedTx {
    pub priority: TxPriority,
    /// Unix seconds when this envelope was pushed. Used as a FIFO tie-break
    /// within the same priority tier: earlier enqueue wins.
    pub enqueued_at: u64,
    pub envelope: TransactionEnvelope,
}

impl QueuedTx {
    /// Goes out before `other`: more urgent, or as urgent and queued earlier.
    pub open spec fn ahead_of(self, other: QueuedTx) -> bool {
        self.priority.rank() > other.priority.rank() || (self.priority == other.priority
            && self.enqueued_at < other.enqueued_at)
    }

    fn goes_before(&self, other: &QueuedTx) -> (r: bool)
        ensures
            r == self.ahead_of(*other),
    {
        let mine: i64 = self.priority.to_i64();
        let theirs: i64 = other.priority.to_i64();
        mine > theirs || (mine == theirs && self.enqueued_at < other.enqueued_at)
    }
}

/// `i` is the entry to go out next: nothing is ahead of it, and of equals it was
/// pushed first.
pub open spec fn is_next(items: Seq<QueuedTx>, i: int) -> bool {
    &&& 0 <= i < items.len()
    &&& forall|j: int| 0 <= j < items.len() ==> !(#[trigger] items[j]).ahead_of(items[i])
    &&& forall|j: int| 0 <= j < i ==> items[i].ahead_of(#[trigger] items[j])
}

/// The entries but those of the envelope with this id.
pub open spec fn without_id(items: Seq<QueuedTx>, id: [u8; 32]) -> Seq<QueuedTx>
    decreases items.len(),
{
    if items.len() == 0 {
        items
    } else if items.last().envelope.message_id == id {
        without_id(items.drop_last(), id)
    } else {
        without_id(items.drop_last(), id).push(items.last())
    }
}

/// Configures the Emergency-tier spending guard on [`OutboundTxQueue`]: at most
/// `max_count` Emergency entries may be admitted within any trailing `window_secs`.
#[derive(Debug, Clone, Copy)]
pub struct EmergencyGuardConfig {
    pub max_count: usize,
    pub window_secs: u64,
}

impl EmergencyGuardConfig {
    /// A guard of at most `max_count` entries per `window_secs`.
    pub fn new(max_count: usize, window_secs: u64) -> (config: Self)
        ensures
            config.max_count == max_count,
            config.window_secs == window_secs,
    {
        EmergencyGuardConfig { max_count, window_secs }
    }
}

/// An admission at `at` no longer counts at `now`.
pub open spec fn outside_window(at: u64, now: u64, window_secs: u64) -> bool {
    crate::clock::elapsed(now, at) >= window_secs
}

/// The history without the oldest admissions that no longer count.
pub open spec fn pruned(history: Seq<u64>, now: u64, window_secs: u64) -> Seq<u64>
    decreases history.len(),
{
    if history.len() > 0 && outside_window(history[0], now, window_secs) {
        pruned(history.drop_first(), now, window_secs)
    } else {
        history
    }
}

/// Tracks recent Emergency-tier admission timestamps. Entries older than the
/// configured window are pruned lazily on each check.
#[derive(Debug)]
pub struct EmergencyGuard {
    pub config: EmergencyGuardConfig,
    pub history: Vec<u64>,
}

impl EmergencyGuard {
    fn new(config: EmergencyGuardConfig) -> (guard: Self)
        ensures
            guard.config == config,
            guard.history@ == Seq::<u64>::empty(),
    {
        EmergencyGuard { config, history: Vec::new() }
    }

    fn prune(&mut self, now: u64)
        ensures
            final(self).config == old(self).config,
            final(self).history@ == pruned(old(self).history@, now, old(self).config.window_secs),
    {
        let window_secs: u64 = self.config.window_secs;
        let mut expired: usize = 0;
        assert(self.history@.skip(0) =~= self.history@);
        while expired < self.history.len() && now.saturating_sub(self.history[expired])
            >= window_secs
            invariant
                expired <= self.history.len(),
                self.history@ == old(self).history@,
                self.config == old(self).config,
                window_secs == self.config.window_secs,
                pruned(self.history@, now, window_secs) == pruned(
                    self.history@.skip(expired as int),
                    now,
                    window_secs,
                ),
            decreases self.history.len() - expired,
        {
            assert(self.history@.skip(expired as int).drop_first() =~= self.history@.skip(
                expired + 1,
            ));
            expired += 1;
        }
        let mut kept: Vec<u64> = Vec::new();
        let mut i: usize = expired;
        while i < self.history.len()
            invariant
                expired <= i <= self.history.len(),
                kept@ == self.history@.subrange(expired as int, i as int),
            decreases self.history.len() - i,
        {
            kept.push(self.history[i]);
            i += 1;
            assert(kept@ =~= self.history@.subrange(expired as int, i as int));
        }
        assert(kept@ =~= self.history@.skip(expired as int));
        self.history = kept;
    }

    /// Reject with an informative error if admitting one more Emergency entry at
    /// `now` would exceed the configured limit.
    fn check(&mut self, now: u64) -> (r: Result<(), SyncEngineError>)
        ensures
            final(self).config == old(self).config,
            final(self).history@ == pruned(old(self).history@, now, old(self).config.window_secs),
            r is Ok <==> final(self).history@.len() < old(self).config.max_count,
            r matches Err(e) ==> e == (SyncEngineError::EmergencyQueueLimitExceeded {
                current: final(self).history@.len() as usize,
                max: old(self).config.max_count,
                window_secs: old(self).config.window_secs,
            }),
    {
        self.prune(now);
        if self.history.len() >= self.config.max_count {
            return Err(
                SyncEngineError::EmergencyQueueLimitExceeded {
                    current: self.history.len(),
                    max: self.config.max_count,
                    window_secs: self.config.window_secs,
                },
            );
        }
        Ok(())
    }

    fn record(&mut self, at: u64)
        ensures
            final(self).config == old(self).config,
            final(self).history@ == old(self).history@.push(at),
    {
        self.history.push(at);
    }
}

/// The state of a spending guard.
#[verifier::ext_equal]
pub struct GuardView {
    pub max_count: usize,
    pub window_secs: u64,
    pub history: Seq<u64>,
}

impl View for EmergencyGuard {
    type V = GuardView;

    open spec fn view(&self) -> GuardView {
        GuardView {
            max_count: self.config.max_count,
            window_secs: self.config.window_secs,
            history: self.history@,
        }
    }
}

impl GuardView {
    /// Admissions that count at `now`.
    pub open spec fn pruned(self, now: u64) -> GuardView {
        GuardView { history: pruned(self.history, now, self.window_secs), ..self }
    }

    /// Whether one more admission at `now` stays within the limit.
    pub open spec fn admits(self, now: u64) -> bool {
        self.pruned(now).history.len() < self.max_count
    }

    /// With an admission at `at` added.
    pub open spec fn recorded(self, at: u64) -> GuardView {
        GuardView { history: self.history.push(at), ..self }
    }
}

/// A local queue of outgoing envelopes, ordered by [`TxPriority`] and then by
/// insertion order (oldest first) within the same tier.
#[derive(Debug)]
pub struct OutboundTxQueue<C> {
    items: Vec<QueuedTx>,
    emergency_guard: Option<EmergencyGuard>,
    clock: C,
}

/// What a queue holds and what its guard remembers.
#[verifier::ext_equal]
pub struct QueueView {
    /// The queued payments, in the order in which they were pushed.
    pub items: Seq<QueuedTx>,
    pub guard: Option<GuardView>,
}

impl<C> View for OutboundTxQueue<C> {
    type V = QueueView;

    closed spec fn view(&self) -> QueueView {
        QueueView {
            items: self.items@,
            guard: match self.emergency_guard {
                Some(guard) => Some(guard@),
                None => None,
            },
        }
    }
}

impl<C> OutboundTxQueue<C> {
    /// The clock that stamps what is pushed.
    pub closed spec fn clock(self) -> C {
        self.clock
    }
}

impl QueueView {
    /// Whether a push at this priority and time is admitted.
    pub open spec fn admits(self, priority: TxPriority, at: u64) -> bool {
        priority == TxPriority::Emergency ==> (self.guard matches Some(guard) ==> guard.admits(at))
    }

    /// With a payment added; an Emergency payment is added to the guard's history.
    pub open spec fn with_item(self, item: QueuedTx) -> QueueView {
        QueueView {
            items: self.items.push(item),
            guard: match self.guard {
                Some(guard) => Some(
                    if item.priority == TxPriority::Emergency {
                        guard.recorded(item.enqueued_at)
                    } else {
                        guard
                    },
                ),
                None => None,
            },
        }
    }

    /// With the guard's expired history dropped, as every Emergency push does.
    pub open spec fn checked(self, priority: TxPriority, at: u64) -> QueueView {
        QueueView {
            items: self.items,
            guard: match self.guard {
                Some(guard) => Some(
                    if priority == TxPriority::Emergency {
                        guard.pruned(at)
                    } else {
                        guard
                    },
                ),
                None => None,
            },
        }
    }
}

/// The outcome of pushing at a given time.
pub open spec fn pushed(
    before: QueueView,
    after: QueueView,
    item: QueuedTx,
    r: Result<(), SyncEngineError>,
) -> bool {
    let checked = before.checked(item.priority, item.enqueued_at);
    &&& r is Ok <==> before.admits(item.priority, item.enqueued_at)
    &&& r is Ok ==> after == checked.with_item(item)
    &&& r matches Err(e) ==> {
        &&& after == checked
        &&& e == (SyncEngineError::EmergencyQueueLimitExceeded {
            current: checked.guard->0.history.len() as usize,
            max: checked.guard->0.max_count,
            window_secs: checked.guard->0.window_secs,
        })
    }
}

impl<C: Clock> OutboundTxQueue<C> {
    /// An empty queue without a spending guard.
    pub fn new(clock: C) -> (q: Self)
        ensures
            q@ == (QueueView { items: Seq::empty(), guard: None }),
            q.clock() == clock,
    {
        let q = OutboundTxQueue { items: Vec::new(), emergency_guard: None, clock };
        assert(q@ =~= (QueueView { items: Seq::empty(), guard: None }));
        q
    }

    /// Like [`Self::new`], but rejects Emergency-tier pushes that would exceed
    /// `guard_config`'s rolling-window limit. Non-Emergency pushes are never
    /// gated.
    pub fn with_emergency_guard(guard_config: EmergencyGuardConfig, clock: C) -> (q: Self)
        ensures
            q@ == (QueueView {
                items: Seq::empty(),
                guard: Some(
                    GuardView {
                        max_count: guard_config.max_count,
                        window_secs: guard_config.window_secs,
                        history: Seq::empty(),
                    },
                ),
            }),
            q.clock() == clock,
    {
        let guard = EmergencyGuard::new(guard_config);
        let q = OutboundTxQueue { items: Vec::new(), emergency_guard: Some(guard), clock };
        assert(q@.items =~= Seq::<QueuedTx>::empty());
        q
    }

    /// The clock that stamps what is pushed, to be moved or set.
    pub fn clock_mut(&mut self) -> (clock: &mut C)
        ensures
            *clock == old(self).clock(),
            final(self).clock() == *final(clock),
            final(self)@ == old(self)@,
    {
        &mut self.clock
    }

    /// Push `envelope` at the given `priority`, timestamped now.
    ///
    /// Fails with `EmergencyQueueLimitExceeded` if `priority` is Emergency and the
    /// guard's limit has already been reached.
    pub fn push(&mut self, envelope: TransactionEnvelope, priority: TxPriority) -> (r: Result<
        (),
        SyncEngineError,
    >)
        ensures
            final(self).clock() == old(self).clock(),
            exists|now: u64| #[trigger]
                old(self).clock().shows(now) && pushed(
                    old(self)@,
                    final(self)@,
                    (QueuedTx { priority, enqueued_at: now, envelope }),
                    r,
                ),
            priority != TxPriority::Emergency || old(self)@.guard is None ==> r is Ok,
    {
        let enqueued_at: u64 = self.clock.now_secs();
        assert(self.clock().shows(enqueued_at));
        self.push_at(envelope, priority, enqueued_at)
    }

    /// Same as [`Self::push`] but with an explicit `enqueued_at`. The Emergency
    /// guard is enforced as of `enqueued_at`.
    pub fn push_at(
        &mut self,
        envelope: TransactionEnvelope,
        priority: TxPriority,
        enqueued_at: u64,
    ) -> (r: Result<(), SyncEngineError>)
        ensures
            final(self).clock() == old(self).clock(),
            pushed(old(self)@, final(self)@, (QueuedTx { priority, enqueued_at, envelope }), r),
    {
        let ghost item = QueuedTx { priority, enqueued_at, envelope };
        let ghost before = self@;
        if priority == TxPriority::Emergency {
            if let Some(mut guard) = self.emergency_guard.take() {
                let admitted = guard.check(enqueued_at);
                if admitted.is_err() {
                    self.emergency_guard = Some(guard);
                    assert(self@ =~= before.checked(priority, enqueued_at));
                    return admitted;
                }
                guard.record(enqueued_at);
                self.emergency_guard = Some(guard);
            }
        }
        self.items.push(QueuedTx { priority, enqueued_at, envelope });
        assert(self@ =~= before.checked(priority, enqueued_at).with_item(item));
        Ok(())
    }

    /// Re-admit a previously-accepted envelope (e.g. one reloaded from storage at
    /// startup) without re-running the Emergency guard's limit check. Emergency
    /// entries are still folded into the guard's history. Never rejects.
    pub fn restore_at(
        &mut self,
        envelope: TransactionEnvelope,
        priority: TxPriority,
        enqueued_at: u64,
    )
        ensures
            final(self).clock() == old(self).clock(),
            final(self)@ == old(self)@.with_item((QueuedTx { priority, enqueued_at, envelope })),
    {
        let ghost item = QueuedTx { priority, enqueued_at, envelope };
        let ghost before = self@;
        if priority == TxPriority::Emergency {
            if let Some(mut guard) = self.emergency_guard.take() {
                guard.record(enqueued_at);
                self.emergency_guard = Some(guard);
            }
        }
        self.items.push(QueuedTx { priority, enqueued_at, envelope });
        assert(self@ =~= before.with_item(item));
    }

    fn next_index(&self) -> (r: Option<usize>)
        ensures
            r is None <==> self@.items.len() == 0,
            r matches Some(i) ==> is_next(self@.items, i as int),
    {
        if self.items.len() == 0 {
            return None;
        }
        let mut best: usize = 0;
        let mut i: usize = 1;
        while i < self.items.len()
            invariant
                1 <= i <= self.items.len(),
                is_next(self.items@.subrange(0, i as int), best as int),
                best < i,
            decreases self.items.len() - i,
        {
            let ghost upto = self.items@.subrange(0, i as int);
            let ghost next = self.items@.subrange(0, i + 1);
            let ghost old_best = best as int;
            assert(forall|j: int| 0 <= j < i ==> #[trigger] next[j] == upto[j]);
            assert(next[i as int] == self.items@[i as int]);
            if self.items[i].goes_before(&self.items[best]) {
                best = i;
                assert forall|j: int| 0 <= j < i implies next[i as int].ahead_of(
                    #[trigger] next[j],
                ) by {
                    assert(!upto[j].ahead_of(upto[old_best]));
                }
            }
            assert(is_next(next, best as int));
            i += 1;
        }
        assert(self.items@.subrange(0, i as int) =~= self.items@);
        Some(best)
    }

    /// Take out the envelope that goes next.
    pub fn pop(&mut self) -> (r: Option<TransactionEnvelope>)
        ensures
            final(self).clock() == old(self).clock(),
            final(self)@.guard == old(self)@.guard,
            r is None <==> old(self)@.items.len() == 0,
            r is None ==> final(self)@ == old(self)@,
            r matches Some(envelope) ==> exists|i: int| #[trigger]
                is_next(old(self)@.items, i) && old(self)@.items[i].envelope == envelope
                    && final(self)@.items == old(self)@.items.remove(i),
    {
        match self.next_index() {
            Some(i) => {
                let item = self.items.remove(i);
                Some(item.envelope)
            },
            None => None,
        }
    }

    /// Take the envelope with this id out of the queue, wherever it stands. What the guard
    /// remembers stays.
    pub fn withdraw(&mut self, message_id: &[u8; 32])
        ensures
            final(self).clock() == old(self).clock(),
            final(self)@ == (QueueView {
                items: without_id(old(self)@.items, *message_id),
                ..old(self)@
            }),
    {
        let ghost given = self.items@;
        let ghost mut seen: int = 0;
        let mut i: usize = 0;
        assert(given.subrange(0, 0) =~= Seq::<QueuedTx>::empty());
        assert(self.items@ =~= without_id(given.subrange(0, 0), *message_id) + given.skip(0));
        while i < self.items.len()
            invariant
                0 <= seen <= given.len(),
                i == without_id(given.subrange(0, seen), *message_id).len(),
                self.items@ == without_id(given.subrange(0, seen), *message_id) + given.skip(seen),
                self.clock == old(self).clock,
                self.emergency_guard == old(self).emergency_guard,
            decreases self.items.len() - i,
        {
            let ghost kept = without_id(given.subrange(0, seen), *message_id);
            assert(self.items@[i as int] == given[seen]);
            assert(given.subrange(0, seen + 1).drop_last() =~= given.subrange(0, seen));
            if bytes32_eq(&self.items[i].envelope.message_id, message_id) {
                let _ = self.items.remove(i);
                assert(self.items@ =~= kept + given.skip(seen + 1));
            } else {
                i += 1;
                assert(self.items@ =~= kept.push(given[seen]) + given.skip(seen + 1));
            }
            proof {
                seen = seen + 1;
            }
        }
        assert(given.subrange(0, seen) =~= given);
        assert(self.items@ =~= without_id(given, *message_id));
    }

    /// The envelope that goes next.
    pub fn peek(&self) -> (r: Option<&TransactionEnvelope>)
        ensures
            r is None <==> self@.items.len() == 0,
            r matches Some(envelope) ==> exists|i: int| #[trigger]
                is_next(self@.items, i) && self@.items[i].envelope == *envelope,
    {
        match self.next_index() {
            Some(i) => Some(&self.items[i].envelope),
            None => None,
        }
    }

    /// The number of queued envelopes.
    pub fn len(&self) -> (n: usize)
        ensures
            n == self@.items.len(),
    {
        self.items.len()
    }

    /// Whether nothing is queued.
    pub fn is_empty(&self) -> (r: bool)
        ensures
            r == (self@.items.len() == 0),
    {
        self.items.len() == 0
    }
}

/// There is one envelope to go next.
pub proof fn next_is_unique(items: Seq<QueuedTx>, i: int, j: int)
    requires
        is_next(items, i),
        is_next(items, j),
    ensures
        i == j,
{
    if i < j {
        assert(items[j].ahead_of(items[i]));
    } else if j < i {
        assert(items[i].ahead_of(items[j]));
    }
}

/// A more urgent payment goes out before every less urgent one, whenever it was
/// queued.
pub proof fn urgent_payments_go_first(items: Seq<QueuedTx>, i: int, j: int)
    requires
        is_next(items, i),
        0 <= j < items.len(),
    ensures
        items[i].priority.rank() >= items[j].priority.rank(),
{
    assert(!items[j].ahead_of(items[i]));
}

/// Within a tier the earliest goes first, and of payments queued at the same time
/// the one that was pushed first.
pub proof fn tiers_are_first_in_first_out(items: Seq<QueuedTx>, i: int, j: int)
    requires
        is_next(items, i),
        0 <= j < items.len(),
        items[i].priority == items[j].priority,
    ensures
        items[i].enqueued_at <= items[j].enqueued_at,
        items[i].enqueued_at == items[j].enqueued_at ==> i <= j,
{
    assert(!items[j].ahead_of(items[i]));
    if j < i {
        assert(items[i].ahead_of(items[j]));
    }
}

/// Where the stamps never go back, a tier is emptied in the order in which it was filled:
/// the first of its payments is the one to go.
pub proof fn a_tier_is_emptied_in_arrival_order(items: Seq<QueuedTx>)
    requires
        items.len() > 0,
        forall|j: int| 0 <= j < items.len() ==> (#[trigger] items[j]).priority == items[0].priority,
        forall|j: int, k: int|
            0 <= j <= k < items.len() ==> (#[trigger] items[j]).enqueued_at <= (
            #[trigger] items[k]).enqueued_at,
    ensures
        is_next(items, 0),
{
}

/// The guard never remembers more admissions in its window than it allows: a push
/// that is admitted leaves at most `max_count` of them.
pub proof fn guard_limit_is_kept(guard: GuardView, now: u64)
    requires
        guard.admits(now),
    ensures
        guard.pruned(now).recorded(now).history.len() <= guard.max_count,
{
}

/// Pruning early changes nothing later: what counts at a later time is the same
/// whether or not the history was pruned before the last admissions.
pub proof fn pruning_is_lossless(
    history: Seq<u64>,
    since: Seq<u64>,
    earlier: u64,
    later: u64,
    window_secs: u64,
)
    requires
        earlier <= later,
    ensures
        pruned(pruned(history, earlier, window_secs) + since, later, window_secs) == pruned(
            history + since,
            later,
            window_secs,
        ),
    decreases history.len(),
{
    if history.len() > 0 && outside_window(history[0], earlier, window_secs) {
        pruning_is_lossless(history.drop_first(), since, earlier, later, window_secs);
        assert((history + since).drop_first() =~= history.drop_first() + since);
    }
}

/// A forced restart cannot reset the guard: replaying the full history of
/// Emergency admissions into a fresh guard gives the same verdict at any later time
/// as the guard that pruned its history along the way.
pub proof fn restart_keeps_the_limit(
    guard: GuardView,
    replayed: GuardView,
    since: Seq<u64>,
    pruned_at: u64,
    now: u64,
)
    requires
        pruned_at <= now,
        replayed.max_count == guard.max_count,
        replayed.window_secs == guard.window_secs,
        replayed.history == guard.history + since,
    ensures
        replayed.admits(now) == (GuardView {
            history: guard.pruned(pruned_at).history + since,
            ..guard
        }).admits(now),
{
    pruning_is_lossless(guard.history, since, pruned_at, now, guard.window_secs);
}

/// Emergency payments are more urgent than normal ones, and those than low ones; the numbers
/// that they are stored as follow that order, from zero.
pub proof fn tiers_are_ordered_by_urgency()
    ensures
        TxPriority::Low.rank() == 0,
        TxPriority::Normal.rank() == TxPriority::Low.rank() + 1,
        TxPriority::Emergency.rank() == TxPriority::Normal.rank() + 1,
{
}

/// The entry to go next is the one that beats each of the others: by its tier, within the tier
/// by its time, and at the same time by having been pushed first.
pub proof fn next_beats_every_other(items: Seq<QueuedTx>, i: int)
    requires
        0 <= i < items.len(),
    ensures
        is_next(items, i) <==> forall|j: int|
            0 <= j < items.len() && j != i ==> {
                ||| items[i].priority.rank() > (#[trigger] items[j]).priority.rank()
                ||| items[i].priority == items[j].priority && items[i].enqueued_at
                    < items[j].enqueued_at
                ||| items[i].priority == items[j].priority && items[i].enqueued_at
                    == items[j].enqueued_at && i < j
            },
{
    if is_next(items, i) {
        assert forall|j: int| 0 <= j < items.len() && j != i implies {
            ||| items[i].priority.rank() > (#[trigger] items[j]).priority.rank()
            ||| items[i].priority == items[j].priority && items[i].enqueued_at
                < items[j].enqueued_at
            ||| items[i].priority == items[j].priority && items[i].enqueued_at
                == items[j].enqueued_at && i < j
        } by {
            assert(!items[j].ahead_of(items[i]));
            if j < i {
                assert(items[i].ahead_of(items[j]));
            }
        }
    }
}

/// An entry is ahead of another exactly where its tier is more urgent, or the same and it was
/// queued earlier.
pub proof fn urgency_then_age_decides(a: QueuedTx, b: QueuedTx)
    ensures
        a.priority.rank() > b.priority.rank() ==> a.ahead_of(b) && !b.ahead_of(a),
        a.priority == b.priority && a.enqueued_at < b.enqueued_at ==> a.ahead_of(b)
            && !b.ahead_of(a),
        a.priority == b.priority && a.enqueued_at == b.enqueued_at ==> !a.ahead_of(b)
            && !b.ahead_of(a),
{
}

/// Withdrawing an id takes out the entries of that id, and leaves the others in their order.
pub proof fn withdrawing_leaves_the_others(items: Seq<QueuedTx>, item: QueuedTx, id: [u8; 32])
    ensures
        without_id(Seq::<QueuedTx>::empty(), id) == Seq::<QueuedTx>::empty(),
        item.envelope.message_id == id ==> without_id(items.push(item), id) == without_id(items, id),
        item.envelope.message_id != id ==> without_id(items.push(item), id) == without_id(
            items,
            id,
        ).push(item),
        without_id(items, id).contains(item) <==> items.contains(item) && item.envelope.message_id
            != id,
    decreases items.len(),
{
    assert(items.push(item).drop_last() =~= items);
    if items.len() > 0 {
        let front = items.drop_last();
        let rest = without_id(front, id);
        let all = without_id(items, id);
        withdrawing_leaves_the_others(front, item, id);
        assert(items =~= front.push(items.last()));
        assert(items.contains(item) <==> front.contains(item) || items.last() == item) by {
            if front.contains(item) {
                let k = choose|k: int| 0 <= k < front.len() && front[k] == item;
                assert(items[k] == item);
            }
            if items.contains(item) {
                let k = choose|k: int| 0 <= k < items.len() && items[k] == item;
                if k < front.len() {
                    assert(front[k] == item);
                }
            }
            assert(items[items.len() - 1] == items.last());
        }
        if items.last().envelope.message_id != id {
            assert(all == rest.push(items.last()));
            if rest.contains(item) {
                let k = choose|k: int| 0 <= k < rest.len() && rest[k] == item;
                assert(all[k] == item);
            }
            if all.contains(item) {
                let k = choose|k: int| 0 <= k < all.len() && all[k] == item;
                if k < rest.len() {
                    assert(rest[k] == item);
                }
            }
            assert(all[rest.len() as int] == items.last());
        }
    }
}

/// Pruning drops admissions from the front: those that are as old as the window or older, up to
/// the first one that is not.
pub proof fn pruning_drops_the_expired(history: Seq<u64>, now: u64, window_secs: u64) -> (k: int)
    requires
        window_secs > 0,
    ensures
        0 <= k <= history.len(),
        pruned(history, now, window_secs) == history.skip(k),
        forall|i: int| 0 <= i < k ==> now >= #[trigger] history[i] + window_secs,
        k < history.len() ==> now < history[k] + window_secs,
    decreases history.len(),
{
    if history.len() > 0 && outside_window(history[0], now, window_secs) {
        let rest = history.drop_first();
        let k = pruning_drops_the_expired(rest, now, window_secs);
        assert(rest.skip(k) =~= history.skip(k + 1));
        assert forall|i: int| 0 <= i < k + 1 implies now >= #[trigger] history[i] + window_secs by {
            if i > 0 {
                assert(rest[i - 1] == history[i]);
            }
        }
        k + 1
    } else {
        assert(history.skip(0) =~= history);
        0
    }
}

/// The limit is that of a rolling window: where admissions were recorded in order, one more is
/// admitted exactly where the limit is not zero and fewer than `max_count` admissions lie
/// within the window, that is where the one `max_count` admissions back has left it.
pub proof fn the_limit_counts_a_rolling_window(guard: GuardView, now: u64)
    requires
        guard.window_secs > 0,
        forall|i: int, j: int|
            0 <= i <= j < guard.history.len() ==> #[trigger] guard.history[i]
                <= #[trigger] guard.history[j],
    ensures
        guard.admits(now) <==> guard.max_count > 0 && (guard.history.len() < guard.max_count || now
            >= guard.history[guard.history.len() - guard.max_count] + guard.window_secs),
        guard.pruned(now).max_count == guard.max_count,
        guard.pruned(now).window_secs == guard.window_secs,
        guard.recorded(now).history == guard.history.push(now),
        guard.recorded(now).max_count == guard.max_count,
        guard.recorded(now).window_secs == guard.window_secs,
{
    let k = pruning_drops_the_expired(guard.history, now, guard.window_secs);
    let n = guard.history.len() - guard.max_count;
    if 0 <= n < guard.history.len() {
        if n < k {
            assert(now >= guard.history[n] + guard.window_secs);
        } else {
            assert(guard.history[k] <= guard.history[n]);
        }
    }
}

/// What a push does: a payment that is not an emergency, or any payment without a guard, is
/// added at the end and nothing else changes. An emergency is added exactly where the guard
/// admits it, and is then remembered by the guard; a refused one leaves the payments alone and
/// reports the limit.
pub proof fn pushes_add_at_the_end(
    before: QueueView,
    after: QueueView,
    item: QueuedTx,
    r: Result<(), SyncEngineError>,
)
    requires
        pushed(before, after, item, r),
    ensures
        r is Ok ==> after.items == before.items.push(item),
        r is Err ==> after.items == before.items,
        item.priority != TxPriority::Emergency || before.guard is None ==> r is Ok && after.guard
            == before.guard,
        item.priority == TxPriority::Emergency ==> (before.guard matches Some(guard) ==> {
            let kept = pruned(guard.history, item.enqueued_at, guard.window_secs);
            &&& r is Ok <==> kept.len() < guard.max_count
            &&& after.guard is Some
            &&& after.guard->0.max_count == guard.max_count
            &&& after.guard->0.window_secs == guard.window_secs
            &&& r is Ok ==> after.guard->0.history == kept.push(item.enqueued_at)
            &&& r is Err ==> after.guard->0.history == kept
            &&& r matches Err(e) ==> e == (SyncEngineError::EmergencyQueueLimitExceeded {
                current: kept.len() as usize,
                max: guard.max_count,
                window_secs: guard.window_secs,
            })
        }),
{
}

/// A restored payment is added at the end without a check, and an emergency is remembered by
/// the guard.
pub proof fn restored_payments_are_remembered(before: QueueView, item: QueuedTx)
    ensures
        before.with_item(item).items == before.items.push(item),
        before.guard is None ==> before.with_item(item).guard is None,
        before.guard matches Some(guard) ==> (before.with_item(item).guard matches Some(after)
            && after.max_count == guard.max_count && after.window_secs == guard.window_secs
            && after.history == (if item.priority == TxPriority::Emergency {
            guard.history.push(item.enqueued_at)
        } else {
            guard.history
        })),
{
}

} // verus!
