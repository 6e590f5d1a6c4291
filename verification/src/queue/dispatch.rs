//! In-flight dispatch backpressure per relay session.
//!
//! A [`DispatchWindow`] tracks popped-but-not-yet-acknowledged envelopes and
//! refuses further dispatch once full. It is driven by explicit calls:
//! `try_acquire` before an envelope is handed to the relay, `acknowledge` when the
//! relay confirms propagation, `abandon` when the transport reports a hard failure.
//!
//! If a relay session ends uncleanly its entries are never acknowledged. Every
//! mutating call sweeps entries older than the configured timeout, so a dead
//! session's slots are released automatically.
use crate::clock::elapsed;
use crate::errors::SyncEngineError;
use crate::maps::{key_at, keys_distinct, lemma_push, map_of, IdMap};
use vstd::prelude::*;

verus! {

/// Default in-flight capacity. BLE links tolerate only a handful of concurrent
/// operations; eight leaves headroom for interleaved acks.
pub const DEFAULT_MAX_IN_FLIGHT: usize = 8;

/// Default release timeout (seconds). Should comfortably exceed the worst normal
/// relay ack latency.
pub const DEFAULT_TIMEOUT_SECS: u64 = 120;

/// Bounds how many popped-but-unacknowledged envelopes may be outstanding.
#[derive(Debug)]
pub struct DispatchWindow {
    max_in_flight: usize,
    timeout_secs: u64,
    in_flight: IdMap<u64>,
}

/// What a dispatch window holds: its configuration, and the time at which each
/// outstanding envelope was dispatched.
pub struct WindowView {
    pub max_in_flight: usize,
    pub timeout_secs: u64,
    pub in_flight: Map<[u8; 32], u64>,
}

impl View for DispatchWindow {
    type V = WindowView;

    closed spec fn view(&self) -> WindowView {
        WindowView {
            max_in_flight: self.max_in_flight,
            timeout_secs: self.timeout_secs,
            in_flight: self.in_flight@,
        }
    }
}

/// The entries whose timeout has not passed at `now`.
pub open spec fn unexpired(
    in_flight: Map<[u8; 32], u64>,
    now: u64,
    timeout_secs: u64,
) -> Map<[u8; 32], u64> {
    Map::new(
        |id: [u8; 32]|
            in_flight.dom().contains(id) && elapsed(now, in_flight[id]) < timeout_secs,
        |id: [u8; 32]| in_flight[id],
    )
}

impl WindowView {
    /// The window after a sweep at `now`.
    pub open spec fn swept(self, now: u64) -> WindowView {
        WindowView { in_flight: unexpired(self.in_flight, now, self.timeout_secs), ..self }
    }
}

proof fn lemma_unexpired_shrinks(in_flight: Map<[u8; 32], u64>, now: u64, timeout_secs: u64)
    requires
        in_flight.dom().finite(),
    ensures
        unexpired(in_flight, now, timeout_secs).dom().finite(),
        unexpired(in_flight, now, timeout_secs).len() <= in_flight.len(),
{
    let kept = unexpired(in_flight, now, timeout_secs);
    assert(kept.dom().subset_of(in_flight.dom()));
    vstd::set_lib::lemma_len_subset(kept.dom(), in_flight.dom());
}

impl DispatchWindow {
    /// Capacity and timeout are not zero, and no more envelopes are outstanding
    /// than the capacity.
    pub closed spec fn wf(self) -> bool {
        &&& self.in_flight.wf()
        &&& self.max_in_flight > 0
        &&& self.timeout_secs > 0
        &&& self.in_flight@.dom().finite()
        &&& self.in_flight@.len() <= self.max_in_flight
    }

    /// Validates and constructs a dispatch window. Capacity and timeout must not
    /// be zero: a zero window can never dispatch, and a zero timeout would disable
    /// backpressure.
    pub fn new(max_in_flight: usize, timeout_secs: u64) -> (r: Result<Self, SyncEngineError>)
        ensures
            r is Ok <==> max_in_flight > 0 && timeout_secs > 0,
            r matches Ok(w) ==> {
                &&& w.wf()
                &&& w@.max_in_flight == max_in_flight
                &&& w@.timeout_secs == timeout_secs
                &&& w@.in_flight == Map::<[u8; 32], u64>::empty()
            },
            r matches Err(e) ==> e matches SyncEngineError::InvalidDispatchWindow(msg) && msg@ == (
            if max_in_flight == 0 {
                "max_in_flight must be non-zero; a zero window can never dispatch"@
            } else {
                "timeout_secs must be non-zero; a zero timeout disables backpressure by expiring every entry immediately"@
            }),
    {
        if max_in_flight == 0 {
            return Err(
                SyncEngineError::InvalidDispatchWindow(
                    "max_in_flight must be non-zero; a zero window can never dispatch".to_owned(),
                ),
            );
        }
        if timeout_secs == 0 {
            return Err(
                SyncEngineError::InvalidDispatchWindow(
                    "timeout_secs must be non-zero; a zero timeout disables backpressure by expiring every entry immediately".to_owned(),
                ),
            );
        }
        Ok(DispatchWindow { max_in_flight, timeout_secs, in_flight: IdMap::new() })
    }

    /// Sweeps entries whose ack never arrived within the timeout.
    fn sweep_expired(&mut self, now: u64)
        requires
            old(self).wf(),
        ensures
            final(self).wf(),
            final(self)@ == old(self)@.swept(now),
    {
        let mut kept: IdMap<u64> = IdMap::new();
        let entries = self.in_flight.entries();
        let ghost all = entries@;
        let ghost timeout = self.timeout_secs;
        let mut i: usize = 0;
        assert(kept@ =~= unexpired(map_of(all.subrange(0, 0)), now, timeout));
        while i < entries.len()
            invariant
                i <= entries.len(),
                all == entries@,
                keys_distinct(all),
                timeout == self.timeout_secs,
                kept.wf(),
                kept@ == unexpired(map_of(all.subrange(0, i as int)), now, timeout),
            decreases entries.len() - i,
        {
            let ghost before = all.subrange(0, i as int);
            let ghost after = all.subrange(0, i + 1);
            let id = entries[i].0;
            let at: u64 = entries[i].1;
            proof {
                assert(after =~= before.push((id, at)));
                assert(keys_distinct(before));
                assert(!map_of(before).dom().contains(id)) by {
                    if map_of(before).dom().contains(id) {
                        let k = choose|k: int| key_at(before, id, k);
                        assert(all[k].0 != all[i as int].0);
                    }
                }
                lemma_push(before, id, at);
            }
            if now.saturating_sub(at) < self.timeout_secs {
                kept.insert(id, at);
                assert(kept@ =~= unexpired(map_of(after), now, timeout));
            } else {
                assert(unexpired(map_of(before), now, timeout) =~= unexpired(
                    map_of(after),
                    now,
                    timeout,
                ));
            }
            i += 1;
        }
        proof {
            assert(all.subrange(0, i as int) =~= all);
            lemma_unexpired_shrinks(self.in_flight@, now, timeout);
        }
        self.in_flight = kept;
    }

    /// Reserves a window slot for `message_id`, after sweeping expired entries.
    /// Fails where the message is already outstanding or the window is full.
    pub fn try_acquire(&mut self, message_id: [u8; 32], now: u64) -> (r: Result<
        (),
        SyncEngineError,
    >)
        requires
            old(self).wf(),
        ensures
            final(self).wf(),
            ({
                let swept = old(self)@.swept(now);
                let duplicate = swept.in_flight.dom().contains(message_id);
                let full = swept.in_flight.len() >= swept.max_in_flight;
                &&& r is Ok <==> !duplicate && !full
                &&& r is Ok ==> final(self)@ == (WindowView {
                    in_flight: swept.in_flight.insert(message_id, now),
                    ..swept
                })
                &&& r matches Err(e) ==> {
                    &&& final(self)@ == swept
                    &&& e == if duplicate {
                        SyncEngineError::DuplicateInFlight
                    } else {
                        SyncEngineError::BackpressureWindowFull {
                            max_in_flight: swept.max_in_flight,
                        }
                    }
                }
            }),
    {
        self.sweep_expired(now);
        if self.in_flight.contains_key(&message_id) {
            return Err(SyncEngineError::DuplicateInFlight);
        }
        if self.in_flight.len() >= self.max_in_flight {
            return Err(
                SyncEngineError::BackpressureWindowFull { max_in_flight: self.max_in_flight },
            );
        }
        self.in_flight.insert(message_id, now);
        Ok(())
    }

    /// Releases the slot for a relay-acknowledged envelope. Returns whether the
    /// envelope was in flight.
    pub fn acknowledge(&mut self, message_id: &[u8; 32]) -> (r: bool)
        requires
            old(self).wf(),
        ensures
            final(self).wf(),
            r == old(self)@.in_flight.dom().contains(*message_id),
            final(self)@ == (WindowView {
                in_flight: old(self)@.in_flight.remove(*message_id),
                ..old(self)@
            }),
    {
        let removed = self.in_flight.remove(message_id);
        removed.is_some()
    }

    /// Immediately releases a slot without an ack, for transports that report a
    /// hard, final failure for a specific message.
    pub fn abandon(&mut self, message_id: &[u8; 32]) -> (r: bool)
        requires
            old(self).wf(),
        ensures
            final(self).wf(),
            r == old(self)@.in_flight.dom().contains(*message_id),
            final(self)@ == (WindowView {
                in_flight: old(self)@.in_flight.remove(*message_id),
                ..old(self)@
            }),
    {
        self.acknowledge(message_id)
    }

    /// Releases every entry older than the timeout as of `now`, and returns how
    /// many.
    pub fn release_expired(&mut self, now: u64) -> (n: usize)
        requires
            old(self).wf(),
        ensures
            final(self).wf(),
            final(self)@ == old(self)@.swept(now),
            n == old(self)@.in_flight.len() - final(self)@.in_flight.len(),
    {
        proof {
            lemma_unexpired_shrinks(self.in_flight@, now, self.timeout_secs);
        }
        let before: usize = self.in_flight.len();
        self.sweep_expired(now);
        before - self.in_flight.len()
    }

    /// Number of currently-outstanding envelopes (after expiry sweep).
    pub fn in_flight_count(&mut self, now: u64) -> (n: usize)
        requires
            old(self).wf(),
        ensures
            final(self).wf(),
            final(self)@ == old(self)@.swept(now),
            n == final(self)@.in_flight.len(),
    {
        self.sweep_expired(now);
        self.in_flight.len()
    }

    /// Whether the window is at capacity (after expiry sweep).
    pub fn is_at_capacity(&mut self, now: u64) -> (r: bool)
        requires
            old(self).wf(),
        ensures
            final(self).wf(),
            final(self)@ == old(self)@.swept(now),
            r == (final(self)@.in_flight.len() >= final(self)@.max_in_flight),
    {
        self.in_flight_count(now) >= self.max_in_flight
    }

    /// Configured capacity.
    pub fn max_in_flight(&self) -> (n: usize)
        ensures
            n == self@.max_in_flight,
    {
        self.max_in_flight
    }

    /// Configured release timeout (seconds).
    pub fn timeout_secs(&self) -> (n: u64)
        ensures
            n == self@.timeout_secs,
    {
        self.timeout_secs
    }
}

impl Default for DispatchWindow {
    fn default() -> (w: Self)
        ensures
            w.wf(),
            w@.max_in_flight == DEFAULT_MAX_IN_FLIGHT,
            w@.timeout_secs == DEFAULT_TIMEOUT_SECS,
            w@.in_flight == Map::<[u8; 32], u64>::empty(),
    {
        DispatchWindow {
            max_in_flight: DEFAULT_MAX_IN_FLIGHT,
            timeout_secs: DEFAULT_TIMEOUT_SECS,
            in_flight: IdMap::new(),
        }
    }
}

/// The window never holds more than its capacity.
pub proof fn window_never_exceeds_capacity(window: DispatchWindow)
    requires
        window.wf(),
    ensures
        window@.in_flight.len() <= window@.max_in_flight,
{
}

/// A dead relay's slots are reclaimed: once the timeout has passed since every
/// dispatch, a sweep leaves nothing outstanding.
pub proof fn dead_slots_are_reclaimed(window: WindowView, now: u64)
    requires
        forall|id: [u8; 32]|
            window.in_flight.dom().contains(id) ==> elapsed(now, #[trigger] window.in_flight[id])
                >= window.timeout_secs,
    ensures
        window.swept(now).in_flight == Map::<[u8; 32], u64>::empty(),
{
    assert(window.swept(now).in_flight =~= Map::<[u8; 32], u64>::empty());
}

/// A sweep releases exactly the envelopes that have been outstanding for the timeout or
/// longer; the others keep their dispatch time, and the window its capacity and timeout.
pub proof fn sweeps_release_the_timed_out(window: WindowView, now: u64, id: [u8; 32])
    requires
        window.timeout_secs > 0,
    ensures
        window.swept(now).in_flight.dom().contains(id) <==> window.in_flight.dom().contains(id)
            && now < window.in_flight[id] + window.timeout_secs,
        window.swept(now).in_flight.dom().contains(id) ==> window.swept(now).in_flight[id]
            == window.in_flight[id],
        window.swept(now).max_in_flight == window.max_in_flight,
        window.swept(now).timeout_secs == window.timeout_secs,
{
}

} // verus!
