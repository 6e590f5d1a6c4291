//! Sybil-resistant relay prioritization.
//!
//! A relay tracks a local reputation of the devices that hand it transactions. A
//! transaction that settles earns its submitter a reward; one that is rejected costs
//! it ten times as much. New devices start at zero, in the fair-share bucket; a
//! positive score puts a device in the priority bucket. Inflating a score takes valid
//! transactions, and those pay the ledger's base fee.
use crate::maps::IdMap;
use vstd::prelude::*;

verus! {

/// Tracks reputation scores of peers (identified by an opaque 32-byte pubkey or ID).
#[derive(Debug)]
pub struct ReputationTracker {
    scores: IdMap<i64>,
    in_flight: IdMap<[u8; 32]>,
}

/// What a tracker holds: the score of each peer, and the peer that submitted each
/// transaction in flight.
pub struct ReputationView {
    pub scores: Map<[u8; 32], i64>,
    pub in_flight: Map<[u8; 32], [u8; 32]>,
}

impl View for ReputationTracker {
    type V = ReputationView;

    closed spec fn view(&self) -> ReputationView {
        ReputationView { scores: self.scores@, in_flight: self.in_flight@ }
    }
}

impl ReputationView {
    /// The score of a peer; zero where nothing is known of it.
    pub open spec fn score(self, peer_id: [u8; 32]) -> i64 {
        if self.scores.dom().contains(peer_id) {
            self.scores[peer_id]
        } else {
            0
        }
    }

    /// The state after the result of a transaction is known.
    pub open spec fn settled(self, message_id: [u8; 32], success: bool) -> ReputationView {
        if self.in_flight.dom().contains(message_id) {
            let peer = self.in_flight[message_id];
            ReputationView {
                scores: self.scores.insert(peer, adjusted(self.score(peer), success)),
                in_flight: self.in_flight.remove(message_id),
            }
        } else {
            self
        }
    }
}

/// A score after a success or a failure, within the range of the type.
pub open spec fn adjusted(score: i64, success: bool) -> i64 {
    if success {
        if score + 10 > i64::MAX {
            i64::MAX
        } else {
            (score + 10) as i64
        }
    } else {
        if score - 100 < i64::MIN {
            i64::MIN
        } else {
            (score - 100) as i64
        }
    }
}

/// A score after the result of a transaction: ten more for a success, a hundred less
/// for a failure. The penalty exceeds the reward, so spamming does not pay.
pub fn adjust_score(score: i64, success: bool) -> (r: i64)
    ensures
        r == adjusted(score, success),
{
    if success {
        if score > i64::MAX - 10 {
            i64::MAX
        } else {
            score + 10
        }
    } else {
        if score < i64::MIN + 100 {
            i64::MIN
        } else {
            score - 100
        }
    }
}

impl ReputationTracker {
    /// The maps are well formed.
    pub closed spec fn wf(self) -> bool {
        self.scores.wf() && self.in_flight.wf()
    }

    /// Creates a new, empty reputation tracker.
    pub fn new() -> (t: Self)
        ensures
            t.wf(),
            t@ == (ReputationView { scores: Map::empty(), in_flight: Map::empty() }),
    {
        ReputationTracker { scores: IdMap::new(), in_flight: IdMap::new() }
    }

    /// Record that a specific peer submitted a transaction.
    pub fn record_submission(&mut self, peer_id: [u8; 32], message_id: [u8; 32])
        requires
            old(self).wf(),
        ensures
            final(self).wf(),
            final(self)@ == (ReputationView {
                in_flight: old(self)@.in_flight.insert(message_id, peer_id),
                ..old(self)@
            }),
    {
        self.in_flight.insert(message_id, peer_id);
    }

    /// Record the settlement result of a transaction. A transaction that nobody
    /// submitted changes nothing.
    pub fn apply_settlement_result(&mut self, message_id: [u8; 32], success: bool)
        requires
            old(self).wf(),
        ensures
            final(self).wf(),
            final(self)@ == old(self)@.settled(message_id, success),
    {
        let ghost before = self@;
        match self.in_flight.remove(&message_id) {
            Some(peer_id) => {
                let score: i64 = self.score(&peer_id);
                self.scores.insert(peer_id, adjust_score(score, success));
            },
            None => {
                assert(before.in_flight.remove(message_id) =~= before.in_flight);
            },
        }
    }

    /// Get the current reputation score of a peer.
    pub fn score(&self, peer_id: &[u8; 32]) -> (score: i64)
        requires
            self.wf(),
        ensures
            score == self@.score(*peer_id),
    {
        match self.scores.get(peer_id) {
            Some(score) => *score,
            None => 0,
        }
    }

    /// Determine if a peer qualifies for the "Priority" bucket.
    pub fn is_priority(&self, peer_id: &[u8; 32]) -> (r: bool)
        requires
            self.wf(),
        ensures
            r == (self@.score(*peer_id) > 0),
    {
        self.score(peer_id) > 0
    }
}

impl Default for ReputationTracker {
    fn default() -> (t: Self)
        ensures
            t.wf(),
            t@ == (ReputationView { scores: Map::empty(), in_flight: Map::empty() }),
    {
        Self::new()
    }
}

/// A result counts once: applying it again changes nothing.
pub proof fn results_count_once(state: ReputationView, message_id: [u8; 32], a: bool, b: bool)
    ensures
        state.settled(message_id, a).settled(message_id, b) == state.settled(message_id, a),
{
}

/// The result of a transaction changes the score of its submitter only.
pub proof fn results_touch_the_submitter_only(
    state: ReputationView,
    message_id: [u8; 32],
    success: bool,
    peer: [u8; 32],
)
    requires
        state.in_flight.dom().contains(message_id) ==> state.in_flight[message_id] != peer,
    ensures
        state.settled(message_id, success).score(peer) == state.score(peer),
{
}

/// Spamming does not pay: away from the ends of the range, a failure costs ten times
/// what a success earns.
pub proof fn penalty_exceeds_reward(score: i64)
    requires
        i64::MIN + 100 <= score <= i64::MAX - 10,
    ensures
        adjusted(score, true) - score == 10,
        score - adjusted(score, false) == 100,
{
}

/// The result of a transaction changes its submitter's score by ten up or a hundred down,
/// within the range of the type, and the transaction is no longer outstanding; the others
/// are. A transaction that nobody submitted changes nothing, and an unknown peer has the
/// score zero.
pub proof fn results_change_the_score(
    state: ReputationView,
    message_id: [u8; 32],
    other: [u8; 32],
    peer: [u8; 32],
)
    requires
        message_id != other,
    ensures
        state.in_flight.dom().contains(message_id) && state.in_flight[message_id] == peer ==> {
            &&& state.score(peer) <= i64::MAX - 10 ==> state.settled(message_id, true).score(peer)
                == state.score(peer) + 10
            &&& state.score(peer) > i64::MAX - 10 ==> state.settled(message_id, true).score(peer)
                == i64::MAX
            &&& state.score(peer) >= i64::MIN + 100 ==> state.settled(message_id, false).score(peer)
                == state.score(peer) - 100
            &&& state.score(peer) < i64::MIN + 100 ==> state.settled(message_id, false).score(peer)
                == i64::MIN
        },
        forall|success: bool|
            !(#[trigger] state.settled(message_id, success)).in_flight.dom().contains(message_id),
        forall|success: bool|
            (#[trigger] state.settled(message_id, success)).in_flight.dom().contains(other)
                == state.in_flight.dom().contains(other),
        !state.in_flight.dom().contains(message_id) ==> state.settled(message_id, true) == state
            && state.settled(message_id, false) == state,
        !state.scores.dom().contains(peer) ==> state.score(peer) == 0,
        state.scores.dom().contains(peer) ==> state.score(peer) == state.scores[peer],
{
}

} // verus!
