//! Deterministic off-chain resolution of a detected [`Conflict`].
//!
//! A decision procedure that lets every honest node in the mesh independently
//! reach the same conclusion about which of two conflicting envelopes wins, using
//! only evidence that plausibly propagated to it, with no coordination round.
//!
//! A [`RelayChainProof`] carries no signer identity of its own, so each proof is
//! paired with the relay's known public key at collection time, together with the
//! outcome of checking the proof's signature (see [`RelayObservation`]).
//!
//! Conflicts that cannot be settled here go to on-chain arbitration.
//! [`resolve_nway_conflict`] ranks every candidate's distinct-relay count against
//! the whole set in one pass, so its result cannot be intransitive.
use crate::bytes::bytes32_eq;
use crate::conflict::detector::{Conflict, NWayConflict};
use crate::conflict::vrf_tiebreak::{
    evaluator_fault, verify_tiebreak_with_evaluator, RelayVrfIdentity, TiebreakOutcome,
};
use crate::errors::SyncEngineError;
use crate::keys::{check_public_key, ed25519_key_fault};
use crate::message::RelayChainProof;
use crate::text::{append_decimal, append_signed, decimal, hex_of, hex_string, signed_decimal};
use vstd::prelude::*;
use vstd::string::*;

verus! {

/// Minimum number of distinct relays that must corroborate a side before that
/// side is eligible to win. A single relay, honest or compromised, can never win
/// a conflict outright.
pub const MIN_QUORUM: usize = 2;

/// A single relay's attestation that it relayed a specific envelope, paired with
/// the relay's known public key.
#[derive(Debug, Clone, PartialEq, Eq)]
pub struct RelayObservation {
    pub relay_pubkey: [u8; 32],
    pub proof: RelayChainProof,
    /// Whether the proof's signature is that of `relay_pubkey` over the envelope
    /// this observation is evidence for, the proof's chain hash and its sequence.
    pub attested: bool,
}

/// Everything a node has locally gathered about both sides of a [`Conflict`].
/// The decision is a pure function of the conflict and this evidence.
#[derive(Debug, Clone, PartialEq, Eq)]
pub struct ConflictEvidence {
    /// Timestamp as originally signed by the sender of `conflict.envelope_a`.
    /// Recorded for audit/escalation context; never decisive.
    pub envelope_a_timestamp: u64,
    pub envelope_b_timestamp: u64,
    /// Every relay observation that reached this node for the side identified by
    /// `conflict.envelope_a`. Order doesn't matter and repeated entries from the
    /// same relay are harmless.
    pub envelope_a_observations: Vec<RelayObservation>,
    pub envelope_b_observations: Vec<RelayObservation>,
}

impl RelayObservation {
    pub(crate) fn duplicate(&self) -> (r: RelayObservation)
        ensures
            r == *self,
    {
        RelayObservation {
            relay_pubkey: self.relay_pubkey,
            proof: self.proof,
            attested: self.attested,
        }
    }

    /// Whether the observation is evidence for a conflict on `sequence`: it speaks
    /// of that sequence, names an ed25519 key, and is attested by it.
    pub open spec fn counts(self, sequence: i64) -> bool {
        &&& self.proof.sequence == sequence as u64
        &&& ed25519_key_fault(self.relay_pubkey@) is None
        &&& self.attested
    }
}

/// The relays whose observations are evidence for a conflict on `sequence`.
pub open spec fn corroborating_relays(
    observations: Seq<RelayObservation>,
    sequence: i64,
) -> Set<[u8; 32]>
    decreases observations.len(),
{
    if observations.len() == 0 {
        Set::empty()
    } else {
        let before = corroborating_relays(observations.drop_last(), sequence);
        if observations.last().counts(sequence) {
            before.insert(observations.last().relay_pubkey)
        } else {
            before
        }
    }
}

/// The number of distinct relays that corroborate a side.
pub open spec fn corroboration(observations: Seq<RelayObservation>, sequence: i64) -> nat {
    corroborating_relays(observations, sequence).len()
}

/// The distinct relays among the observations that are evidence for a conflict on
/// `conflict_sequence`. Relays are counted, not proofs: resubmitting the same
/// relay's proof gains nothing.
pub fn count_distinct_valid_relays(
    observations: &[RelayObservation],
    conflict_sequence: i64,
) -> (relays: Vec<[u8; 32]>)
    ensures
        relays@.no_duplicates(),
        relays@.to_set() == corroborating_relays(observations@, conflict_sequence),
        relays@.len() == corroboration(observations@, conflict_sequence),
{
    let expected_sequence: u64 = conflict_sequence as u64;
    let mut relays: Vec<[u8; 32]> = Vec::new();
    let mut i: usize = 0;
    assert(relays@.to_set() =~= Set::empty());
    while i < observations.len()
        invariant
            i <= observations.len(),
            expected_sequence == conflict_sequence as u64,
            relays@.no_duplicates(),
            relays@.to_set() == corroborating_relays(
                observations@.subrange(0, i as int),
                conflict_sequence,
            ),
        decreases observations.len() - i,
    {
        let obs = &observations[i];
        let ghost upto = observations@.subrange(0, i + 1);
        assert(upto.drop_last() =~= observations@.subrange(0, i as int));
        if obs.proof.sequence == expected_sequence && check_public_key(&obs.relay_pubkey).is_ok()
            && obs.attested {
            insert_distinct(&mut relays, obs.relay_pubkey);
        }
        i += 1;
    }
    assert(observations@.subrange(0, i as int) =~= observations@);
    proof {
        relays@.unique_seq_to_set();
    }
    relays
}

/// Add `key` to a list of distinct keys, unless it is there.
pub(crate) fn insert_distinct(list: &mut Vec<[u8; 32]>, key: [u8; 32])
    requires
        old(list)@.no_duplicates(),
    ensures
        final(list)@.no_duplicates(),
        final(list)@.to_set() == old(list)@.to_set().insert(key),
{
    let mut i: usize = 0;
    while i < list.len()
        invariant
            i <= list.len(),
            list@ == old(list)@,
            list@.no_duplicates(),
            forall|j: int| 0 <= j < i ==> #[trigger] list@[j] != key,
        decreases list.len() - i,
    {
        if bytes32_eq(&list[i], &key) {
            assert(list@.contains(key));
            assert(list@.to_set() =~= list@.to_set().insert(key));
            return ;
        }
        i += 1;
    }
    list.push(key);
    proof {
        let before = old(list)@;
        assert forall|k: [u8; 32]| list@.to_set().contains(k) <==> before.to_set().insert(
            key,
        ).contains(k) by {
            if before.contains(k) {
                let j = choose|j: int| 0 <= j < before.len() && before[j] == k;
                assert(list@[j] == k);
            }
            assert(list@[before.len() as int] == key);
        }
        assert(list@.to_set() =~= before.to_set().insert(key));
    }
}

/// How a conflict stands on relay-quorum evidence alone.
#[derive(Debug, Clone, PartialEq, Eq)]
pub enum QuorumStanding {
    /// One side has at least [`MIN_QUORUM`] distinct relays and strictly more
    /// than the other.
    Decisive([u8; 32]),
    /// Both sides reached [`MIN_QUORUM`] and have the same distinct-relay count.
    /// This, and only this, is where a VRF tie-break may be applied.
    QuorumTie {
        /// The shared distinct-relay count of the two sides.
        distinct_relays_each: usize,
    },
    /// At least one side is below [`MIN_QUORUM`] and neither won. Escalate
    /// on-chain.
    Insufficient {
        /// Distinct verified relays for `conflict.envelope_a`.
        a: usize,
        /// Distinct verified relays for `conflict.envelope_b`.
        b: usize,
    },
}

/// The number of distinct relays for `conflict.envelope_a`.
pub open spec fn relays_for_a(conflict: Conflict, evidence: ConflictEvidence) -> nat {
    corroboration(evidence.envelope_a_observations@, conflict.sequence)
}

/// The number of distinct relays for `conflict.envelope_b`.
pub open spec fn relays_for_b(conflict: Conflict, evidence: ConflictEvidence) -> nat {
    corroboration(evidence.envelope_b_observations@, conflict.sequence)
}

/// The standing of a conflict with `a` and `b` corroborating relays.
pub open spec fn standing_of(conflict: Conflict, a: nat, b: nat) -> QuorumStanding {
    if a >= MIN_QUORUM && a > b {
        QuorumStanding::Decisive(conflict.envelope_a)
    } else if b >= MIN_QUORUM && b > a {
        QuorumStanding::Decisive(conflict.envelope_b)
    } else if a >= MIN_QUORUM && b >= MIN_QUORUM {
        QuorumStanding::QuorumTie { distinct_relays_each: a as usize }
    } else {
        QuorumStanding::Insufficient { a: a as usize, b: b as usize }
    }
}

/// Weigh a conflict by the number of distinct relays that corroborate each side.
pub fn weigh(conflict: &Conflict, n_a: usize, n_b: usize) -> (standing: QuorumStanding)
    ensures
        standing == standing_of(*conflict, n_a as nat, n_b as nat),
{
    if n_a >= MIN_QUORUM && n_a > n_b {
        QuorumStanding::Decisive(conflict.envelope_a)
    } else if n_b >= MIN_QUORUM && n_b > n_a {
        QuorumStanding::Decisive(conflict.envelope_b)
    } else if n_a >= MIN_QUORUM && n_b >= MIN_QUORUM {
        // Neither side is strictly greater and both cleared quorum, so the
        // counts are equal.
        QuorumStanding::QuorumTie { distinct_relays_each: n_a }
    } else {
        QuorumStanding::Insufficient { a: n_a, b: n_b }
    }
}

fn standing_with_counts(conflict: &Conflict, evidence: &ConflictEvidence) -> (r: (
    QuorumStanding,
    usize,
    usize,
))
    ensures
        r.1 == relays_for_a(*conflict, *evidence),
        r.2 == relays_for_b(*conflict, *evidence),
        r.0 == standing_of(*conflict, r.1 as nat, r.2 as nat),
{
    let n_a: usize = count_distinct_valid_relays(
        evidence.envelope_a_observations.as_slice(),
        conflict.sequence,
    ).len();
    let n_b: usize = count_distinct_valid_relays(
        evidence.envelope_b_observations.as_slice(),
        conflict.sequence,
    ).len();
    (weigh(conflict, n_a, n_b), n_a, n_b)
}

/// Weigh `conflict` on relay-quorum evidence alone, without deciding it.
pub fn quorum_standing(conflict: &Conflict, evidence: &ConflictEvidence) -> (s: QuorumStanding)
    ensures
        relays_for_a(*conflict, *evidence) <= usize::MAX,
        relays_for_b(*conflict, *evidence) <= usize::MAX,
        s == standing_of(
            *conflict,
            relays_for_a(*conflict, *evidence),
            relays_for_b(*conflict, *evidence),
        ),
{
    standing_with_counts(conflict, evidence).0
}

/// The message of a conflict that relay evidence does not decide.
pub open spec fn unresolved_message(conflict: Conflict, evidence: ConflictEvidence) -> Seq<char> {
    "conflict on account "@ + conflict.source_account@ + " sequence "@ + signed_decimal(
        conflict.sequence as int,
    ) + " between "@ + hex_of(conflict.envelope_a@) + " (timestamp "@ + decimal(
        evidence.envelope_a_timestamp as nat,
    ) + ", "@ + decimal(relays_for_a(conflict, evidence))
        + " verified distinct relay(s)) and "@ + hex_of(conflict.envelope_b@) + " (timestamp "@
        + decimal(evidence.envelope_b_timestamp as nat) + ", "@ + decimal(
        relays_for_b(conflict, evidence),
    )
        + " verified distinct relay(s)) could not be resolved off-chain: a winning side needs at least "@
        + decimal(MIN_QUORUM as nat)
        + " distinct corroborating relays and strictly more than the other side"@
}

/// Attempt to resolve `conflict` off-chain, returning the `message_id` of the
/// envelope determined to be valid.
///
/// Observations that do not verify or speak of another sequence are discarded;
/// the rest are deduplicated by relay. A side wins iff it has at least
/// [`MIN_QUORUM`] distinct relays and strictly more than the other side. Envelope
/// timestamps are recorded in the error, and decide nothing: they are
/// self-reported.
pub fn resolve_conflict(conflict: &Conflict, evidence: &ConflictEvidence) -> (r: Result<
    [u8; 32],
    SyncEngineError,
>)
    ensures
        match standing_of(
            *conflict,
            relays_for_a(*conflict, *evidence),
            relays_for_b(*conflict, *evidence),
        ) {
            QuorumStanding::Decisive(winner) => r matches Ok(w) && w == winner,
            _ => r matches Err(SyncEngineError::UnresolvedConflict(msg)) && msg@
                == unresolved_message(*conflict, *evidence),
        },
{
    let (standing, n_a, n_b) = standing_with_counts(conflict, evidence);
    match standing {
        QuorumStanding::Decisive(winner) => Ok(winner),
        _ => {
            let mut s: String = "conflict on account ".to_owned();
            s.append(conflict.source_account.as_str());
            s.append(" sequence ");
            append_signed(&mut s, conflict.sequence);
            s.append(" between ");
            s.append(hex_string(conflict.envelope_a.as_slice()).as_str());
            s.append(" (timestamp ");
            append_decimal(&mut s, evidence.envelope_a_timestamp);
            s.append(", ");
            append_decimal(&mut s, n_a as u64);
            s.append(" verified distinct relay(s)) and ");
            s.append(hex_string(conflict.envelope_b.as_slice()).as_str());
            s.append(" (timestamp ");
            append_decimal(&mut s, evidence.envelope_b_timestamp);
            s.append(", ");
            append_decimal(&mut s, n_b as u64);
            s.append(
                " verified distinct relay(s)) could not be resolved off-chain: a winning side needs at least ",
            );
            append_decimal(&mut s, MIN_QUORUM as u64);
            s.append(" distinct corroborating relays and strictly more than the other side");
            Err(SyncEngineError::UnresolvedConflict(s))
        },
    }
}

/// The words that every message about the slot of a conflict starts with.
pub open spec fn slot_prefix(conflict: Conflict) -> Seq<char> {
    "conflict on account "@ + conflict.source_account@ + " sequence "@ + signed_decimal(
        conflict.sequence as int,
    )
}

fn slot_prefix_string(conflict: &Conflict) -> (s: String)
    ensures
        s@ == slot_prefix(*conflict),
{
    let mut s: String = "conflict on account ".to_owned();
    s.append(conflict.source_account.as_str());
    s.append(" sequence ");
    append_signed(&mut s, conflict.sequence);
    s
}

/// What [`resolve_conflict_with_tiebreak`] decides: the winner, or the message of
/// an unresolved conflict. A tie-break is taken by what its checks find.
pub open spec fn decision_with_tiebreak(
    conflict: Conflict,
    a: nat,
    b: nat,
    tiebreak: Option<(TiebreakOutcome, Option<Seq<char>>)>,
) -> Result<[u8; 32], Seq<char>> {
    match standing_of(conflict, a, b) {
        QuorumStanding::Decisive(winner) => Ok(winner),
        QuorumStanding::QuorumTie { .. } => match tiebreak {
            None => Err(
                slot_prefix(conflict) + " is a quorum-met tie ("@ + decimal(a)
                    + " distinct relays each); no VRF tie-break was supplied by the selected evaluator, so it escalates on-chain"@,
            ),
            Some((outcome, None)) => Ok(outcome.winner),
            Some((_, Some(fault))) => Err(
                slot_prefix(conflict) + " is a quorum-met tie ("@ + decimal(a)
                    + " distinct relays each), but the supplied VRF tie-break did not verify: "@ + (
                "VRF conflict tie-break is invalid: "@ + fault),
            ),
        },
        QuorumStanding::Insufficient { .. } => Err(
            slot_prefix(conflict) + " could not be resolved off-chain: "@ + decimal(a) + " vs "@
                + decimal(b) + " verified distinct relay(s), and a winning side needs at least "@
                + decimal(MIN_QUORUM as nat)
                + "; not a quorum-met tie, so the VRF tie-break does not apply"@,
        ),
    }
}

/// The complete off-chain decision order for a two-envelope [`Conflict`], with the
/// VRF tie-break as the explicit last-resort step:
///
/// 1. relay quorum and strict majority; the tie-break is never consulted where
///    one side wins;
/// 2. the VRF tie-break, applied only to a quorum-met tie for which a valid
///    tie-break of the selected evaluator was supplied;
/// 3. anything else is unresolved and escalates on-chain.
///
/// `candidate_relays` are the committed identities of the relays that
/// corroborated this conflict.
pub fn resolve_conflict_with_tiebreak(
    conflict: &Conflict,
    evidence: &ConflictEvidence,
    tiebreak: Option<&TiebreakOutcome>,
    candidate_relays: &[RelayVrfIdentity],
) -> (r: Result<[u8; 32], SyncEngineError>)
    ensures
        match decision_with_tiebreak(
            *conflict,
            relays_for_a(*conflict, *evidence),
            relays_for_b(*conflict, *evidence),
            match tiebreak {
                None => None,
                Some(o) => Some((*o, evaluator_fault(*conflict, *o, candidate_relays@))),
            },
        ) {
            Ok(winner) => r matches Ok(w) && w == winner,
            Err(message) => r matches Err(SyncEngineError::UnresolvedConflict(msg)) && msg@
                == message,
        },
{
    let (standing, _, _) = standing_with_counts(conflict, evidence);
    match standing {
        QuorumStanding::Decisive(winner) => Ok(winner),
        QuorumStanding::QuorumTie { distinct_relays_each } => match tiebreak {
            Some(outcome) => {
                match verify_tiebreak_with_evaluator(conflict, outcome, candidate_relays) {
                    Ok(_) => Ok(outcome.winner),
                    Err(e) => {
                        let mut s = slot_prefix_string(conflict);
                        s.append(" is a quorum-met tie (");
                        append_decimal(&mut s, distinct_relays_each as u64);
                        s.append(
                            " distinct relays each), but the supplied VRF tie-break did not verify: ",
                        );
                        s.append(e.to_string().as_str());
                        Err(SyncEngineError::UnresolvedConflict(s))
                    },
                }
            },
            None => {
                let mut s = slot_prefix_string(conflict);
                s.append(" is a quorum-met tie (");
                append_decimal(&mut s, distinct_relays_each as u64);
                s.append(
                    " distinct relays each); no VRF tie-break was supplied by the selected evaluator, so it escalates on-chain",
                );
                Err(SyncEngineError::UnresolvedConflict(s))
            },
        },
        QuorumStanding::Insufficient { a, b } => {
            let mut s = slot_prefix_string(conflict);
            s.append(" could not be resolved off-chain: ");
            append_decimal(&mut s, a as u64);
            s.append(" vs ");
            append_decimal(&mut s, b as u64);
            s.append(" verified distinct relay(s), and a winning side needs at least ");
            append_decimal(&mut s, MIN_QUORUM as u64);
            s.append("; not a quorum-met tie, so the VRF tie-break does not apply");
            Err(SyncEngineError::UnresolvedConflict(s))
        },
    }
}

// ---------------------------------------------------------------------------
// N-way conflicts
// ---------------------------------------------------------------------------

/// Evidence gathered for a single candidate envelope within an [`NWayConflict`].
#[derive(Debug, Clone, PartialEq, Eq)]
pub struct CandidateEvidence {
    pub message_id: [u8; 32],
    /// Timestamp as originally signed by this candidate's sender. Recorded for
    /// audit/escalation context only.
    pub timestamp: u64,
    /// Every relay observation this node has gathered for this candidate.
    pub observations: Vec<RelayObservation>,
}

/// The envelopes that evidence was given for.
pub open spec fn evidence_ids(evidence: Seq<CandidateEvidence>) -> Seq<[u8; 32]> {
    evidence.map_values(|e: CandidateEvidence| e.message_id)
}

/// The distinct-relay count of each candidate.
pub open spec fn candidate_counts(evidence: Seq<CandidateEvidence>, sequence: i64) -> Seq<nat> {
    evidence.map_values(|e: CandidateEvidence| corroboration(e.observations@, sequence))
}

/// Machine integers as counts.
pub open spec fn as_counts(counts: Seq<usize>) -> Seq<nat> {
    counts.map_values(|n: usize| n as nat)
}

/// Candidate `i` has more than every other and reaches quorum.
pub open spec fn strict_top(counts: Seq<nat>, i: int) -> bool {
    &&& 0 <= i < counts.len()
    &&& counts[i] >= MIN_QUORUM
    &&& forall|j: int| 0 <= j < counts.len() && j != i ==> #[trigger] counts[j] < counts[i]
}

/// The message of an N-way conflict with evidence for other envelopes.
pub open spec fn mismatch_message(conflict: NWayConflict) -> Seq<char> {
    "evidence provided for account "@ + conflict.source_account@ + " sequence "@ + signed_decimal(
        conflict.sequence as int,
    ) + " does not match the "@ + decimal(conflict.message_ids@.len())
        + " conflicting envelope(s) on that slot"@
}

/// The message of an N-way conflict without a winner.
pub open spec fn no_winner_message(conflict: NWayConflict) -> Seq<char> {
    "conflict on account "@ + conflict.source_account@ + " sequence "@ + signed_decimal(
        conflict.sequence as int,
    ) + " among "@ + decimal(conflict.message_ids@.len())
        + " candidates could not be resolved off-chain: a winning envelope needs at least "@
        + decimal(MIN_QUORUM as nat)
        + " distinct corroborating relays and strictly more than every other candidate"@
}

/// Whether the evidence is for exactly the given envelopes, each as often as it
/// is listed.
fn evidence_matches(message_ids: &Vec<[u8; 32]>, evidence: &[CandidateEvidence]) -> (r: bool)
    ensures
        r == (message_ids@.to_multiset() == evidence_ids(evidence@).to_multiset()),
{
    broadcast use vstd::seq_lib::group_to_multiset_ensures;
    broadcast use vstd::multiset::group_multiset_axioms;

    let ghost given = evidence_ids(evidence@);
    if message_ids.len() != evidence.len() {
        assert(message_ids@.to_multiset().len() != given.to_multiset().len());
        return false;
    }
    let mut rest: Vec<[u8; 32]> = crate::bytes::copy_prefix32(
        message_ids.as_slice(),
        message_ids.len(),
    );
    assert(rest@ =~= message_ids@);
    let mut i: usize = 0;
    assert(given.subrange(0, 0) =~= Seq::empty());
    assert(message_ids@.to_multiset() =~= rest@.to_multiset().add(
        given.subrange(0, 0).to_multiset(),
    ));
    while i < evidence.len()
        invariant
            i <= evidence.len(),
            given == evidence_ids(evidence@),
            rest.len() + i == message_ids.len() == evidence.len(),
            message_ids@.to_multiset() == rest@.to_multiset().add(
                given.subrange(0, i as int).to_multiset(),
            ),
        decreases evidence.len() - i,
    {
        broadcast use vstd::seq_lib::group_to_multiset_ensures;
        broadcast use vstd::multiset::group_multiset_axioms;

        let id = evidence[i].message_id;
        let ghost seen = given.subrange(0, i as int);
        let ghost next = given.subrange(0, i + 1);
        assert(next =~= seen.push(id));
        let mut k: usize = 0;
        while k < rest.len() && !bytes32_eq(&rest[k], &id)
            invariant
                k <= rest.len(),
                forall|m: int| 0 <= m < k ==> #[trigger] rest@[m] != id,
            decreases rest.len() - k,
        {
            k += 1;
        }
        if k == rest.len() {
            proof {
                assert(!rest@.contains(id));
                assert(rest@.to_multiset().count(id) == 0);
                let tail = given.subrange(i as int, given.len() as int);
                assert(given =~= seen + tail);
                vstd::seq_lib::lemma_multiset_commutative(seen, tail);
                assert(tail[0] == id);
                assert(tail.contains(id));
                assert(tail.to_multiset().count(id) > 0);
                assert(given.to_multiset().count(id) > seen.to_multiset().count(id));
                assert(message_ids@.to_multiset().count(id) == seen.to_multiset().count(id));
            }
            return false;
        }
        let ghost before = rest@;
        rest.remove(k);
        proof {
            assert(before[k as int] == id);
            assert(before.to_multiset().count(id) > 0) by {
                assert(before.contains(id));
            }
            assert(rest@.to_multiset() =~= before.to_multiset().remove(id));
            assert(next.to_multiset() =~= seen.to_multiset().insert(id));
            assert(message_ids@.to_multiset() =~= rest@.to_multiset().add(next.to_multiset()));
        }
        i += 1;
    }
    proof {
        assert(given.subrange(0, i as int) =~= given);
        assert(rest@ =~= Seq::empty());
        assert(message_ids@.to_multiset() =~= given.to_multiset());
    }
    true
}

/// The index of the candidate that is ahead of every other with at least
/// [`MIN_QUORUM`] distinct relays.
pub fn strict_leader(counts: &[usize]) -> (r: Option<usize>)
    ensures
        match r {
            Some(i) => strict_top(as_counts(counts@), i as int),
            None => forall|i: int| !strict_top(as_counts(counts@), i),
        },
{
    let ghost views = as_counts(counts@);
    if counts.len() == 0 {
        return None;
    }
    let mut best: usize = 0;
    let mut unique = true;
    let mut i: usize = 1;
    while i < counts.len()
        invariant
            1 <= i <= counts.len(),
            best < i,
            views == as_counts(counts@),
            forall|j: int| 0 <= j < i ==> #[trigger] views[j] <= views[best as int],
            unique ==> forall|j: int|
                0 <= j < i && j != best ==> #[trigger] views[j] < views[best as int],
            !unique ==> exists|j: int|
                0 <= j < i && j != best && #[trigger] views[j] == views[best as int],
        decreases counts.len() - i,
    {
        assert(views[i as int] == counts[i as int] && views[best as int] == counts[best as int]);
        if counts[i] > counts[best] {
            best = i;
            unique = true;
        } else if counts[i] == counts[best] {
            unique = false;
        }
        i += 1;
    }
    assert(views[best as int] == counts[best as int]);
    if unique && counts[best] >= MIN_QUORUM {
        return Some(best);
    }
    proof {
        assert forall|w: int| !strict_top(views, w) by {
            if strict_top(views, w) {
                if w != best {
                    assert(views[best as int] < views[w]);
                } else if !unique {
                    let j = choose|j: int|
                        0 <= j < i && j != best && #[trigger] views[j] == views[best as int];
                    assert(views[j] < views[w]);
                }
            }
        }
    }
    None
}

/// Resolve an [`NWayConflict`] to at most one winner: the candidate with the
/// strict-maximum distinct-relay count across the entire candidate set, provided
/// that count is at least [`MIN_QUORUM`]. If no candidate reaches quorum, or if
/// two or more tie for the top, the whole slot is unresolved.
///
/// `evidence` must contain exactly one [`CandidateEvidence`] per envelope in
/// `conflict.message_ids`; mismatched input is reported as an unresolved conflict.
pub fn resolve_nway_conflict(conflict: &NWayConflict, evidence: &[CandidateEvidence]) -> (r: Result<
    [u8; 32],
    SyncEngineError,
>)
    requires
        conflict.message_ids@.len() > 0 || evidence@.len() > 0,
    ensures
        r is Ok <==> {
            &&& conflict.message_ids@.to_multiset() == evidence_ids(evidence@).to_multiset()
            &&& exists|i: int| strict_top(candidate_counts(evidence@, conflict.sequence), i)
        },
        r matches Ok(winner) ==> exists|i: int|
            #![trigger strict_top(candidate_counts(evidence@, conflict.sequence), i)]
            strict_top(candidate_counts(evidence@, conflict.sequence), i)
                && evidence@[i].message_id == winner,
        r matches Err(e) ==> e matches SyncEngineError::UnresolvedConflict(msg) && msg@ == (
        if conflict.message_ids@.to_multiset() == evidence_ids(evidence@).to_multiset() {
            no_winner_message(*conflict)
        } else {
            mismatch_message(*conflict)
        }),
{
    if !evidence_matches(&conflict.message_ids, evidence) {
        let mut s: String = "evidence provided for account ".to_owned();
        s.append(conflict.source_account.as_str());
        s.append(" sequence ");
        append_signed(&mut s, conflict.sequence);
        s.append(" does not match the ");
        append_decimal(&mut s, conflict.message_ids.len() as u64);
        s.append(" conflicting envelope(s) on that slot");
        return Err(SyncEngineError::UnresolvedConflict(s));
    }
    let mut counts: Vec<usize> = Vec::new();
    let mut i: usize = 0;
    while i < evidence.len()
        invariant
            i <= evidence.len(),
            counts.len() == i,
            forall|j: int|
                0 <= j < i ==> #[trigger] counts[j] == corroboration(
                    evidence@[j].observations@,
                    conflict.sequence,
                ),
        decreases evidence.len() - i,
    {
        let n: usize = count_distinct_valid_relays(
            evidence[i].observations.as_slice(),
            conflict.sequence,
        ).len();
        counts.push(n);
        i += 1;
    }
    assert(as_counts(counts@) =~= candidate_counts(
        evidence@,
        conflict.sequence,
    ));
    match strict_leader(counts.as_slice()) {
        Some(winner) => Ok(evidence[winner].message_id),
        None => {
            let mut s: String = "conflict on account ".to_owned();
            s.append(conflict.source_account.as_str());
            s.append(" sequence ");
            append_signed(&mut s, conflict.sequence);
            s.append(" among ");
            append_decimal(&mut s, conflict.message_ids.len() as u64);
            s.append(
                " candidates could not be resolved off-chain: a winning envelope needs at least ",
            );
            append_decimal(&mut s, MIN_QUORUM as u64);
            s.append(
                " distinct corroborating relays and strictly more than every other candidate",
            );
            Err(SyncEngineError::UnresolvedConflict(s))
        },
    }
}

// ---------------------------------------------------------------------------
// Laws
// ---------------------------------------------------------------------------

/// The relays that corroborate a side are those of the observations that count.
pub proof fn corroborating_relays_are_those_that_count(
    observations: Seq<RelayObservation>,
    sequence: i64,
    relay: [u8; 32],
)
    ensures
        corroborating_relays(observations, sequence).finite(),
        corroborating_relays(observations, sequence).contains(relay) <==> exists|i: int|
            0 <= i < observations.len() && (#[trigger] observations[i]).counts(sequence)
                && observations[i].relay_pubkey == relay,
    decreases observations.len(),
{
    if observations.len() > 0 {
        let shorter = observations.drop_last();
        corroborating_relays_are_those_that_count(shorter, sequence, relay);
        if corroborating_relays(shorter, sequence).contains(relay) {
            let i = choose|i: int|
                0 <= i < shorter.len() && (#[trigger] shorter[i]).counts(sequence)
                    && shorter[i].relay_pubkey == relay;
            assert(observations[i].counts(sequence));
        }
        if exists|i: int|
            0 <= i < observations.len() && (#[trigger] observations[i]).counts(sequence)
                && observations[i].relay_pubkey == relay {
            let i = choose|i: int|
                0 <= i < observations.len() && (#[trigger] observations[i]).counts(sequence)
                    && observations[i].relay_pubkey == relay;
            if i < shorter.len() {
                assert(shorter[i].counts(sequence));
            }
        }
    }
}

/// Evidence is a set: its order and repetitions do not matter.
pub proof fn evidence_order_does_not_matter(
    a: Seq<RelayObservation>,
    b: Seq<RelayObservation>,
    sequence: i64,
)
    requires
        forall|o: RelayObservation| a.contains(o) <==> b.contains(o),
    ensures
        corroborating_relays(a, sequence) == corroborating_relays(b, sequence),
        corroboration(a, sequence) == corroboration(b, sequence),
{
    assert forall|relay: [u8; 32]| corroborating_relays(a, sequence).contains(relay)
        <==> corroborating_relays(b, sequence).contains(relay) by {
        corroborating_relays_are_those_that_count(a, sequence, relay);
        corroborating_relays_are_those_that_count(b, sequence, relay);
        if corroborating_relays(a, sequence).contains(relay) {
            let i = choose|i: int|
                0 <= i < a.len() && (#[trigger] a[i]).counts(sequence) && a[i].relay_pubkey
                    == relay;
            assert(a.contains(a[i]));
            let j = choose|j: int| 0 <= j < b.len() && b[j] == a[i];
            assert(b[j].counts(sequence));
        }
        if corroborating_relays(b, sequence).contains(relay) {
            let i = choose|i: int|
                0 <= i < b.len() && (#[trigger] b[i]).counts(sequence) && b[i].relay_pubkey
                    == relay;
            assert(b.contains(b[i]));
            let j = choose|j: int| 0 <= j < a.len() && a[j] == b[i];
            assert(a[j].counts(sequence));
        }
    }
    assert(corroborating_relays(a, sequence) =~= corroborating_relays(b, sequence));
}

/// One relay keypair counts once, however many proofs it mints: observations that
/// all name the same relay never add up to more than one.
pub proof fn one_relay_counts_once(
    observations: Seq<RelayObservation>,
    sequence: i64,
    relay: [u8; 32],
)
    requires
        forall|i: int|
            0 <= i < observations.len() ==> (#[trigger] observations[i]).relay_pubkey == relay,
    ensures
        corroboration(observations, sequence) <= 1,
{
    let found = corroborating_relays(observations, sequence);
    corroborating_relays_are_those_that_count(observations, sequence, relay);
    assert(found.subset_of(set![relay])) by {
        assert forall|k: [u8; 32]| found.contains(k) implies set![relay].contains(k) by {
            corroborating_relays_are_those_that_count(observations, sequence, k);
        }
    }
    vstd::set_lib::lemma_len_subset(found, set![relay]);
}

/// A side that at most one relay corroborates never wins on relay evidence, not
/// even against a side with none.
pub proof fn single_relay_never_wins(conflict: Conflict, a: nat, b: nat)
    requires
        conflict.envelope_a != conflict.envelope_b,
    ensures
        a <= 1 ==> standing_of(conflict, a, b) != QuorumStanding::Decisive(conflict.envelope_a),
        b <= 1 ==> standing_of(conflict, a, b) != QuorumStanding::Decisive(conflict.envelope_b),
{
}

/// A tie is never decided by relay evidence.
pub proof fn ties_are_never_decided(conflict: Conflict, n: nat)
    ensures
        standing_of(conflict, n, n) !is Decisive,
{
}

/// Which side is labelled `a` does not matter: with the sides exchanged, the same
/// envelope wins.
pub proof fn resolution_ignores_labels(conflict: Conflict, swapped: Conflict, a: nat, b: nat)
    requires
        swapped.envelope_a == conflict.envelope_b,
        swapped.envelope_b == conflict.envelope_a,
    ensures
        match standing_of(conflict, a, b) {
            QuorumStanding::Decisive(w) => standing_of(swapped, b, a) == QuorumStanding::Decisive(
                w,
            ),
            QuorumStanding::QuorumTie { .. } => standing_of(swapped, b, a) == standing_of(
                conflict,
                a,
                b,
            ),
            QuorumStanding::Insufficient { .. } => standing_of(swapped, b, a) is Insufficient,
        },
{
}

/// An N-way conflict has at most one winner, so the outcome cannot be
/// intransitive.
pub proof fn nway_winner_is_unique(counts: Seq<nat>, i: int, j: int)
    requires
        strict_top(counts, i),
        strict_top(counts, j),
    ensures
        i == j,
{
    if i != j {
        assert(counts[i] < counts[j]);
    }
}

/// With two candidates, the N-way decision is the pairwise decision.
pub proof fn two_way_agrees_with_pairwise(conflict: Conflict, a: nat, b: nat)
    ensures
        strict_top(seq![a, b], 0) <==> a >= MIN_QUORUM && a > b,
        strict_top(seq![a, b], 1) <==> b >= MIN_QUORUM && b > a,
        strict_top(seq![a, b], 0) ==> standing_of(conflict, a, b) == QuorumStanding::Decisive(
            conflict.envelope_a,
        ),
        strict_top(seq![a, b], 1) ==> standing_of(conflict, a, b) == QuorumStanding::Decisive(
            conflict.envelope_b,
        ),
        standing_of(conflict, a, b) is Decisive ==> exists|i: int| strict_top(seq![a, b], i),
{
    let counts = seq![a, b];
    assert(counts[0] == a && counts[1] == b);
    if a >= MIN_QUORUM && a > b {
        assert(strict_top(counts, 0));
    }
    if b >= MIN_QUORUM && b > a {
        assert(strict_top(counts, 1));
    }
}

/// A tie-break, valid or not, changes nothing where relay evidence decides, and
/// decides nothing where a side lacks quorum.
pub proof fn tiebreak_applies_to_quorum_ties_only(
    conflict: Conflict,
    a: nat,
    b: nat,
    tiebreak: Option<(TiebreakOutcome, Option<Seq<char>>)>,
)
    ensures
        standing_of(conflict, a, b) !is QuorumTie ==> decision_with_tiebreak(
            conflict,
            a,
            b,
            tiebreak,
        ) == decision_with_tiebreak(conflict, a, b, None),
{
}

/// The standing is fixed by the two counts: a side wins exactly where at least two relays
/// corroborate it and fewer the other; equal sides with at least two relays each are a
/// quorum tie of that many; and evidence is insufficient exactly where neither side has
/// more than one relay.
pub proof fn standing_follows_the_counts(conflict: Conflict, a: nat, b: nat)
    requires
        conflict.envelope_a != conflict.envelope_b,
        a <= usize::MAX,
        b <= usize::MAX,
    ensures
        ({
            let standing = standing_of(conflict, a, b);
            &&& standing == QuorumStanding::Decisive(conflict.envelope_a) <==> a >= 2 && b < a
            &&& standing == QuorumStanding::Decisive(conflict.envelope_b) <==> b >= 2 && a < b
            &&& standing is QuorumTie <==> a == b && a >= 2
            &&& standing is QuorumTie ==> standing == (QuorumStanding::QuorumTie {
                distinct_relays_each: a as usize,
            })
            &&& standing is Insufficient <==> a <= 1 && b <= 1
            &&& standing is Insufficient ==> standing == (QuorumStanding::Insufficient {
                a: a as usize,
                b: b as usize,
            })
        }),
{
}

/// A valid tie-break decides every tie of at least two relays on each side, and only those:
/// an envelope is awarded exactly where it leads with at least two relays, or where the
/// sides are level at two or more and the tie-break was found valid and names it.
pub proof fn awards_need_a_lead_or_a_valid_tiebreak(
    conflict: Conflict,
    a: nat,
    b: nat,
    tiebreak: Option<(TiebreakOutcome, Option<Seq<char>>)>,
    winner: [u8; 32],
)
    requires
        a <= usize::MAX,
        b <= usize::MAX,
    ensures
        decision_with_tiebreak(conflict, a, b, tiebreak) == Ok::<[u8; 32], Seq<char>>(winner)
            <==> {
            ||| a >= 2 && a > b && winner == conflict.envelope_a
            ||| b >= 2 && b > a && winner == conflict.envelope_b
            ||| a >= 2 && a == b && (tiebreak matches Some((outcome, None)) && outcome.winner
                == winner)
        },
        a == b && a >= 2 ==> (tiebreak matches Some((outcome, None)) ==> decision_with_tiebreak(
            conflict,
            a,
            b,
            tiebreak,
        ) == Ok::<[u8; 32], Seq<char>>(outcome.winner)),
{
}

/// One more relay for a side never takes the win from it, and one fewer never gives it.
pub proof fn more_relays_never_hurt(conflict: Conflict, a: nat, b: nat, more: nat)
    requires
        conflict.envelope_a != conflict.envelope_b,
        a <= more,
    ensures
        standing_of(conflict, a, b) == QuorumStanding::Decisive(conflict.envelope_a)
            ==> standing_of(conflict, more, b) == QuorumStanding::Decisive(conflict.envelope_a),
        standing_of(conflict, more, b) == QuorumStanding::Decisive(conflict.envelope_b)
            ==> standing_of(conflict, a, b) == QuorumStanding::Decisive(conflict.envelope_b),
{
}

/// Observations are counted by relay: one that speaks of the conflict's sequence, names a
/// key and is attested raises the count by one, unless such an observation of the same
/// relay is there already. Any other observation leaves the count alone.
pub proof fn an_observation_adds_its_relay(
    observations: Seq<RelayObservation>,
    o: RelayObservation,
    sequence: i64,
)
    ensures
        corroboration(Seq::<RelayObservation>::empty(), sequence) == 0,
        corroboration(observations.push(o), sequence) == corroboration(observations, sequence) + (
        if o.attested && o.proof.sequence == sequence as u64 && ed25519_key_fault(
            o.relay_pubkey@,
        ) is None && !(exists|i: int|
            0 <= i < observations.len() && (#[trigger] observations[i]).relay_pubkey
                == o.relay_pubkey && observations[i].attested && observations[i].proof.sequence
                == sequence as u64) {
            1nat
        } else {
            0nat
        }),
{
    let relays = corroborating_relays(observations, sequence);
    assert(observations.push(o).drop_last() =~= observations);
    corroborating_relays_are_those_that_count(observations, sequence, o.relay_pubkey);
    if o.attested && o.proof.sequence == sequence as u64 && ed25519_key_fault(
        o.relay_pubkey@,
    ) is None {
        assert(o.counts(sequence));
        if exists|i: int|
            0 <= i < observations.len() && (#[trigger] observations[i]).relay_pubkey
                == o.relay_pubkey && observations[i].attested && observations[i].proof.sequence
                == sequence as u64 {
            let i = choose|i: int|
                0 <= i < observations.len() && (#[trigger] observations[i]).relay_pubkey
                    == o.relay_pubkey && observations[i].attested && observations[i].proof.sequence
                    == sequence as u64;
            assert(observations[i].counts(sequence));
            assert(relays.insert(o.relay_pubkey) =~= relays);
        } else {
            if relays.contains(o.relay_pubkey) {
                let i = choose|i: int|
                    0 <= i < observations.len() && (#[trigger] observations[i]).counts(sequence)
                        && observations[i].relay_pubkey == o.relay_pubkey;
                assert(observations[i].attested);
            }
        }
    } else {
        assert(!o.counts(sequence));
    }
}

/// The winner of an N-way conflict is the candidate that beats every other one on its own,
/// and every such candidate wins.
pub proof fn nway_winner_beats_every_other(conflict: Conflict, counts: Seq<nat>, i: int)
    requires
        conflict.envelope_a != conflict.envelope_b,
        0 <= i < counts.len(),
        counts.len() >= 2,
    ensures
        strict_top(counts, i) <==> forall|j: int|
            0 <= j < counts.len() && j != i ==> standing_of(
                conflict,
                counts[i],
                #[trigger] counts[j],
            ) == QuorumStanding::Decisive(conflict.envelope_a),
{
    if strict_top(counts, i) {
        assert forall|j: int| 0 <= j < counts.len() && j != i implies standing_of(
            conflict,
            counts[i],
            #[trigger] counts[j],
        ) == QuorumStanding::Decisive(conflict.envelope_a) by {
            assert(counts[j] < counts[i]);
        }
    }
    if forall|j: int|
        0 <= j < counts.len() && j != i ==> standing_of(conflict, counts[i], #[trigger] counts[j])
            == QuorumStanding::Decisive(conflict.envelope_a) {
        let other: int = if i == 0 {
            1
        } else {
            0
        };
        assert(standing_of(conflict, counts[i], counts[other]) == QuorumStanding::Decisive(
            conflict.envelope_a,
        ));
        assert forall|j: int| 0 <= j < counts.len() && j != i implies #[trigger] counts[j]
            < counts[i] by {
            assert(standing_of(conflict, counts[i], counts[j]) == QuorumStanding::Decisive(
                conflict.envelope_a,
            ));
        }
    }
}

/// Candidates stand for what their evidence says: the envelope that it names, and the number
/// of relays that corroborate it on the conflict's slot. A lone candidate wins with two.
pub proof fn candidates_are_counted_one_by_one(
    evidence: Seq<CandidateEvidence>,
    candidate: CandidateEvidence,
    sequence: i64,
)
    ensures
        evidence_ids(evidence.push(candidate)) == evidence_ids(evidence).push(
            candidate.message_id,
        ),
        candidate_counts(evidence.push(candidate), sequence) == candidate_counts(
            evidence,
            sequence,
        ).push(corroboration(candidate.observations@, sequence)),
        evidence_ids(Seq::<CandidateEvidence>::empty()).len() == 0,
        candidate_counts(Seq::<CandidateEvidence>::empty(), sequence).len() == 0,
        strict_top(seq![corroboration(candidate.observations@, sequence)], 0) <==> corroboration(
            candidate.observations@,
            sequence,
        ) >= 2,
{
    assert(evidence_ids(evidence.push(candidate)) =~= evidence_ids(evidence).push(
        candidate.message_id,
    ));
    assert(candidate_counts(evidence.push(candidate), sequence) =~= candidate_counts(
        evidence,
        sequence,
    ).push(corroboration(candidate.observations@, sequence)));
}

/// Each side is counted by its own observations, on the sequence of the conflict; and a count
/// is the number that it is.
pub proof fn sides_are_counted_by_their_own_evidence(
    conflict: Conflict,
    evidence: ConflictEvidence,
    counts: Seq<usize>,
    i: int,
)
    ensures
        relays_for_a(conflict, evidence) == corroboration(
            evidence.envelope_a_observations@,
            conflict.sequence,
        ),
        relays_for_b(conflict, evidence) == corroboration(
            evidence.envelope_b_observations@,
            conflict.sequence,
        ),
        as_counts(counts).len() == counts.len(),
        0 <= i < counts.len() ==> as_counts(counts)[i] == counts[i],
{
}

/// The message of an unresolved conflict names the slot, and each envelope with its own time
/// and its own number of relays.
pub proof fn unresolved_messages_name_both_sides(
    conflict: Conflict,
    evidence: ConflictEvidence,
) -> (rest: Seq<char>)
    ensures
        unresolved_message(conflict, evidence) == slot_prefix(conflict) + (" between "@ + hex_of(
            conflict.envelope_a@,
        ) + " (timestamp "@ + decimal(evidence.envelope_a_timestamp as nat) + ", "@ + decimal(
            relays_for_a(conflict, evidence),
        ) + " verified distinct relay(s)) and "@ + hex_of(conflict.envelope_b@) + " (timestamp "@
            + decimal(evidence.envelope_b_timestamp as nat) + ", "@ + decimal(
            relays_for_b(conflict, evidence),
        ) + rest),
{
    let rest =
        " verified distinct relay(s)) could not be resolved off-chain: a winning side needs at least "@
        + decimal(MIN_QUORUM as nat)
        + " distinct corroborating relays and strictly more than the other side"@;
    assert(unresolved_message(conflict, evidence) =~= slot_prefix(conflict) + (" between "@ + hex_of(
        conflict.envelope_a@,
    ) + " (timestamp "@ + decimal(evidence.envelope_a_timestamp as nat) + ", "@ + decimal(
        relays_for_a(conflict, evidence),
    ) + " verified distinct relay(s)) and "@ + hex_of(conflict.envelope_b@) + " (timestamp "@
        + decimal(evidence.envelope_b_timestamp as nat) + ", "@ + decimal(
        relays_for_b(conflict, evidence),
    ) + rest));
    rest
}

} // verus!
