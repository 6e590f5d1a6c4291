//! Open-membership quorum votes for conflicts that stay ambiguous even with
//! perfect causal history and proof verification.
//!
//! An ad-hoc committee of locally reachable peers votes. The vote is
//! parameterized by `quorum_size` (the number of responses needed to make any
//! decision) and `supermajority_threshold` (the votes a candidate must receive
//! to win). With a threshold above two thirds of the quorum, Byzantine nodes
//! that make up less than a third of the committee cannot force an outcome. Where
//! too few peers respond, or no side musters a supermajority, the result says
//! so; no default winner is picked.
//!
//! Committee sampling itself is open to Sybil attacks: an attacker who controls
//! more than two thirds of the sampled committee decides the vote.
use crate::bytes::bytes32_eq;
use vstd::prelude::*;

verus! {

/// The clear, distinguishable outcome of a quorum vote.
#[derive(Debug, Clone, PartialEq, Eq)]
pub enum QuorumResult {
    /// A single candidate reached the supermajority threshold.
    Resolved([u8; 32]),
    /// The committee failed to gather the minimum required responses.
    NoQuorumReached,
    /// The required number of responses was gathered, but no candidate reached
    /// the supermajority threshold.
    SplitDecision,
}

/// The number of votes for `candidate`.
pub open spec fn votes_for(votes: Seq<[u8; 32]>, candidate: [u8; 32]) -> nat
    decreases votes.len(),
{
    if votes.len() == 0 {
        0
    } else {
        votes_for(votes.drop_last(), candidate) + if votes.last() == candidate {
            1nat
        } else {
            0nat
        }
    }
}

/// `candidate` received a vote, and at least `threshold` of them.
pub open spec fn wins(votes: Seq<[u8; 32]>, candidate: [u8; 32], threshold: nat) -> bool {
    votes.contains(candidate) && votes_for(votes, candidate) >= threshold
}

fn count_votes(votes: &[[u8; 32]], candidate: &[u8; 32]) -> (n: usize)
    ensures
        n == votes_for(votes@, *candidate),
{
    let mut n: usize = 0;
    let mut i: usize = 0;
    while i < votes.len()
        invariant
            i <= votes.len(),
            n <= i,
            n == votes_for(votes@.subrange(0, i as int), *candidate),
        decreases votes.len() - i,
    {
        assert(votes@.subrange(0, i + 1).drop_last() =~= votes@.subrange(0, i as int));
        if bytes32_eq(&votes[i], candidate) {
            n += 1;
        }
        i += 1;
    }
    assert(votes@.subrange(0, i as int) =~= votes@);
    n
}

/// Evaluates a quorum vote to resolve an ambiguous conflict.
///
/// `votes` are the candidate identifiers that the committee voted for. Where the
/// threshold is so low that several candidates reach it, any of them may be
/// returned.
pub fn resolve_by_quorum(
    votes: &[[u8; 32]],
    quorum_size: usize,
    supermajority_threshold: usize,
) -> (r: QuorumResult)
    ensures
        r is NoQuorumReached <==> votes@.len() < quorum_size,
        r is Resolved <==> votes@.len() >= quorum_size && exists|c: [u8; 32]|
            wins(votes@, c, supermajority_threshold as nat),
        r matches QuorumResult::Resolved(c) ==> wins(votes@, c, supermajority_threshold as nat),
{
    if votes.len() < quorum_size {
        return QuorumResult::NoQuorumReached;
    }
    let mut i: usize = 0;
    while i < votes.len()
        invariant
            i <= votes.len(),
            votes.len() >= quorum_size,
            forall|j: int|
                0 <= j < i ==> votes_for(votes@, #[trigger] votes@[j]) < supermajority_threshold,
        decreases votes.len() - i,
    {
        if count_votes(votes, &votes[i]) >= supermajority_threshold {
            assert(votes@.contains(votes@[i as int]));
            assert(wins(votes@, votes@[i as int], supermajority_threshold as nat));
            return QuorumResult::Resolved(votes[i]);
        }
        i += 1;
    }
    assert forall|c: [u8; 32]| !wins(votes@, c, supermajority_threshold as nat) by {
        if votes@.contains(c) {
            let j = choose|j: int| 0 <= j < votes@.len() && votes@[j] == c;
            assert(votes_for(votes@, votes@[j]) < supermajority_threshold);
        }
    }
    QuorumResult::SplitDecision
}

proof fn lemma_two_candidates(votes: Seq<[u8; 32]>, a: [u8; 32], b: [u8; 32])
    requires
        a != b,
    ensures
        votes_for(votes, a) + votes_for(votes, b) <= votes.len(),
    decreases votes.len(),
{
    if votes.len() > 0 {
        lemma_two_candidates(votes.drop_last(), a, b);
    }
}

/// A threshold above half of the votes leaves room for one winner only, so every
/// node that tallies the same votes names the same one.
pub proof fn majority_winner_is_unique(
    votes: Seq<[u8; 32]>,
    threshold: nat,
    a: [u8; 32],
    b: [u8; 32],
)
    requires
        2 * threshold > votes.len(),
        wins(votes, a, threshold),
        wins(votes, b, threshold),
    ensures
        a == b,
{
    if a != b {
        lemma_two_candidates(votes, a, b);
    }
}

/// A Byzantine minority cannot force a wrong outcome: where fewer votes than the
/// threshold are cast for anything but the honest candidate, nothing but the
/// honest candidate wins.
pub proof fn byzantine_minority_cannot_win(
    votes: Seq<[u8; 32]>,
    honest: [u8; 32],
    other: [u8; 32],
    threshold: nat,
)
    requires
        votes.len() - votes_for(votes, honest) < threshold,
        other != honest,
    ensures
        !wins(votes, other, threshold),
{
    lemma_two_candidates(votes, honest, other);
}

/// Nor can it mask an honest supermajority: votes for the honest candidate that
/// reach the threshold decide the vote.
pub proof fn honest_supermajority_wins(votes: Seq<[u8; 32]>, honest: [u8; 32], threshold: nat)
    requires
        votes_for(votes, honest) >= threshold,
        threshold > 0,
    ensures
        wins(votes, honest, threshold),
{
    lemma_counted_is_contained(votes, honest);
}

proof fn lemma_counted_is_contained(votes: Seq<[u8; 32]>, c: [u8; 32])
    requires
        votes_for(votes, c) > 0,
    ensures
        votes.contains(c),
    decreases votes.len(),
{
    if votes.last() == c {
        assert(votes[votes.len() - 1] == c);
    } else {
        let shorter = votes.drop_last();
        lemma_counted_is_contained(shorter, c);
        let i = choose|i: int| 0 <= i < shorter.len() && shorter[i] == c;
        assert(votes[i] == c);
    }
}

/// Votes are counted one by one: a vote raises the count of the candidate that it names by
/// one, and no other count.
pub proof fn a_vote_counts_once(votes: Seq<[u8; 32]>, vote: [u8; 32], other: [u8; 32])
    requires
        vote != other,
    ensures
        votes_for(Seq::<[u8; 32]>::empty(), vote) == 0,
        votes_for(votes.push(vote), vote) == votes_for(votes, vote) + 1,
        votes_for(votes.push(vote), other) == votes_for(votes, other),
{
    assert(votes.push(vote).drop_last() =~= votes);
}

/// Nobody wins below the threshold or without a vote, and reaching the threshold is enough.
pub proof fn winning_takes_the_threshold(
    votes: Seq<[u8; 32]>,
    candidate: [u8; 32],
    threshold: nat,
)
    ensures
        votes_for(votes, candidate) < threshold ==> !wins(votes, candidate, threshold),
        !votes.contains(candidate) ==> !wins(votes, candidate, threshold),
        votes.contains(candidate) ==> wins(votes, candidate, votes_for(votes, candidate)),
        votes.contains(candidate) && votes_for(votes, candidate) >= threshold ==> wins(
            votes,
            candidate,
            threshold,
        ),
{
}

} // verus!
