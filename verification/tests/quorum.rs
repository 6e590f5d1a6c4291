use stellarconduit_sync_engine::conflict::{resolve_by_quorum, QuorumResult};

const CANDIDATE_A: [u8; 32] = [1u8; 32];
const CANDIDATE_B: [u8; 32] = [2u8; 32];
const CANDIDATE_C: [u8; 32] = [3u8; 32];

#[test]
fn test_quorum_reaches_resolution_with_sufficient_honest_participants() {
    // Quorum size 10, supermajority > 6
    let votes = vec![
        CANDIDATE_A,
        CANDIDATE_A,
        CANDIDATE_A,
        CANDIDATE_A,
        CANDIDATE_A,
        CANDIDATE_A,
        CANDIDATE_A,
        CANDIDATE_B,
        CANDIDATE_B,
        CANDIDATE_C,
    ]; // 7 votes for A, 2 for B, 1 for C

    let result = resolve_by_quorum(&votes, 10, 7);
    assert_eq!(result, QuorumResult::Resolved(CANDIDATE_A));
}

#[test]
fn test_quorum_reports_no_quorum_when_insufficient_participants_reachable() {
    // We need 10 votes, but only got 9.
    let votes = vec![
        CANDIDATE_A,
        CANDIDATE_A,
        CANDIDATE_A,
        CANDIDATE_A,
        CANDIDATE_A,
        CANDIDATE_A,
        CANDIDATE_A,
        CANDIDATE_A,
        CANDIDATE_A,
    ]; // 9 votes for A

    let result = resolve_by_quorum(&votes, 10, 7);
    assert_eq!(result, QuorumResult::NoQuorumReached);
}

#[test]
fn test_byzantine_minority_cannot_force_wrong_outcome() {
    // 10 total participants. 7 honest vote for A, 3 Byzantine vote for B.
    // Byzantine nodes (3) < Threshold (7), so they cannot force B to win.
    let votes = vec![
        CANDIDATE_A,
        CANDIDATE_A,
        CANDIDATE_A,
        CANDIDATE_A,
        CANDIDATE_A,
        CANDIDATE_A,
        CANDIDATE_A, // 7 Honest
        CANDIDATE_B,
        CANDIDATE_B,
        CANDIDATE_B, // 3 Byzantine
    ];

    let result = resolve_by_quorum(&votes, 10, 7);
    assert_eq!(result, QuorumResult::Resolved(CANDIDATE_A));
}

#[test]
fn test_byzantine_majority_beyond_bound_is_detected_as_split_decision_not_silently_trusted() {
    // 10 total participants. We need 7 for supermajority.
    // 4 honest vote for A, 6 Byzantine vote for B.
    // Byzantine nodes (6) > 1/3 bound, so they disrupt the honest consensus.
    // However, 6 < 7 (supermajority threshold), so they CANNOT force a wrong outcome.
    // The protocol fails safely by returning SplitDecision.
    let votes = vec![
        CANDIDATE_A,
        CANDIDATE_A,
        CANDIDATE_A,
        CANDIDATE_A, // 4 Honest
        CANDIDATE_B,
        CANDIDATE_B,
        CANDIDATE_B,
        CANDIDATE_B,
        CANDIDATE_B,
        CANDIDATE_B, // 6 Byzantine
    ];

    let result = resolve_by_quorum(&votes, 10, 7);
    assert_eq!(result, QuorumResult::SplitDecision);
}
