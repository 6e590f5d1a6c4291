use stellarconduit_sync_engine::errors::SyncEngineError;
use stellarconduit_sync_engine::settlement::tracker::SettlementStatus::{Disputed, Failed, Propagating, Queued, Settled};
use stellarconduit_sync_engine::settlement::{SettlementStatus, SettlementTracker};

#[test]
fn test_happy_path_queued_to_settled() {
    let mut tracker = SettlementTracker::new();
    let id = [1u8; 32];
    tracker.track(id);
    assert_eq!(tracker.status(&id), Some(SettlementStatus::Queued));

    tracker
        .transition(id, SettlementStatus::Propagating)
        .unwrap();
    tracker.transition(id, SettlementStatus::Settled).unwrap();
    assert_eq!(tracker.status(&id), Some(SettlementStatus::Settled));
}

#[test]
fn test_disputed_can_recover_to_settled() {
    let mut tracker = SettlementTracker::new();
    let id = [2u8; 32];
    tracker.track(id);
    tracker
        .transition(id, SettlementStatus::Propagating)
        .unwrap();
    tracker.transition(id, SettlementStatus::Disputed).unwrap();
    tracker.transition(id, SettlementStatus::Settled).unwrap();
    assert_eq!(tracker.status(&id), Some(SettlementStatus::Settled));
}

#[test]
fn test_failed_can_retry_to_propagating() {
    let mut tracker = SettlementTracker::new();
    let id = [3u8; 32];
    tracker.track(id);
    tracker
        .transition(id, SettlementStatus::Propagating)
        .unwrap();
    tracker.transition(id, SettlementStatus::Failed).unwrap();
    tracker
        .transition(id, SettlementStatus::Propagating)
        .unwrap();
    assert_eq!(tracker.status(&id), Some(SettlementStatus::Propagating));
}

#[test]
fn test_illegal_transition_rejected() {
    let mut tracker = SettlementTracker::new();
    let id = [4u8; 32];
    tracker.track(id);
    // Cannot jump straight from Queued to Settled.
    let result = tracker.transition(id, SettlementStatus::Settled);
    assert!(matches!(
        result,
        Err(SyncEngineError::InvalidStateTransition { .. })
    ));
}

#[test]
fn test_transition_on_untracked_envelope_errors() {
    let mut tracker = SettlementTracker::new();
    let result = tracker.transition([9u8; 32], SettlementStatus::Propagating);
    assert!(matches!(result, Err(SyncEngineError::EnvelopeNotFound(_))));
}

#[test]
fn test_settlement_transition_matrix_is_exhaustive() {
    // Hand-written ground truth reachability graph, kept independent of
    // `can_transition_to`'s own match arms so this test can actually
    // catch a divergence between the two instead of restating the same
    // logic. Any (from, to) pair not listed here is expected to be illegal.
    let allowed: &[(SettlementStatus, SettlementStatus)] = &[
        (Queued, Propagating),
        (Queued, Failed),
        (Propagating, Settled),
        (Propagating, Failed),
        (Propagating, Disputed),
        (Disputed, Settled),
        (Disputed, Failed),
        (Failed, Propagating),
    ];

    let all_states = [Queued, Propagating, Settled, Failed, Disputed];

    let mut checked = 0;
    for &from in &all_states {
        for &to in &all_states {
            let expected = allowed.contains(&(from, to));
            assert_eq!(
                from.can_transition_to(to),
                expected,
                "mismatch for transition {:?} -> {:?}: expected {}",
                from,
                to,
                expected
            );
            checked += 1;
        }
    }
    assert_eq!(
        checked, 25,
        "expected all 25 (from, to) pairs across 5 states"
    );
}

#[test]
fn test_status_roundtrip_via_str() {
    for status in [
        SettlementStatus::Queued,
        SettlementStatus::Propagating,
        SettlementStatus::Settled,
        SettlementStatus::Failed,
        SettlementStatus::Disputed,
    ] {
        let parsed: SettlementStatus = status.as_str().parse().unwrap();
        assert_eq!(parsed, status);
    }
}
