use stellarconduit_sync_engine::envelope::{ParticipantId, SessionEpoch, ThresholdConfigError, ThresholdParams};

#[test]
fn test_threshold_params_reject_zero_participants() {
    assert_eq!(
        ThresholdParams::new(1, 0),
        Err(ThresholdConfigError::NoParticipants)
    );
}

#[test]
fn test_threshold_params_reject_zero_threshold() {
    assert_eq!(
        ThresholdParams::new(0, 3),
        Err(ThresholdConfigError::ZeroThreshold)
    );
}

#[test]
fn test_threshold_params_reject_threshold_above_participants() {
    assert_eq!(
        ThresholdParams::new(4, 3),
        Err(ThresholdConfigError::ThresholdExceedsParticipants {
            threshold: 4,
            participants: 3,
        })
    );
}

#[test]
fn test_threshold_params_accept_valid() {
    let params = ThresholdParams::new(2, 3).expect("2-of-3 is valid");
    assert_eq!(params.threshold(), 2);
    assert_eq!(params.participants(), 3);
}

#[test]
fn test_signing_below_threshold_participants_fails() {
    let params = ThresholdParams::new(3, 5).expect("3-of-5 is valid");
    let two_present = [ParticipantId(1), ParticipantId(2)];
    assert!(!params.has_signing_quorum(&two_present));

    let three_present = [ParticipantId(1), ParticipantId(2), ParticipantId(4)];
    assert!(params.has_signing_quorum(&three_present));
}

#[test]
fn test_has_signing_quorum_deduplicates_participants() {
    let params = ThresholdParams::new(3, 5).expect("3-of-5 is valid");
    // Same participant repeated must not count three times.
    let repeated = [ParticipantId(1), ParticipantId(1), ParticipantId(1)];
    assert!(!params.has_signing_quorum(&repeated));
}

#[test]
fn test_session_epoch_bump_is_strictly_monotonic() {
    let e0 = SessionEpoch(0);
    let e1 = e0.bump();
    let e2 = e1.bump();
    assert!(e0 < e1 && e1 < e2);
    assert_eq!(e2, SessionEpoch(2));
}
