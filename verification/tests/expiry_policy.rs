use stellarconduit_sync_engine::queue::expiry_policy::ExpiryPolicy;
use stellarconduit_sync_engine::queue::TxPriority;

#[test]
fn test_default_policy_has_sensible_per_tier_ordering() {
    let policy = ExpiryPolicy::default();

    // Higher urgency must expire no later than lower urgency.
    assert!(policy.expiry_for(TxPriority::Emergency) <= policy.expiry_for(TxPriority::Normal));
    assert!(policy.expiry_for(TxPriority::Normal) <= policy.expiry_for(TxPriority::Low));

    // And every tier must have a non-zero window with documented reasoning
    // (spot-check the documented defaults).
    assert_eq!(policy.expiry_for(TxPriority::Emergency), 5 * 60);
    assert_eq!(policy.expiry_for(TxPriority::Normal), 60 * 60);
    assert_eq!(policy.expiry_for(TxPriority::Low), 24 * 60 * 60);

    // Defaults must satisfy their own validation invariants.
    assert!(ExpiryPolicy::new(
        policy.expiry_for(TxPriority::Low),
        policy.expiry_for(TxPriority::Normal),
        policy.expiry_for(TxPriority::Emergency),
    )
    .is_ok());
}

#[test]
fn test_invalid_policy_construction_is_rejected() {
    // Inverted urgency ordering: emergency outliving normal is nonsense.
    let err = ExpiryPolicy::new(24 * 60 * 60, 60 * 60, 2 * 60 * 60)
        .expect_err("emergency > normal must be rejected");
    assert!(
        err.to_string().contains("must not outlive"),
        "unexpected error message: {err:?}"
    );

    // Inverted ordering between normal and low.
    assert!(ExpiryPolicy::new(60 * 60, 2 * 60 * 60, 5 * 60).is_err());

    // Zero window means "never dispatch" — a configuration bug.
    let err = ExpiryPolicy::new(0, 60, 30).expect_err("zero low window must be rejected");
    assert!(err.to_string().contains("non-zero"), "unexpected: {err:?}");

    // Above the sanity ceiling: likely a ms-vs-s units mistake.
    let err = ExpiryPolicy::new(365 * 24 * 60 * 60, 60 * 60, 5 * 60)
        .expect_err("multi-month low window must be rejected");
    assert!(
        err.to_string().contains("sanity ceiling"),
        "unexpected: {err:?}"
    );
}

#[test]
fn test_is_expired_respects_per_tier_window() {
    let policy = ExpiryPolicy::default();
    let enqueued_at = 1_700_000_000u64;

    // Emergency expires after 300s...
    assert!(!policy.is_expired(TxPriority::Emergency, enqueued_at, enqueued_at + 299));
    // ...exactly at the boundary it counts as expired ("at or past").
    assert!(policy.is_expired(TxPriority::Emergency, enqueued_at, enqueued_at + 300));

    // Normal is still alive at 300s where emergency already expired.
    assert!(!policy.is_expired(TxPriority::Normal, enqueued_at, enqueued_at + 300));
    assert!(policy.is_expired(TxPriority::Normal, enqueued_at, enqueued_at + 3_600));

    // Low lives a full day.
    assert!(!policy.is_expired(TxPriority::Low, enqueued_at, enqueued_at + 86_399));
    assert!(policy.is_expired(TxPriority::Low, enqueued_at, enqueued_at + 86_400));

    // Clock skew (now before enqueued_at) never expires an envelope.
    assert!(!policy.is_expired(TxPriority::Emergency, enqueued_at, enqueued_at - 10));
}

#[test]
fn test_custom_policy_can_be_configured_at_construction() {
    // A shared relay terminal that wants tighter windows than the defaults.
    let policy = ExpiryPolicy::new(6 * 60 * 60, 10 * 60, 60).expect("valid custom policy");

    assert_eq!(policy.expiry_for(TxPriority::Low), 6 * 60 * 60);
    assert_eq!(policy.expiry_for(TxPriority::Normal), 10 * 60);
    assert_eq!(policy.expiry_for(TxPriority::Emergency), 60);

    let now = 1_000_000u64;
    assert!(!policy.is_expired(TxPriority::Emergency, now - 59, now));
    assert!(policy.is_expired(TxPriority::Emergency, now - 60, now));

    // Equal windows across tiers are legal (ordering invariant is <=).
    assert!(ExpiryPolicy::new(600, 600, 600).is_ok());

    // Default trait impl matches default_policy().
    assert_eq!(ExpiryPolicy::default(), ExpiryPolicy::default_policy());
}
