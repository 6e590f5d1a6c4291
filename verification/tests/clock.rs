use std::sync::Arc;
use stellarconduit_sync_engine::clock::{anchored, Clock, HybridClock, MockClock};

#[test]
fn test_normal_elapsed_time_calculation() {
    let clock = MockClock::new(100);
    assert_eq!(clock.elapsed_since(80), 20);
    assert_eq!(clock.elapsed_since(100), 0);
}

#[test]
fn test_clock_regression_does_not_produce_negative_elapsed() {
    let clock = MockClock::new(100);
    // Pretend a restart happened and the system wall clock jumped backwards,
    // so the previously persisted timestamp (150) is now in the future relative to our current clock.
    // It should clamp to 0.
    assert_eq!(clock.elapsed_since(150), 0);
}

#[test]
fn test_clock_abstraction_is_injectable_and_deterministic_in_tests() {
    let mut clock = MockClock::new(100);
    assert_eq!(clock.now_secs(), 100);

    clock.advance(50);
    assert_eq!(clock.now_secs(), 150);
    assert_eq!(clock.elapsed_since(100), 50);

    clock.set_time(50);
    assert_eq!(clock.now_secs(), 50);
    // Clamps to 0 because 100 is in the future relative to 50
    assert_eq!(clock.elapsed_since(100), 0);
}

#[test]
fn test_hybrid_clock_is_monotonic_intra_session() {
    let clock = HybridClock::new();
    let first = clock.now_secs();
    // Since it relies on Instant, it can never go backwards, even if we sleep or don't sleep.
    let second = clock.now_secs();
    assert!(second >= first);
}

#[test]
fn an_anchored_time_moves_with_the_time_passed() {
    assert_eq!(anchored(100, 0), 100);
    assert_eq!(anchored(100, 25), 125);
    assert_eq!(anchored(100, 26), 126);
    assert_eq!(anchored(u64::MAX - 1, 5), u64::MAX);
}

#[test]
fn a_shared_clock_shows_the_same_time() {
    let clock = Arc::new(MockClock::new(100));
    assert_eq!(clock.now_secs(), 100);
    assert_eq!(Arc::clone(&clock).elapsed_since(80), 20);
}
