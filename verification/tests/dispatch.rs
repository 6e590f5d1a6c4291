use stellarconduit_sync_engine::errors::SyncEngineError;
use stellarconduit_sync_engine::queue::DispatchWindow;

fn msg_id(seed: u8) -> [u8; 32] {
    [seed; 32]
}

#[test]
fn test_dispatch_blocked_when_window_full() {
    let mut window = DispatchWindow::new(2, 120).expect("valid config");
    let now = 1_000_000u64;

    window.try_acquire(msg_id(1), now).expect("first slot");
    window.try_acquire(msg_id(2), now).expect("second slot");

    // Window is full — the next dispatch must be refused with a clear,
    // retryable signal, never silently allowed and never blocking.
    let err = window
        .try_acquire(msg_id(3), now)
        .expect_err("window is full");
    match err {
        SyncEngineError::BackpressureWindowFull { max_in_flight } => {
            assert_eq!(max_in_flight, 2);
        }
        other => panic!("expected BackpressureWindowFull, got: {other:?}"),
    }
}

#[test]
fn test_window_slot_released_on_acknowledgment() {
    let mut window = DispatchWindow::new(1, 120).expect("valid config");
    let now = 1_000_000u64;

    window.try_acquire(msg_id(1), now).expect("acquire");
    assert!(window.is_at_capacity(now));

    // Relay confirms propagation → slot freed → next dispatch succeeds.
    assert!(window.acknowledge(&msg_id(1)));
    assert!(!window.is_at_capacity(now));
    window
        .try_acquire(msg_id(2), now + 10)
        .expect("slot after ack");

    // A late duplicate ack for an already-released entry is benign.
    assert!(!window.acknowledge(&msg_id(1)));
}

#[test]
fn test_window_slot_released_on_timeout_for_dead_relay() {
    let mut window = DispatchWindow::new(1, 60).expect("valid config");

    // Dead relay: acquired at t=1000, never acknowledged.
    window.try_acquire(msg_id(1), 1_000).expect("acquire");

    // Well before the timeout the slot is still held...
    assert!(window.is_at_capacity(1_050));
    assert!(window.try_acquire(msg_id(2), 1_050).is_err());

    // ...past the timeout the sweep reclaims it for a new dispatch.
    window
        .try_acquire(msg_id(3), 1_061)
        .expect("timeout released dead slot");
    assert_eq!(window.in_flight_count(1_061), 1);

    // Explicit bulk sweep reports what it reclaimed too.
    let reclaimed = window.release_expired(1_200);
    assert_eq!(reclaimed, 1);
    assert_eq!(window.in_flight_count(1_200), 0);
}

#[test]
fn test_window_size_is_configurable() {
    // Capacity comes from the caller, not a constant...
    let mut small = DispatchWindow::new(1, 120).expect("valid");
    let mut large = DispatchWindow::new(64, 120).expect("valid");
    assert_eq!(small.max_in_flight(), 1);
    assert_eq!(large.max_in_flight(), 64);
    let now = 500u64;

    small.try_acquire(msg_id(1), now).expect("fills small");
    assert!(small.try_acquire(msg_id(2), now).is_err());
    for seed in 1..=64u8 {
        large
            .try_acquire(msg_id(seed), now)
            .expect("large has room");
    }
    assert!(large.is_at_capacity(now));

    // ...and so does the release timeout.
    let fast = DispatchWindow::new(4, 5).expect("valid");
    assert_eq!(fast.timeout_secs(), 5);
}

#[test]
fn duplicate_acquire_is_rejected() {
    let mut window = DispatchWindow::default();
    let now = 42u64;
    window.try_acquire(msg_id(9), now).expect("first acquire");
    assert!(matches!(
        window.try_acquire(msg_id(9), now),
        Err(SyncEngineError::DuplicateInFlight)
    ));
}

#[test]
fn abandon_releases_immediately() {
    let mut window = DispatchWindow::new(1, 600).expect("valid"); // long timeout
    let now = 100u64;
    window.try_acquire(msg_id(4), now).expect("acquire");

    // Transport reported a hard failure — no ack will ever come.
    assert!(window.abandon(&msg_id(4)));
    window
        .try_acquire(msg_id(5), now + 1)
        .expect("slot freed by abandon");
}

#[test]
fn invalid_constructor_config_is_rejected() {
    assert!(matches!(
        DispatchWindow::new(0, 120),
        Err(SyncEngineError::InvalidDispatchWindow(_))
    ));
    assert!(matches!(
        DispatchWindow::new(8, 0),
        Err(SyncEngineError::InvalidDispatchWindow(_))
    ));
}
