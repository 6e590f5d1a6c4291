use stellarconduit_sync_engine::clock::{Clock, MockClock};
use stellarconduit_sync_engine::errors::SyncEngineError;
use stellarconduit_sync_engine::message::TransactionEnvelope;
use stellarconduit_sync_engine::queue::{EmergencyGuardConfig, OutboundTxQueue, TxPriority};

fn mock_envelope(message_id: u8) -> TransactionEnvelope {
    TransactionEnvelope {
        message_id: [message_id; 32],
        origin_pubkey: [1u8; 32],
        tx_xdr: "mock_xdr".to_string(),
        ttl_hops: 10,
        timestamp: 1_700_000_000,
        signature: [0u8; 64],
    }
}

#[test]
fn test_higher_priority_pops_first() {
    let clock = MockClock::new(100);
    let mut q = OutboundTxQueue::new(clock);
    q.push(mock_envelope(1), TxPriority::Low).unwrap();
    q.push(mock_envelope(2), TxPriority::Emergency).unwrap();
    q.push(mock_envelope(3), TxPriority::Normal).unwrap();

    assert_eq!(q.pop().unwrap().message_id, [2u8; 32]);
    assert_eq!(q.pop().unwrap().message_id, [3u8; 32]);
    assert_eq!(q.pop().unwrap().message_id, [1u8; 32]);
    assert!(q.pop().is_none());
}

#[test]
fn test_fifo_within_same_priority() {
    let clock = MockClock::new(100);
    let mut q = OutboundTxQueue::new(clock);
    q.push_at(mock_envelope(1), TxPriority::Normal, 100)
        .unwrap();
    q.push_at(mock_envelope(2), TxPriority::Normal, 50).unwrap();
    q.push_at(mock_envelope(3), TxPriority::Normal, 200)
        .unwrap();

    // Oldest enqueued_at (50) should come out first.
    assert_eq!(q.pop().unwrap().message_id, [2u8; 32]);
    assert_eq!(q.pop().unwrap().message_id, [1u8; 32]);
    assert_eq!(q.pop().unwrap().message_id, [3u8; 32]);
}

#[test]
fn test_len_and_is_empty() {
    let clock = MockClock::new(100);
    let mut q = OutboundTxQueue::new(clock);
    assert!(q.is_empty());
    q.push(mock_envelope(1), TxPriority::Low).unwrap();
    assert_eq!(q.len(), 1);
    assert!(!q.is_empty());
}

#[test]
fn test_priority_i64_roundtrip() {
    for p in [TxPriority::Low, TxPriority::Normal, TxPriority::Emergency] {
        let as_i64: i64 = p.into();
        assert_eq!(TxPriority::try_from(as_i64).unwrap(), p);
    }
}

#[test]
fn test_priority_from_invalid_i64_errors() {
    assert!(TxPriority::try_from(99).is_err());
}

#[test]
fn test_emergency_queuing_within_limit_succeeds() {
    let clock = MockClock::new(100);
    let config = EmergencyGuardConfig::new(3, 3600);
    let mut q = OutboundTxQueue::with_emergency_guard(config, clock);

    for i in 0..3 {
        q.push(mock_envelope(i), TxPriority::Emergency).unwrap();
    }
    assert_eq!(q.len(), 3);
}

#[test]
fn test_emergency_queuing_beyond_limit_is_rejected() {
    let clock = MockClock::new(100);
    let config = EmergencyGuardConfig::new(2, 3600);
    let mut q = OutboundTxQueue::with_emergency_guard(config, clock);

    q.push(mock_envelope(1), TxPriority::Emergency).unwrap();
    q.push(mock_envelope(2), TxPriority::Emergency).unwrap();

    let err = q
        .push(mock_envelope(3), TxPriority::Emergency)
        .expect_err("third Emergency push should exceed the configured limit of 2");
    assert!(matches!(
        err,
        SyncEngineError::EmergencyQueueLimitExceeded {
            current: 2,
            max: 2,
            ..
        }
    ));
    // The rejected push must not have been silently queued.
    assert_eq!(q.len(), 2);

    // Non-Emergency tiers are never gated by the Emergency guard.
    q.push(mock_envelope(4), TxPriority::Normal).unwrap();
    q.push(mock_envelope(5), TxPriority::Low).unwrap();
    assert_eq!(q.len(), 4);
}

#[test]
fn test_limit_is_configurable() {
    let clock = MockClock::new(100);
    let permissive = EmergencyGuardConfig::new(5, 60);
    let mut generous_q = OutboundTxQueue::with_emergency_guard(permissive, clock.clone());
    for i in 0..5 {
        generous_q
            .push(mock_envelope(i), TxPriority::Emergency)
            .unwrap();
    }
    assert!(generous_q
        .push(mock_envelope(200), TxPriority::Emergency)
        .is_err());

    let strict = EmergencyGuardConfig::new(1, 60);
    let mut strict_q = OutboundTxQueue::with_emergency_guard(strict, clock.clone());
    strict_q
        .push(mock_envelope(1), TxPriority::Emergency)
        .unwrap();
    assert!(strict_q
        .push(mock_envelope(2), TxPriority::Emergency)
        .is_err());

    // A queue with no guard configured never rejects.
    let mut unguarded_q = OutboundTxQueue::new(clock);
    for i in 0..10 {
        unguarded_q
            .push(mock_envelope(i), TxPriority::Emergency)
            .unwrap();
    }
}

#[test]
fn test_limit_resets_after_window_elapses() {
    let clock = MockClock::new(1000);
    let config = EmergencyGuardConfig::new(1, 60);
    let mut q = OutboundTxQueue::with_emergency_guard(config, clock.clone());

    // Seed a single Emergency admission that is already outside the
    // 60s window as of "now", the way a wallet would replay
    // durably-stored history from before a restart.
    let now = clock.now_secs();
    q.restore_at(mock_envelope(1), TxPriority::Emergency, now - 61);

    // The window has elapsed for that entry, so a fresh push at the
    // configured limit of 1 must still be admitted.
    q.push(mock_envelope(2), TxPriority::Emergency).unwrap();

    // But now the window is full again (the entry from `push` above is
    // current), so a third one is rejected.
    assert!(q.push(mock_envelope(3), TxPriority::Emergency).is_err());
}

#[test]
fn test_limit_survives_restart() {
    // Chosen persistence model: `OutboundTxQueue` (and its guard) is an
    // in-process cache reconstructed from the durable `queued_envelopes`
    // table, which already
    // records `priority` and `enqueued_at` for every queued envelope.
    // this test proves that replaying that durable history through
    // `restore_at` after a simulated restart keeps the Emergency guard
    // at its pre-restart count, closing the force-restart bypass.
    let clock = MockClock::new(1000);
    let config = EmergencyGuardConfig::new(2, 3600);
    let now = clock.now_secs();

    // "Before restart": a device queues 2 Emergency payments, the max
    // allowed, and each would have been durably persisted immediately.
    let mut before_restart = OutboundTxQueue::with_emergency_guard(config, clock.clone());
    before_restart
        .push_at(mock_envelope(1), TxPriority::Emergency, now)
        .unwrap();
    before_restart
        .push_at(mock_envelope(2), TxPriority::Emergency, now)
        .unwrap();
    let durably_persisted_emergency_timestamps = [now, now];

    // "Restart": the in-memory queue is gone. A fresh one is built and
    // seeded from what the wallet reloads out of durable storage.
    let mut after_restart = OutboundTxQueue::with_emergency_guard(config, clock.clone());
    for (i, &ts) in durably_persisted_emergency_timestamps.iter().enumerate() {
        after_restart.restore_at(mock_envelope(i as u8 + 1), TxPriority::Emergency, ts);
    }

    // An attacker who forced the restart hoping to reset the counter
    // and queue more Emergency payments is still blocked.
    let err = after_restart
        .push(mock_envelope(3), TxPriority::Emergency)
        .expect_err("guard state must survive the simulated restart");
    assert!(matches!(
        err,
        SyncEngineError::EmergencyQueueLimitExceeded {
            current: 2,
            max: 2,
            ..
        }
    ));
}

#[test]
fn a_frozen_clock_keeps_the_order_of_arrival() {
    let mut q = OutboundTxQueue::new(std::sync::Arc::new(MockClock::new(100)));
    for id in 1..=4 {
        q.push(mock_envelope(id), TxPriority::Normal).unwrap();
    }
    for id in 1..=4 {
        assert_eq!(q.pop().unwrap().message_id, [id; 32]);
    }
    assert!(q.pop().is_none());
}

#[test]
fn pushes_are_stamped_with_the_clock() {
    let config = EmergencyGuardConfig::new(1, 60);
    let mut q = OutboundTxQueue::with_emergency_guard(config, MockClock::new(1000));
    q.push(mock_envelope(1), TxPriority::Emergency).unwrap();
    q.clock_mut().advance(59);
    assert!(q.push(mock_envelope(2), TxPriority::Emergency).is_err());
    q.clock_mut().advance(1);
    q.push(mock_envelope(3), TxPriority::Emergency).unwrap();

    // A payment that was stamped earlier goes out first.
    q.clock_mut().set_time(500);
    q.push(mock_envelope(4), TxPriority::Normal).unwrap();
    q.clock_mut().set_time(400);
    q.push(mock_envelope(5), TxPriority::Normal).unwrap();
    let order: Vec<u8> = std::iter::from_fn(|| q.pop()).map(|e| e.message_id[0]).collect();
    assert_eq!(order, vec![1, 3, 5, 4]);
}

#[test]
fn a_withdrawn_envelope_leaves_the_queue() {
    let config = EmergencyGuardConfig::new(1, 60);
    let mut q = OutboundTxQueue::with_emergency_guard(config, MockClock::new(1000));
    q.push(mock_envelope(1), TxPriority::Emergency).unwrap();
    q.push(mock_envelope(2), TxPriority::Normal).unwrap();
    q.push(mock_envelope(3), TxPriority::Normal).unwrap();
    q.withdraw(&[9; 32]);
    assert_eq!(q.len(), 3);
    q.withdraw(&[1; 32]);
    q.withdraw(&[3; 32]);
    // It still counts toward the limit.
    assert!(q.push(mock_envelope(4), TxPriority::Emergency).is_err());
    assert_eq!(q.pop().unwrap().message_id, [2; 32]);
    assert!(q.is_empty());
}
