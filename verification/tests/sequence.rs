use stellarconduit_sync_engine::errors::SyncEngineError;
use stellarconduit_sync_engine::queue::{MultisigAccountRegistry, ReconciliationOutcome, SequenceReservationManager};

#[test]
fn test_reserve_without_seed_errors() {
    let mut mgr = SequenceReservationManager::new();
    assert!(matches!(
        mgr.reserve_next("GABC"),
        Err(SyncEngineError::NoSequenceReserved(_))
    ));
}

#[test]
fn test_reserve_increments_from_seed() {
    let mut mgr = SequenceReservationManager::new();
    mgr.seed("GABC", 100);
    assert_eq!(mgr.reserve_next("GABC").unwrap(), 101);
    assert_eq!(mgr.reserve_next("GABC").unwrap(), 102);
    assert_eq!(mgr.reserve_next("GABC").unwrap(), 103);
    assert_eq!(mgr.last_reserved("GABC"), Some(103));
    assert_eq!(mgr.baseline("GABC"), Some(100));
}

#[test]
fn test_accounts_are_independent() {
    let mut mgr = SequenceReservationManager::new();
    mgr.seed("GABC", 100);
    mgr.seed("GXYZ", 5);
    assert_eq!(mgr.reserve_next("GABC").unwrap(), 101);
    assert_eq!(mgr.reserve_next("GXYZ").unwrap(), 6);
}

#[test]
fn test_release_rolls_back_last_reservation() {
    let mut mgr = SequenceReservationManager::new();
    mgr.seed("GABC", 100);
    let seq = mgr.reserve_next("GABC").unwrap();
    mgr.release("GABC", seq).unwrap();
    assert_eq!(mgr.last_reserved("GABC"), Some(100));
    // Reserving again should hand out the same sequence number.
    assert_eq!(mgr.reserve_next("GABC").unwrap(), 101);
}

#[test]
fn test_release_rejects_non_matching_sequence() {
    let mut mgr = SequenceReservationManager::new();
    mgr.seed("GABC", 100);
    mgr.reserve_next("GABC").unwrap(); // 101
    mgr.reserve_next("GABC").unwrap(); // 102
    assert!(matches!(
        mgr.release("GABC", 101),
        Err(SyncEngineError::SequenceOutOfOrder { .. })
    ));
}

#[test]
fn test_reconcile_no_drift_is_noop() {
    let mut mgr = SequenceReservationManager::new();
    mgr.seed("GABC", 100);
    let outcome = mgr.reconcile("GABC", 100);
    assert_eq!(outcome, ReconciliationOutcome::NoDrift);
    assert_eq!(mgr.baseline("GABC"), Some(100));
    assert_eq!(mgr.last_reserved("GABC"), Some(100));
}

#[test]
fn test_reconcile_identifies_stale_reservations() {
    let mut mgr = SequenceReservationManager::new();
    mgr.seed("GABC", 100);
    let seq1 = mgr.reserve_next("GABC").unwrap(); // 101
    let seq2 = mgr.reserve_next("GABC").unwrap(); // 102
    let seq3 = mgr.reserve_next("GABC").unwrap(); // 103

    let outcome = mgr.reconcile("GABC", 103);
    assert_eq!(
        outcome,
        ReconciliationOutcome::BehindReality {
            stale_sequences: vec![seq1, seq2, seq3],
            new_baseline: 103,
        }
    );
    assert_eq!(mgr.baseline("GABC"), Some(103));
    assert_eq!(mgr.last_reserved("GABC"), Some(103));
}

#[test]
fn test_reconcile_does_not_invalidate_valid_future_reservations() {
    let mut mgr = SequenceReservationManager::new();
    mgr.seed("GABC", 100);
    let seq1 = mgr.reserve_next("GABC").unwrap(); // 101
    let seq2 = mgr.reserve_next("GABC").unwrap(); // 102
    let seq3 = mgr.reserve_next("GABC").unwrap(); // 103
    let seq4 = mgr.reserve_next("GABC").unwrap(); // 104
    assert_eq!(seq3, 103);
    assert_eq!(seq4, 104);

    let outcome = mgr.reconcile("GABC", 102);
    assert_eq!(
        outcome,
        ReconciliationOutcome::BehindReality {
            stale_sequences: vec![seq1, seq2],
            new_baseline: 102,
        }
    );
    assert_eq!(mgr.baseline("GABC"), Some(102));
    assert_eq!(mgr.last_reserved("GABC"), Some(104));

    assert_eq!(mgr.reserve_next("GABC").unwrap(), 105);
}

#[test]
fn test_reconcile_behind_reality_does_not_corrupt_state() {
    let mut mgr = SequenceReservationManager::new();
    mgr.seed("GABC", 100);
    let _seq1 = mgr.reserve_next("GABC").unwrap(); // 101
    let _seq2 = mgr.reserve_next("GABC").unwrap(); // 102

    let outcome = mgr.reconcile("GABC", 95);
    assert_eq!(
        outcome,
        ReconciliationOutcome::AheadOfReality {
            observed: 95,
            baseline: 100,
        }
    );
    assert_eq!(mgr.baseline("GABC"), Some(100));
    assert_eq!(mgr.last_reserved("GABC"), Some(102));
    assert_eq!(mgr.reserve_next("GABC").unwrap(), 103);
}

#[test]
fn test_multisig_registry_seed_and_lookup() {
    let mut registry = MultisigAccountRegistry::new();
    let signer_a = [1u8; 32];
    let signer_b = [2u8; 32];
    registry.seed("GMULTISIG", &[(signer_a, 1), (signer_b, 2)], 2);

    assert_eq!(registry.signer_weight("GMULTISIG", &signer_a), Some(1));
    assert_eq!(registry.signer_weight("GMULTISIG", &signer_b), Some(2));
    assert_eq!(registry.threshold("GMULTISIG"), Some(2));
    assert!(registry.is_known_signer("GMULTISIG", &signer_a));
}

#[test]
fn test_multisig_registry_unknown_account_and_signer() {
    let registry = MultisigAccountRegistry::new();
    assert_eq!(registry.signer_weight("GUNKNOWN", &[9u8; 32]), None);
    assert_eq!(registry.threshold("GUNKNOWN"), None);
    assert!(!registry.is_known_signer("GUNKNOWN", &[9u8; 32]));

    let mut registry = MultisigAccountRegistry::new();
    registry.seed("GMULTISIG", &[([1u8; 32], 1)], 1);
    assert!(!registry.is_known_signer("GMULTISIG", &[9u8; 32]));
}
