use stellarconduit_sync_engine::settlement::transparency_log::{
    empty_hash, leaf_hash, verify_consistency_proof, verify_inclusion_proof, LogEntry, TransparencyLog,
};

fn make_entry(index: u64, msg: u8, from: &str, to: &str, ts: u64) -> LogEntry {
    LogEntry {
        index,
        message_id: [msg; 32],
        from_status: from.to_string(),
        to_status: to.to_string(),
        timestamp: ts,
    }
}

#[test]
fn test_empty_log_has_zero_root() {
    let log = TransparencyLog::new();
    assert!(log.is_empty());
    assert_eq!(log.len(), 0);
    assert_eq!(log.root_hash(), empty_hash());
}

#[test]
fn test_single_entry_root_changes() {
    let mut log = TransparencyLog::new();
    let root_before = log.root_hash();
    log.append(make_entry(0, 1, "", "queued", 1000));
    assert_ne!(log.root_hash(), root_before);
    assert_ne!(log.root_hash(), empty_hash());
}

#[test]
fn test_appending_changes_root() {
    let mut log = TransparencyLog::new();
    log.append(make_entry(0, 1, "", "queued", 1000));
    let root_after_first = log.root_hash();
    log.append(make_entry(0, 1, "queued", "propagating", 1001));
    assert_ne!(log.root_hash(), root_after_first);
}

#[test]
fn test_modifying_earlier_entry_changes_later_root() {
    // Build two logs that differ only in entry 0.
    let mut log_a = TransparencyLog::new();
    log_a.append(make_entry(0, 1, "", "queued", 1000));
    log_a.append(make_entry(0, 1, "queued", "settled", 1001));

    let mut log_b = TransparencyLog::new();
    log_b.append(make_entry(0, 1, "", "queued", 9999)); // different timestamp
    log_b.append(make_entry(0, 1, "queued", "settled", 1001));

    assert_ne!(log_a.root_hash(), log_b.root_hash());
}

#[test]
fn test_inclusion_proof_verifies_for_real_entry() {
    let mut log = TransparencyLog::new();
    for i in 0..8u8 {
        log.append(make_entry(i as u64, i, "", "queued", 1000 + i as u64));
    }

    for idx in 0..8 {
        let proof = log.inclusion_proof(idx).expect("proof should exist");
        assert!(
            verify_inclusion_proof(&proof),
            "inclusion proof failed for index {}",
            idx
        );
        assert_eq!(proof.leaf_index, idx);
        assert_eq!(proof.root_hash, log.root_hash());
        // Path should have exactly log2(8) = 3 levels.
        assert_eq!(proof.path.len(), 3);
    }
}

#[test]
fn test_inclusion_proof_rejects_wrong_index() {
    let mut log = TransparencyLog::new();
    log.append(make_entry(0, 1, "", "queued", 1000));

    let mut proof = log.inclusion_proof(0).unwrap();
    // Tamper with the leaf index — proof should still verify (index is not
    // part of the hash, only the leaf hash matters) but the leaf_hash field
    // should match the actual leaf.
    assert!(verify_inclusion_proof(&proof));

    // Change the leaf_hash to something wrong.
    proof.leaf_hash = [0xff; 32];
    assert!(!verify_inclusion_proof(&proof));
}

#[test]
fn test_consistency_proof_verifies_across_log_growth() {
    let mut log = TransparencyLog::new();
    for i in 0..8u8 {
        log.append(make_entry(i as u64, i, "", "queued", 1000 + i as u64));
    }

    // Prove consistency between size 2 and size 8.
    let proof = log
        .consistency_proof_for(2)
        .expect("consistency proof should exist");
    assert!(
        verify_consistency_proof(&proof, &log.leaves),
        "consistency proof should verify"
    );
    assert_eq!(proof.old_size, 2);
    assert_eq!(proof.new_size, 8);

    // Also test size 4 → 8 (a power-of-two boundary).
    let proof = log.consistency_proof_for(4).unwrap();
    assert!(verify_consistency_proof(&proof, &log.leaves));
}

#[test]
fn test_tampered_historical_entry_is_detected_via_root_hash_mismatch() {
    let mut log = TransparencyLog::new();
    for i in 0..5u8 {
        log.append(make_entry(i as u64, i, "", "queued", 1000 + i as u64));
    }
    let original_root = log.root_hash();
    assert!(log.verify_root());

    // Simulate out-of-band tampering: modify an earlier entry directly.
    log.entries[1].to_status = "settled".to_string();
    log.leaves[1] = leaf_hash(&log.entries[1]);

    // The cached root hasn't changed, but recomputing from the leaves
    // produces a different root.
    assert!(!log.verify_root());
    assert_eq!(log.root, original_root); // cached root unchanged

    // After a "restart" where we rebuild the log from the tampered entries,
    // the root will be different.
    let rebuilt = TransparencyLog::from_entries(log.entries.clone());
    assert_ne!(rebuilt.root_hash(), original_root);
}

#[test]
fn test_consistency_proof_fails_for_a_non_append_only_modification() {
    // Build a log of size 8, take a snapshot at size 4, then modify an
    // entry in [0..4) and see if consistency proof fails.
    let mut log = TransparencyLog::new();
    for i in 0..8u8 {
        log.append(make_entry(i as u64, i, "", "queued", 1000 + u64::from(i)));
    }

    let proof = log.consistency_proof_for(4).unwrap();

    // Tamper with the new tree: change entry 1 (within the old range).
    log.entries[2].to_status = "settled".to_string();
    log.leaves[2] = leaf_hash(&log.entries[2]);

    // The proof was generated before tampering, so the new root no longer
    // matches.
    assert!(!verify_consistency_proof(&proof, &log.leaves));

    // Also: a reordered entry in the old range should fail.
    let mut log2 = TransparencyLog::new();
    let entries: Vec<LogEntry> = (0..8u8)
        .map(|i| make_entry(i as u64, i, "", "queued", 1000 + u64::from(i)))
        .collect();
    for e in &entries {
        log2.append(e.clone());
    }
    let old_leaves2: Vec<[u8; 32]> = log2.leaves[..4].to_vec();
    let proof2 = log2.consistency_proof_for(4).unwrap();

    // Swap entries 1 and 2 in the "replayed" log.
    let mut tampered = entries;
    tampered.swap(1, 2);
    let mut log3 = TransparencyLog::new();
    for e in &tampered {
        log3.append(e.clone());
    }
    assert!(!verify_consistency_proof(&proof2, &log3.leaves));
    // Also verify old leaves don't match (the reordering changed them).
    assert_ne!(old_leaves2[..], log3.leaves[..4]);
}

#[test]
fn test_verify_entries_detects_leaf_tampering() {
    let mut log = TransparencyLog::new();
    log.append(make_entry(0, 1, "", "queued", 1000));
    log.append(make_entry(0, 1, "queued", "settled", 1001));

    // Tamper with the cached leaf hash directly.
    log.leaves[0] = [0xab; 32];

    assert!(!log.verify_entries());
    assert!(!log.verify_integrity());
}

#[test]
fn test_proof_of_empty_log_range_is_none() {
    let mut log = TransparencyLog::new();
    log.append(make_entry(0, 1, "", "queued", 1000));
    assert!(log.consistency_proof_for(0).is_none());
    assert!(log.consistency_proof_for(2).is_none());
}

#[test]
fn test_root_hash_is_stable_for_same_input() {
    let mut a = TransparencyLog::new();
    let mut b = TransparencyLog::new();
    for i in 0..10u8 {
        a.append(make_entry(i as u64, i, "", "queued", 1000 + u64::from(i)));
        b.append(make_entry(i as u64, i, "", "queued", 1000 + u64::from(i)));
    }
    assert_eq!(a.root_hash(), b.root_hash());
}

#[test]
fn test_different_message_ids_produce_different_roots() {
    let mut a = TransparencyLog::new();
    let mut b = TransparencyLog::new();
    a.append(make_entry(0, 1, "", "queued", 1000));
    b.append(make_entry(0, 2, "", "queued", 1000)); // different message_id
    assert_ne!(a.root_hash(), b.root_hash());
}

#[test]
fn test_get_entries_returns_all_entries() {
    let mut log = TransparencyLog::new();
    for i in 0..5u8 {
        log.append(make_entry(i as u64, i, "", "queued", 1000 + u64::from(i)));
    }
    assert_eq!(log.entries().len(), 5);
    assert_eq!(log.get(0).unwrap().message_id, [0u8; 32]);
    assert_eq!(log.get(4).unwrap().message_id, [4u8; 32]);
    assert!(log.get(5).is_none());
}

#[test]
fn statuses_do_not_run_into_each_other() {
    let mut a = TransparencyLog::new();
    a.append(make_entry(0, 1, "", "queued", 100));
    let mut b = TransparencyLog::new();
    b.append(make_entry(0, 1, "queued", "", 100));
    let mut c = TransparencyLog::new();
    c.append(make_entry(0, 1, "que", "ued", 100));
    assert_ne!(a.root_hash(), b.root_hash());
    assert_ne!(a.root_hash(), c.root_hash());
    assert_ne!(b.root_hash(), c.root_hash());
}

#[test]
fn an_entry_is_hashed_over_all_of_its_fields() {
    let entry = make_entry(0x0102, 9, "a", "bc", 3);
    let mut expected = vec![2, 1, 0, 0, 0, 0, 0, 0];
    expected.extend_from_slice(&entry.message_id);
    expected.extend_from_slice(b"a\xffbc");
    expected.extend_from_slice(&[3, 0, 0, 0, 0, 0, 0, 0]);
    assert_eq!(entry.to_hash_bytes(), expected);
}
