use ed25519_dalek::{Signature, Signer, SigningKey, Verifier, VerifyingKey};
use sha2::{Digest, Sha256};
use stellarconduit_sync_engine::bytes::bytes_lt;
use stellarconduit_sync_engine::cli::{PriorityArg, QueueAction};
use stellarconduit_sync_engine::clock::{Clock, HybridClock, MockClock};
use stellarconduit_sync_engine::conflict::proof_compression::{acc_genesis, acc_step};
use stellarconduit_sync_engine::conflict::ResolutionSummary;
use stellarconduit_sync_engine::encryption::{
    decrypt, encrypt, EncryptedData, EncryptionKey, EncryptionNonce,
};
use stellarconduit_sync_engine::envelope::builder::multisig_payload_hash;
use stellarconduit_sync_engine::envelope::{InMemorySigner, KeySigner};
use stellarconduit_sync_engine::errors::SyncEngineError;
use stellarconduit_sync_engine::maps::{IdMap, NameMap};
use stellarconduit_sync_engine::message::TransactionEnvelope;
use stellarconduit_sync_engine::metrics::SyncEngineMetrics;
use stellarconduit_sync_engine::natural::Natural;
use stellarconduit_sync_engine::queue::reputation::ReputationTracker;
use stellarconduit_sync_engine::queue::{OutboundTxQueue, TxPriority};
use stellarconduit_sync_engine::settlement::invariants::check_entries;
use stellarconduit_sync_engine::settlement::transparency_log::{leaf_hash, node_hash, LogEntry};
use stellarconduit_sync_engine::settlement::SettlementStatus;
use stellarconduit_sync_engine::storage::QueuedEnvelopeRecord;
use stellarconduit_sync_engine::text::{append_decimal, append_signed, hex_string};

fn envelope(id: u8) -> TransactionEnvelope {
    TransactionEnvelope {
        message_id: [id; 32],
        origin_pubkey: [1; 32],
        tx_xdr: "xdr".to_string(),
        ttl_hops: 3,
        timestamp: 9,
        signature: [0; 64],
    }
}

#[test]
fn numbers_are_written_in_decimal() {
    for n in [0, 7, 10, 1_234_567, u64::MAX] {
        let mut out = "n=".to_string();
        append_decimal(&mut out, n);
        assert_eq!(out, format!("n={n}"));
    }
    for n in [i64::MIN, -10, 0, i64::MAX] {
        let mut out = String::new();
        append_signed(&mut out, n);
        assert_eq!(out, n.to_string());
    }
}

#[test]
fn bytes_are_written_in_hexadecimal() {
    assert_eq!(hex_string(&[0, 15, 16, 255]), "000f10ff");
}

#[test]
fn byte_strings_are_ordered_like_slices() {
    let samples: [&[u8]; 5] = [b"", b"a", b"ab", b"b", &[255, 0]];
    for a in samples {
        for b in samples {
            assert_eq!(bytes_lt(a, b), a < b);
        }
    }
}

#[test]
fn natural_numbers_compute() {
    let a = Natural::from_u64(u64::MAX);
    let b = Natural::from_u64(1_000_003);
    let big = a.times(&a).plus(&b);
    assert!(big.divided_by(&a).equals(&a));
    assert!(big.modulo(&a).equals(&b));
    assert!(big.minus(&b).equals(&a.times(&a)));
    // 3^20 mod 1000 = 401
    let power = Natural::from_u64(3).modpow(&Natural::from_u64(20), &Natural::from_u64(1000));
    assert!(power.equals(&Natural::from_u64(401)));
    assert_eq!(
        Natural::power_of_two(70).to_bytes_be(),
        vec![64, 0, 0, 0, 0, 0, 0, 0, 0]
    );
    assert!(Natural::random(40).less_than(&Natural::power_of_two(40)));
    assert!(Natural::from_bytes_be(&[0, 0, 1, 0]).equals(&Natural::from_u64(256)));
}

#[test]
fn signatures_are_those_of_ed25519() {
    let signer = InMemorySigner::new([3; 32]);
    let key = SigningKey::from_bytes(&[3; 32]);
    assert_eq!(signer.public_key(), key.verifying_key().to_bytes());
    assert_eq!(signer.sign(b"message").unwrap(), key.sign(b"message").to_bytes());
    let public = VerifyingKey::from_bytes(&signer.public_key()).unwrap();
    let signature = Signature::from_bytes(&signer.sign(b"message").unwrap());
    assert!(public.verify(b"other", &signature).is_err());
}

#[test]
fn multisig_payload_is_bound_to_account_sequence_and_transaction() {
    let mut bytes = b"GMULTI".to_vec();
    bytes.extend_from_slice(&(-5i64).to_le_bytes());
    bytes.extend_from_slice(b"xdr");
    let expected: [u8; 32] = Sha256::digest(&bytes).into();
    assert_eq!(multisig_payload_hash("GMULTI", -5, "xdr"), expected);
    assert_ne!(multisig_payload_hash("GMULTI", -4, "xdr"), expected);
}

#[test]
fn resolution_payloads_are_hashed() {
    let expected: [u8; 32] = Sha256::digest(b"payload").into();
    let summary = ResolutionSummary::from_payload(1, b"payload");
    assert_eq!(summary.payload_hash, expected);
}

#[test]
fn accumulators_depend_on_every_input() {
    let a = acc_genesis(&[1; 32], 7);
    assert_ne!(a, acc_genesis(&[2; 32], 7));
    assert_ne!(a, acc_genesis(&[1; 32], 8));
    let b = acc_step(&a, &[3; 32], 1);
    assert_ne!(b, acc_step(&a, &[4; 32], 1));
    assert_ne!(b, acc_step(&a, &[3; 32], 2));
    assert_ne!(b, a);
}

#[test]
fn leaves_and_nodes_hash_differently() {
    let entry = LogEntry {
        index: 0,
        message_id: [1; 32],
        from_status: String::new(),
        to_status: "queued".to_string(),
        timestamp: 5,
    };
    let leaf = leaf_hash(&entry);
    assert_ne!(leaf, node_hash(&leaf, &leaf));
    assert_ne!(node_hash(&[1; 32], &[2; 32]), node_hash(&[2; 32], &[1; 32]));
}

#[test]
fn encryption_is_that_of_aes_gcm() {
    // A known answer: all-zero key, nonce and block.
    let key = EncryptionKey::from_bytes([0; 32]);
    let nonce = EncryptionNonce::from_bytes([0; 12]);
    let ciphertext = encrypt(&[0; 16], &key, &nonce).unwrap();
    assert_eq!(
        hex_string(&ciphertext),
        "cea7403d4d606b6e074ec5d3baf39d18d0d1c8a799996bf0265b98b5d48ab919"
    );
    assert_eq!(decrypt(&ciphertext, &key, &nonce).unwrap(), vec![0; 16]);
    assert!(matches!(
        decrypt(&ciphertext, &key, &EncryptionNonce::from_bytes([1; 12])),
        Err(SyncEngineError::DecryptionFailed)
    ));

    let data = EncryptedData::encrypt_with_nonce(&[0; 16], &key, &nonce).unwrap();
    assert_eq!(&data.as_bytes()[..12], &[0; 12]);
    assert_eq!(&data.as_bytes()[12..], &ciphertext[..]);
    assert_eq!(data.decrypt(&key).unwrap(), vec![0; 16]);
    assert!(matches!(
        EncryptedData::from_bytes(vec![1; 11]).decrypt(&key),
        Err(SyncEngineError::DecryptionFailed)
    ));
}

#[test]
fn passphrases_are_stretched() {
    let key = EncryptionKey::from_passphrase("passphrase", &[7; 16]).unwrap();
    assert_ne!(key.as_bytes(), &[0; 32]);
    assert_ne!(&key.as_bytes()[..10], b"passphrase");
}

#[test]
fn maps_hold_one_value_per_key() {
    let mut ids: IdMap<u8> = IdMap::new();
    ids.insert([1; 32], 10);
    ids.insert([2; 32], 20);
    ids.insert([1; 32], 11);
    assert_eq!((ids.len(), ids.get(&[1; 32])), (2, Some(&11)));
    assert_eq!(ids.remove(&[1; 32]), Some(11));
    assert!(!ids.contains_key(&[1; 32]));

    let mut names: NameMap<u8> = NameMap::new();
    names.insert("a".to_string(), 1);
    names.insert("a".to_string(), 2);
    assert_eq!((names.len(), names.get("a")), (1, Some(&2)));
    assert_eq!(names.remove("b"), None);
}

#[test]
fn equal_times_leave_in_the_order_of_arrival() {
    let mut queue = OutboundTxQueue::new(MockClock::new(5));
    for id in 1..6 {
        queue.push(envelope(id), TxPriority::Normal).unwrap();
    }
    assert_eq!(queue.peek().unwrap().message_id, [1; 32]);
    for id in 1..6 {
        assert_eq!(queue.pop().unwrap().message_id, [id; 32]);
    }
}

#[test]
fn the_hybrid_clock_reads_the_wall_clock() {
    let clock = HybridClock::new();
    assert!(clock.now_secs() > 1_600_000_000);
    assert!(clock.elapsed_since(clock.now_secs()) < 5);
}

#[test]
fn reputation_counts_results_once() {
    let mut tracker = ReputationTracker::new();
    tracker.record_submission([1; 32], [9; 32]);
    let before = tracker.score(&[1; 32]);
    tracker.apply_settlement_result([9; 32], true);
    let after = tracker.score(&[1; 32]);
    assert!(after > before);
    tracker.apply_settlement_result([9; 32], true);
    assert_eq!(tracker.score(&[1; 32]), after);
    assert_eq!(tracker.score(&[2; 32]), before);
}

#[test]
fn duplicate_entries_are_a_violation() {
    let entries = [
        ([1; 32], SettlementStatus::Queued),
        ([1; 32], SettlementStatus::Settled),
    ];
    assert!(check_entries(&entries).is_err());
    assert!(check_entries(&entries[..1]).is_ok());
}

#[test]
fn prometheus_text_is_exact() {
    let mut metrics = SyncEngineMetrics::new();
    metrics.queue_evictions = 12;
    let text = metrics.to_prometheus_text();
    assert!(text.starts_with(
        "# HELP stellarconduit_sync_queued_total Total number of envelopes ever queued.\n\
         # TYPE stellarconduit_sync_queued_total counter\n\
         stellarconduit_sync_queued_total 0\n\
         # HELP stellarconduit_sync_settled_total "
    ));
    assert!(text.ends_with(
        "# HELP stellarconduit_sync_queue_evictions_total Total number of envelopes evicted \
         from queue due to staleness or TTL.\n\
         # TYPE stellarconduit_sync_queue_evictions_total counter\n\
         stellarconduit_sync_queue_evictions_total 12\n"
    ));
    assert_eq!(text.lines().count(), 18);
}

#[test]
fn listings_filter_by_account_and_priority() {
    let record = QueuedEnvelopeRecord {
        envelope: envelope(1),
        source_account: "GABC".to_string(),
        sequence: 1,
        priority: TxPriority::from(PriorityArg::Emergency),
        enqueued_at: 5,
    };
    let list = |account: Option<&str>, priority: Option<PriorityArg>| QueueAction::List {
        account: account.map(|a| a.to_string()),
        priority,
    };
    assert!(list(None, None).selects(&record));
    assert!(list(Some("GABC"), Some(PriorityArg::Emergency)).selects(&record));
    assert!(!list(Some("GXYZ"), None).selects(&record));
    assert!(!list(None, Some(PriorityArg::Low)).selects(&record));
    assert!(!list(Some("GABC"), Some(PriorityArg::Normal)).selects(&record));
}

#[test]
fn errors_have_their_messages() {
    assert_eq!(
        SyncEngineError::DecryptionFailed.to_string(),
        "decryption failed: wrong key or corrupted data"
    );
    assert_eq!(
        SyncEngineError::SequenceOutOfOrder {
            account: "GABC".to_string(),
            requested: -3,
            last_reserved: 7,
        }
        .to_string(),
        "sequence number -3 is not greater than last reserved 7 for account GABC"
    );
}
