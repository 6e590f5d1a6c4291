use ed25519_dalek::{Signature, SigningKey, Verifier};
use stellar_xdr::curr::{
    Limits, Memo, MuxedAccount, Preconditions, SequenceNumber, Transaction, TransactionEnvelope,
    TransactionExt, TransactionV1Envelope, Uint256, VecM, WriteXdr,
};
use stellarconduit_sync_engine::clock::MockClock;
use stellarconduit_sync_engine::conflict::Conflict;
use stellarconduit_sync_engine::engine::{StoredPayment, SyncEngine};
use stellarconduit_sync_engine::envelope::builder::MessageStamp;
use stellarconduit_sync_engine::envelope::InMemorySigner;
use stellarconduit_sync_engine::errors::SyncEngineError;
use stellarconduit_sync_engine::ffi::{
    check_payment_request, conflicts_to_json, decode_message_id, json_escape_string,
    settlement_status_name,
};
use stellarconduit_sync_engine::message::TransactionEnvelope as Envelope;
use stellarconduit_sync_engine::queue::TxPriority;
use stellarconduit_sync_engine::settlement::SettlementStatus;
use stellarconduit_sync_engine::storage::QueuedEnvelopeRecord;
use stellarconduit_sync_engine::text::hex_string;

const SOURCE_G: &str = "GAIRCEIRCEIRCEIRCEIRCEIRCEIRCEIRCEIRCEIRCEIRCEIRCEIRCF6M";
const SEQ: i64 = 103_720_918_407_610_369;
const NOW: u64 = 1_700_000_000;

/// A payment from the account with the key `[0x11; 32]`.
fn tx_xdr(sequence: i64) -> String {
    TransactionEnvelope::Tx(TransactionV1Envelope {
        tx: Transaction {
            source_account: MuxedAccount::Ed25519(Uint256([0x11; 32])),
            fee: 100,
            seq_num: SequenceNumber(sequence),
            cond: Preconditions::None,
            memo: Memo::None,
            operations: VecM::default(),
            ext: TransactionExt::V0,
        },
        signatures: VecM::default(),
    })
    .to_xdr_base64(Limits::none())
    .unwrap()
}

fn fresh() -> SyncEngine<MockClock> {
    SyncEngine::open(&Vec::new(), Vec::new(), MockClock::new(NOW))
}

fn stamp(id: u8) -> MessageStamp {
    MessageStamp {
        message_id: [id; 32],
        timestamp: NOW,
    }
}

/// Queue a payment, with storage that always succeeds.
fn queue(
    engine: &mut SyncEngine<MockClock>,
    sequence: i64,
    id: u8,
    priority: TxPriority,
) -> Envelope {
    let signer = InMemorySigner::new([7; 32]);
    let (hybrid, reserved) = engine
        .prepare_payment(SOURCE_G, &signer, tx_xdr(sequence), 10, &stamp(id))
        .unwrap();
    assert_eq!(reserved, sequence);
    engine
        .commit_payment(
            SOURCE_G,
            reserved,
            hybrid.classical_envelope,
            priority,
            NOW + sequence as u64,
            Ok(()),
        )
        .unwrap()
}

fn stored(envelope: Envelope, sequence: i64, status: Option<SettlementStatus>) -> StoredPayment {
    StoredPayment {
        record: QueuedEnvelopeRecord {
            envelope,
            source_account: SOURCE_G.to_string(),
            sequence,
            priority: TxPriority::Normal,
            enqueued_at: NOW + sequence as u64,
        },
        status,
    }
}

#[test]
fn an_unseeded_account_starts_at_zero() {
    let mut engine = fresh();
    assert_eq!(engine.last_reserved_sequence(SOURCE_G), None);
    let envelope = queue(&mut engine, 1, 1, TxPriority::Normal);

    assert_eq!(engine.last_reserved_sequence(SOURCE_G), Some(1));
    assert_eq!(
        engine.settlement_status([1; 32]),
        Some(SettlementStatus::Queued)
    );
    let key = SigningKey::from_bytes(&[7; 32]).verifying_key();
    assert_eq!(envelope.origin_pubkey, key.to_bytes());
    assert!(key
        .verify(
            &envelope.message_id,
            &Signature::from_bytes(&envelope.signature)
        )
        .is_ok());
}

#[test]
fn a_payment_that_was_not_stored_gives_its_sequence_back() {
    let mut engine = fresh();
    engine.seed_account(SOURCE_G, 40);
    let signer = InMemorySigner::new([7; 32]);
    let (hybrid, sequence) = engine
        .prepare_payment(SOURCE_G, &signer, tx_xdr(41), 10, &stamp(1))
        .unwrap();
    assert_eq!(engine.last_reserved_sequence(SOURCE_G), Some(41));
    let r = engine.commit_payment(
        SOURCE_G,
        sequence,
        hybrid.classical_envelope,
        TxPriority::Normal,
        NOW,
        Err(SyncEngineError::SqliteError("disk full".to_string())),
    );
    assert!(matches!(r, Err(SyncEngineError::SqliteError(_))));
    assert_eq!(engine.last_reserved_sequence(SOURCE_G), Some(40));
    assert_eq!(engine.settlement_status([1; 32]), None);
    assert_eq!(engine.next_to_dispatch(), None);

    // A retry takes the same sequence.
    queue(&mut engine, 41, 1, TxPriority::Normal);
    assert_eq!(engine.last_reserved_sequence(SOURCE_G), Some(41));
}

#[test]
fn a_dispatch_that_was_not_recorded_leaves_the_envelope_queued() {
    let mut engine = fresh();
    queue(&mut engine, 1, 1, TxPriority::Low);
    queue(&mut engine, 2, 2, TxPriority::Emergency);
    assert_eq!(engine.next_to_dispatch(), Some([2; 32]));

    assert!(engine.commit_dispatch(false).is_none());
    assert_eq!(engine.next_to_dispatch(), Some([2; 32]));

    assert_eq!(engine.commit_dispatch(true).unwrap().message_id, [2; 32]);
    assert_eq!(
        engine.settlement_status([2; 32]),
        Some(SettlementStatus::Propagating)
    );
    assert_eq!(engine.commit_dispatch(true).unwrap().message_id, [1; 32]);
    assert!(engine.commit_dispatch(true).is_none());
}

#[test]
fn a_restart_restores_queue_statuses_and_reservations() {
    let mut engine = fresh();
    let a = queue(&mut engine, 1, 1, TxPriority::Normal);
    let b = queue(&mut engine, 2, 2, TxPriority::Normal);
    let c = queue(&mut engine, 3, 3, TxPriority::Normal);
    assert_eq!(engine.commit_dispatch(true).unwrap().message_id, [1; 32]);

    let mut reopened = SyncEngine::open(
        &vec![(SOURCE_G.to_string(), 3)],
        vec![
            stored(a, 1, Some(SettlementStatus::Propagating)),
            stored(b, 2, Some(SettlementStatus::Queued)),
            stored(c, 3, None),
        ],
        MockClock::new(NOW),
    );
    assert_eq!(
        reopened.settlement_status([1; 32]),
        Some(SettlementStatus::Propagating)
    );
    assert_eq!(
        reopened.settlement_status([3; 32]),
        Some(SettlementStatus::Queued)
    );
    assert_eq!(reopened.last_reserved_sequence(SOURCE_G), Some(3));

    // What was dispatched is not dispatched again.
    assert_eq!(reopened.commit_dispatch(true).unwrap().message_id, [2; 32]);
    assert_eq!(reopened.commit_dispatch(true).unwrap().message_id, [3; 32]);
    assert!(reopened.commit_dispatch(true).is_none());

    // And the next payment takes the next sequence.
    queue(&mut reopened, 4, 4, TxPriority::Normal);
}

#[test]
fn settlement_follows_the_state_machine() {
    let mut engine = fresh();
    queue(&mut engine, 1, 1, TxPriority::Normal);
    assert!(matches!(
        engine.check_settlement([1; 32], SettlementStatus::Settled),
        Err(SyncEngineError::InvalidStateTransition { .. })
    ));
    assert!(matches!(
        engine.check_settlement([9; 32], SettlementStatus::Settled),
        Err(SyncEngineError::EnvelopeNotFound(id)) if id == hex::encode([9; 32])
    ));
    engine.commit_dispatch(true).unwrap();
    assert!(engine
        .check_settlement([1; 32], SettlementStatus::Settled)
        .is_ok());
    engine
        .mark_settlement([1; 32], SettlementStatus::Settled)
        .unwrap();
    assert!(engine
        .mark_settlement([1; 32], SettlementStatus::Failed)
        .is_err());
    assert_eq!(
        engine.settlement_status([1; 32]),
        Some(SettlementStatus::Settled)
    );
}

#[test]
fn test_ffi_queue_payment_happy_path() {
    let mut engine = fresh();
    engine.seed_account(SOURCE_G, SEQ - 1);
    let seed_hex = hex::encode([7u8; 32]);
    let (signer, priority) = check_payment_request(&seed_hex, 1).unwrap();
    assert_eq!(priority, TxPriority::Normal);
    let (hybrid, sequence) = engine
        .prepare_payment(SOURCE_G, &signer, tx_xdr(SEQ), 10, &stamp(5))
        .unwrap();
    assert_eq!(sequence, SEQ);
    let envelope = engine
        .commit_payment(
            SOURCE_G,
            sequence,
            hybrid.classical_envelope,
            priority,
            NOW,
            Ok(()),
        )
        .unwrap();
    let message_id_hex = hex_string(&envelope.message_id);
    assert_eq!(message_id_hex.len(), 64);
    assert_eq!(hex::decode(&message_id_hex).unwrap(), vec![5u8; 32]);
}

#[test]
fn malformed_arguments_are_refused() {
    let seed = hex::encode([7u8; 32]);
    assert!(check_payment_request("this is not hex!!", 0).is_none());
    assert!(check_payment_request("aabbcc", 0).is_none());
    assert!(check_payment_request(&seed, 250).is_none());
    assert!(check_payment_request(&seed, 3).is_none());
    assert!(check_payment_request(&seed.to_uppercase(), 2).is_some());

    let engine = fresh();
    assert_eq!(settlement_status_name(&engine, "not hex at all"), None);
    assert_eq!(settlement_status_name(&engine, "aabb"), None);
}

#[test]
fn hexadecimal_ids_are_read_back() {
    let mut id = [0u8; 32];
    for (i, byte) in id.iter_mut().enumerate() {
        *byte = (i * 37 + 5) as u8;
    }
    assert_eq!(hex_string(&id), hex::encode(id));
    assert_eq!(decode_message_id(&hex_string(&id)), Some(id));
    assert_eq!(decode_message_id(&hex::encode_upper(id)), Some(id));
    assert_eq!(decode_message_id(&hex_string(&id[..31])), None);
    assert_eq!(decode_message_id("\u{e9}"), None);
}

#[test]
fn test_ffi_settlement_status_lookup() {
    let mut engine = fresh();
    engine.seed_account(SOURCE_G, SEQ - 1);
    queue(&mut engine, SEQ, 6, TxPriority::Emergency);
    assert_eq!(
        settlement_status_name(&engine, &hex::encode([6u8; 32])),
        Some("queued")
    );
    assert_eq!(
        settlement_status_name(&engine, &hex::encode([9u8; 32])),
        None
    );
}

#[test]
fn test_ffi_conflict_listing() {
    assert_eq!(conflicts_to_json(&[]), "[]");
    let conflict = Conflict {
        source_account: "GCONFLICT".to_string(),
        sequence: 42,
        envelope_a: [0x11; 32],
        envelope_b: [0x22; 32],
    };
    let one = format!(
        "{{\"source_account\":\"GCONFLICT\",\"sequence\":42,\"envelope_a\":\"{}\",\"envelope_b\":\"{}\"}}",
        hex::encode([0x11; 32]),
        hex::encode([0x22; 32])
    );
    assert_eq!(
        conflicts_to_json(&[conflict.clone()]),
        format!("[{one}]")
    );
    assert_eq!(
        conflicts_to_json(&[conflict.clone(), conflict]),
        format!("[{one},{one}]")
    );
}

#[test]
fn json_strings_are_escaped() {
    assert_eq!(json_escape_string("plain \u{e9}"), "\"plain \u{e9}\"");
    assert_eq!(
        json_escape_string("a\"b\\c\nd\re\tf\u{1}g\u{1f}h"),
        "\"a\\\"b\\\\c\\nd\\re\\tf\\u0001g\\u001fh\""
    );
    let tricky = "quote \" slash \\ bell \u{7} end";
    let read: String = serde_json::from_str(&json_escape_string(tricky)).unwrap();
    assert_eq!(read, tricky);
}

#[test]
fn a_payment_that_is_no_longer_queued_is_not_dispatched() {
    let mut engine = fresh();
    queue(&mut engine, 1, 1, TxPriority::Normal);
    queue(&mut engine, 2, 2, TxPriority::Normal);
    queue(&mut engine, 3, 3, TxPriority::Normal);
    engine
        .mark_settlement([1; 32], SettlementStatus::Failed)
        .unwrap();
    engine
        .mark_settlement([2; 32], SettlementStatus::Propagating)
        .unwrap();
    engine
        .mark_settlement([2; 32], SettlementStatus::Settled)
        .unwrap();
    assert_eq!(engine.next_to_dispatch(), Some([3; 32]));
    assert_eq!(engine.commit_dispatch(true).unwrap().message_id, [3; 32]);
    assert_eq!(engine.next_to_dispatch(), None);
    assert_eq!(
        engine.settlement_status([1; 32]),
        Some(SettlementStatus::Failed)
    );
    assert_eq!(
        engine.settlement_status([2; 32]),
        Some(SettlementStatus::Settled)
    );

    // A refused change leaves the queue alone.
    queue(&mut engine, 4, 4, TxPriority::Normal);
    assert!(engine
        .mark_settlement([4; 32], SettlementStatus::Settled)
        .is_err());
    assert_eq!(engine.next_to_dispatch(), Some([4; 32]));
}
