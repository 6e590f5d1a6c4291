use ed25519_dalek::{Signature, Signer, SigningKey, Verifier, VerifyingKey};
use rand::rngs::OsRng;
use sha2::{Digest, Sha256};
use stellar_xdr::curr::{
    Limits, Memo, MuxedAccount, Preconditions, SequenceNumber, Transaction, TransactionEnvelope,
    TransactionExt, TransactionV1Envelope, Uint256, VecM, WriteXdr,
};
use stellarconduit_sync_engine::clock::HybridClock;
use stellarconduit_sync_engine::envelope::builder::{resequence_and_resign, MessageStamp};
use stellarconduit_sync_engine::envelope::pq::SigningPolicy;
use stellarconduit_sync_engine::envelope::xdr::with_updated_sequence;
use stellarconduit_sync_engine::envelope::{
    add_signature, extract_source_account_and_sequence, try_promote, InMemorySigner,
    OfflineEnvelopeBuilder, PartiallySignedEnvelope,
};
use stellarconduit_sync_engine::errors::SyncEngineError;
use stellarconduit_sync_engine::message::TransactionEnvelope as Envelope;
use stellarconduit_sync_engine::queue::{
    MultisigAccountRegistry, OutboundTxQueue, SequenceReservationManager, TxPriority,
};

const SOURCE_G: &str = "GAIRCEIRCEIRCEIRCEIRCEIRCEIRCEIRCEIRCEIRCEIRCEIRCEIRCF6M";
const FEE_SOURCE_G: &str = "GAZTGMZTGMZTGMZTGMZTGMZTGMZTGMZTGMZTGMZTGMZTGMZTGMZTHCM6";
const SEQ: i64 = 103_720_918_407_610_369;
const NOW: u64 = 1_700_000_000;

fn signing_key() -> SigningKey {
    SigningKey::generate(&mut OsRng)
}

/// A payment from the account with the key `[0x11; 32]`.
fn transaction(source_account: MuxedAccount, sequence: i64) -> Transaction {
    Transaction {
        source_account,
        fee: 100,
        seq_num: SequenceNumber(sequence),
        cond: Preconditions::None,
        memo: Memo::None,
        operations: VecM::default(),
        ext: TransactionExt::V0,
    }
}

fn v1_envelope(source_account: MuxedAccount, sequence: i64) -> String {
    TransactionEnvelope::Tx(TransactionV1Envelope {
        tx: transaction(source_account, sequence),
        signatures: VecM::default(),
    })
    .to_xdr_base64(Limits::none())
    .unwrap()
}

fn fixture(name: &str) -> String {
    let source = MuxedAccount::Ed25519(Uint256([0x11; 32]));
    match name {
        "transaction_v1_envelope.b64" => v1_envelope(source, SEQ),
        "transaction_v1_envelope_seq_next.b64" => v1_envelope(source, SEQ + 1),
        other => panic!("no fixture {other}"),
    }
}

/// The message id of a signer, a transaction and a time.
fn message_id(origin_pubkey: &[u8; 32], tx_xdr: &str, timestamp: u64) -> [u8; 32] {
    let mut bytes = origin_pubkey.to_vec();
    bytes.extend_from_slice(tx_xdr.as_bytes());
    bytes.extend_from_slice(&timestamp.to_be_bytes());
    Sha256::digest(&bytes).into()
}

fn stamp(key: &SigningKey, tx_xdr: &str) -> MessageStamp {
    MessageStamp {
        message_id: message_id(&key.verifying_key().to_bytes(), tx_xdr, NOW),
        timestamp: NOW,
    }
}

/// The id is that of the contents, and the origin signed it.
fn is_valid(envelope: &Envelope) -> bool {
    let key = VerifyingKey::from_bytes(&envelope.origin_pubkey).unwrap();
    envelope.message_id
        == message_id(&envelope.origin_pubkey, &envelope.tx_xdr, envelope.timestamp)
        && key
            .verify(
                &envelope.message_id,
                &Signature::from_bytes(&envelope.signature),
            )
            .is_ok()
}

/// An envelope that the key signed.
fn signed_envelope(key: &SigningKey, tx_xdr: String) -> Envelope {
    let stamp = stamp(key, &tx_xdr);
    Envelope {
        message_id: stamp.message_id,
        origin_pubkey: key.verifying_key().to_bytes(),
        tx_xdr,
        ttl_hops: 10,
        timestamp: stamp.timestamp,
        signature: key.sign(&stamp.message_id).to_bytes(),
    }
}

/// The stamp of an envelope with another sequence.
fn new_stamp(key: &SigningKey, old: &Envelope, sequence: i64) -> MessageStamp {
    stamp(key, &with_updated_sequence(&old.tx_xdr, sequence).unwrap())
}

#[test]
fn test_build_and_sign_produces_valid_envelope() {
    let mut sequences = SequenceReservationManager::new();
    sequences.seed(SOURCE_G, SEQ - 1);
    let key = signing_key();
    let signer = InMemorySigner::new(key.to_bytes());

    let (hybrid_env, sequence) = OfflineEnvelopeBuilder::build_and_sign(
        &mut sequences,
        SOURCE_G,
        &signer,
        &SigningPolicy::ClassicalOnly,
        fixture("transaction_v1_envelope.b64"),
        10,
        &stamp(&key, &fixture("transaction_v1_envelope.b64")),
    )
    .unwrap();

    // The returned sequence is the one embedded in the XDR, not merely the
    // next reservation.
    assert_eq!(sequence, SEQ);
    assert!(is_valid(&hybrid_env.classical_envelope));
    assert_eq!(
        hybrid_env.classical_envelope.origin_pubkey,
        key.verifying_key().to_bytes()
    );
}

#[test]
fn test_successive_builds_consume_successive_sequences() {
    let mut sequences = SequenceReservationManager::new();
    sequences.seed(SOURCE_G, SEQ - 1);
    let key = signing_key();
    let signer = InMemorySigner::new(key.to_bytes());

    let (_, seq_a) = OfflineEnvelopeBuilder::build_and_sign(
        &mut sequences,
        SOURCE_G,
        &signer,
        &SigningPolicy::ClassicalOnly,
        fixture("transaction_v1_envelope.b64"),
        10,
        &stamp(&key, &fixture("transaction_v1_envelope.b64")),
    )
    .unwrap();
    let (_, seq_b) = OfflineEnvelopeBuilder::build_and_sign(
        &mut sequences,
        SOURCE_G,
        &signer,
        &SigningPolicy::ClassicalOnly,
        fixture("transaction_v1_envelope_seq_next.b64"),
        10,
        &stamp(&key, &fixture("transaction_v1_envelope_seq_next.b64")),
    )
    .unwrap();

    assert_eq!(seq_a, SEQ);
    assert_eq!(seq_b, SEQ + 1);
}

#[test]
fn test_build_without_seed_errors() {
    let mut sequences = SequenceReservationManager::new();
    let key = signing_key();
    let signer = InMemorySigner::new(key.to_bytes());
    // Correct account (matches the XDR), but never seeded.
    let result = OfflineEnvelopeBuilder::build_and_sign(
        &mut sequences,
        SOURCE_G,
        &signer,
        &SigningPolicy::ClassicalOnly,
        fixture("transaction_v1_envelope.b64"),
        10,
        &stamp(&key, &fixture("transaction_v1_envelope.b64")),
    );
    assert!(matches!(
        result,
        Err(SyncEngineError::NoSequenceReserved(_))
    ));
}

#[test]
fn test_mismatched_caller_claim_is_rejected() {
    // Caller claims account A (the fee source), but the XDR actually encodes
    // account B (the source): the mismatch must be caught, not accepted.
    let mut sequences = SequenceReservationManager::new();
    sequences.seed(FEE_SOURCE_G, SEQ - 1);
    let key = signing_key();
    let signer = InMemorySigner::new(key.to_bytes());

    let result = OfflineEnvelopeBuilder::build_and_sign(
        &mut sequences,
        FEE_SOURCE_G,
        &signer,
        &SigningPolicy::ClassicalOnly,
        fixture("transaction_v1_envelope.b64"),
        10,
        &stamp(&key, &fixture("transaction_v1_envelope.b64")),
    );

    match result {
        Err(SyncEngineError::SourceAccountMismatch { claimed, actual }) => {
            assert_eq!(claimed, FEE_SOURCE_G);
            assert_eq!(actual, SOURCE_G);
        }
        other => panic!("expected SourceAccountMismatch, got {other:?}"),
    }
    // The reservation must be untouched: we rejected before reserving.
    assert_eq!(sequences.last_reserved(FEE_SOURCE_G), Some(SEQ - 1));
}

#[test]
fn test_sequence_mismatch_is_rejected_and_rolled_back() {
    // The manager's view of the account has drifted from the XDR: reserving
    // hands out a sequence that does not match what actually got built.
    let mut sequences = SequenceReservationManager::new();
    sequences.seed(SOURCE_G, 50);
    let key = signing_key();
    let signer = InMemorySigner::new(key.to_bytes());

    let result = OfflineEnvelopeBuilder::build_and_sign(
        &mut sequences,
        SOURCE_G,
        &signer,
        &SigningPolicy::ClassicalOnly,
        fixture("transaction_v1_envelope.b64"),
        10,
        &stamp(&key, &fixture("transaction_v1_envelope.b64")),
    );

    match result {
        Err(SyncEngineError::SequenceMismatch {
            account,
            reserved,
            actual,
        }) => {
            assert_eq!(account, SOURCE_G);
            assert_eq!(reserved, 51);
            assert_eq!(actual, SEQ);
        }
        other => panic!("expected SequenceMismatch, got {other:?}"),
    }
    // The failed reservation must have been rolled back.
    assert_eq!(sequences.last_reserved(SOURCE_G), Some(50));
}

#[test]
fn test_malformed_xdr_is_rejected() {
    let mut sequences = SequenceReservationManager::new();
    sequences.seed(SOURCE_G, SEQ - 1);
    let key = signing_key();
    let signer = InMemorySigner::new(key.to_bytes());

    let result = OfflineEnvelopeBuilder::build_and_sign(
        &mut sequences,
        SOURCE_G,
        &signer,
        &SigningPolicy::ClassicalOnly,
        "not-valid-xdr !!!".to_string(),
        10,
        &stamp(&key, "not-valid-xdr !!!"),
    );
    assert!(matches!(result, Err(SyncEngineError::XdrParse(_))));
}

#[test]
fn test_resequence_updates_embedded_sequence() {
    let old_xdr = fixture("transaction_v1_envelope.b64");
    let key = signing_key();
    let signer = InMemorySigner::new(key.to_bytes());
    let old_env = signed_envelope(&key, old_xdr);

    let new_env = resequence_and_resign(
        &old_env,
        SEQ + 5,
        &signer,
        &SigningPolicy::ClassicalOnly,
        &new_stamp(&key, &old_env, SEQ + 5),
    )
    .unwrap();

    let (_, new_seq) =
        extract_source_account_and_sequence(&new_env.classical_envelope.tx_xdr).unwrap();
    assert_eq!(new_seq, SEQ + 5);
}

#[test]
fn test_resequence_produces_new_message_id() {
    let old_xdr = fixture("transaction_v1_envelope.b64");
    let key = signing_key();
    let signer = InMemorySigner::new(key.to_bytes());
    let old_env = signed_envelope(&key, old_xdr);

    let new_env = resequence_and_resign(
        &old_env,
        SEQ + 5,
        &signer,
        &SigningPolicy::ClassicalOnly,
        &new_stamp(&key, &old_env, SEQ + 5),
    )
    .unwrap();
    assert_ne!(old_env.message_id, new_env.classical_envelope.message_id);
}

#[test]
fn test_resequence_preserves_other_transaction_fields() {
    let old_xdr = fixture("transaction_v1_envelope.b64");
    let key = signing_key();
    let signer = InMemorySigner::new(key.to_bytes());
    let old_env = signed_envelope(&key, old_xdr);

    let new_env = resequence_and_resign(
        &old_env,
        SEQ + 5,
        &signer,
        &SigningPolicy::ClassicalOnly,
        &new_stamp(&key, &old_env, SEQ + 5),
    )
    .unwrap();

    let (old_account, _) = extract_source_account_and_sequence(&old_env.tx_xdr).unwrap();
    let (new_account, _) =
        extract_source_account_and_sequence(&new_env.classical_envelope.tx_xdr).unwrap();
    assert_eq!(old_account, new_account);
}

#[test]
fn test_resequence_produces_validly_signed_envelope() {
    let old_xdr = fixture("transaction_v1_envelope.b64");
    let key = signing_key();
    let signer = InMemorySigner::new(key.to_bytes());
    let old_env = signed_envelope(&key, old_xdr);

    let new_env = resequence_and_resign(
        &old_env,
        SEQ + 5,
        &signer,
        &SigningPolicy::ClassicalOnly,
        &new_stamp(&key, &old_env, SEQ + 5),
    )
    .unwrap();
    assert!(is_valid(&new_env.classical_envelope));
}

/// A 2-of-3 registry: three equally-weighted signers, threshold 2.
fn registry_2_of_3(signers: &[SigningKey]) -> MultisigAccountRegistry {
    let mut registry = MultisigAccountRegistry::new();
    let weights: Vec<([u8; 32], u32)> = signers
        .iter()
        .map(|k| (k.verifying_key().to_bytes(), 1))
        .collect();
    registry.seed("GMULTISIG", &weights, 2);
    registry
}

#[test]
fn test_single_signature_below_threshold_not_promotable() {
    let signers: Vec<SigningKey> = (0..3).map(|_| signing_key()).collect();
    let registry = registry_2_of_3(&signers);
    let mut partial = PartiallySignedEnvelope::new("GMULTISIG".to_string(), 101, "tx_xdr".to_string());

    let signer0 = InMemorySigner::new(signers[0].to_bytes());
    add_signature(&mut partial, &registry, &signer0).unwrap();

    assert_eq!(partial.accumulated_weight(&registry), 1);
    assert!(!partial.meets_threshold(&registry));

    let mesh_key = signing_key();
    let mesh_signer = InMemorySigner::new(mesh_key.to_bytes());
    let err = try_promote(
        &partial,
        &registry,
        &mesh_signer,
        &SigningPolicy::ClassicalOnly,
        10,
        &stamp(&mesh_key, "tx_xdr"),
    )
    .expect_err("one of two required signatures must not be promotable");
    assert!(matches!(
        err,
        SyncEngineError::MultisigThresholdNotMet {
            accumulated_weight: 1,
            required_threshold: 2,
            ..
        }
    ));
}

#[test]
fn test_threshold_met_promotes_to_dispatchable() {
    let signers: Vec<SigningKey> = (0..3).map(|_| signing_key()).collect();
    let registry = registry_2_of_3(&signers);
    let mut partial = PartiallySignedEnvelope::new("GMULTISIG".to_string(), 101, "tx_xdr".to_string());

    let signer0 = InMemorySigner::new(signers[0].to_bytes());
    let signer1 = InMemorySigner::new(signers[1].to_bytes());
    add_signature(&mut partial, &registry, &signer0).unwrap();
    add_signature(&mut partial, &registry, &signer1).unwrap();
    assert!(partial.meets_threshold(&registry));

    let mesh_key = signing_key();
    let mesh_signer = InMemorySigner::new(mesh_key.to_bytes());
    let hybrid_env = try_promote(
        &partial,
        &registry,
        &mesh_signer,
        &SigningPolicy::ClassicalOnly,
        10,
        &stamp(&mesh_key, "tx_xdr"),
    )
    .expect("threshold met, envelope should be promotable");

    assert!(is_valid(&hybrid_env.classical_envelope));
    assert_eq!(
        hybrid_env.classical_envelope.origin_pubkey,
        mesh_key.verifying_key().to_bytes()
    );
    assert_eq!(hybrid_env.classical_envelope.tx_xdr, "tx_xdr");

    // A promoted envelope is a genuine TransactionEnvelope and is
    // therefore eligible for OutboundTxQueue — an envelope below
    // threshold has no way to produce one to push here at all.
    let mut queue = OutboundTxQueue::new(HybridClock::new());
    queue
        .push(
            hybrid_env.classical_envelope,
            TxPriority::Emergency,
        )
        .unwrap();
    assert_eq!(queue.len(), 1);
}

#[test]
fn test_duplicate_signer_does_not_double_count_weight() {
    let signers: Vec<SigningKey> = (0..3).map(|_| signing_key()).collect();
    let registry = registry_2_of_3(&signers);
    let mut partial = PartiallySignedEnvelope::new("GMULTISIG".to_string(), 101, "tx_xdr".to_string());

    let signer0 = InMemorySigner::new(signers[0].to_bytes());
    add_signature(&mut partial, &registry, &signer0).unwrap();
    add_signature(&mut partial, &registry, &signer0).unwrap();
    add_signature(&mut partial, &registry, &signer0).unwrap();

    assert_eq!(partial.contributor_count(), 1);
    assert_eq!(partial.accumulated_weight(&registry), 1);
    assert!(!partial.meets_threshold(&registry));
}

#[test]
fn test_unknown_signer_is_rejected() {
    let signers: Vec<SigningKey> = (0..3).map(|_| signing_key()).collect();
    let registry = registry_2_of_3(&signers);
    let mut partial = PartiallySignedEnvelope::new("GMULTISIG".to_string(), 101, "tx_xdr".to_string());

    let outsider = signing_key();
    let outsider_signer =
        InMemorySigner::new(outsider.to_bytes());
    let err = add_signature(&mut partial, &registry, &outsider_signer)
        .expect_err("a key outside the account's signer set must be rejected");
    assert!(matches!(err, SyncEngineError::UnknownMultisigSigner { .. }));

    // The rejected contribution must not have been silently counted.
    assert_eq!(partial.contributor_count(), 0);
    assert_eq!(partial.accumulated_weight(&registry), 0);
}
