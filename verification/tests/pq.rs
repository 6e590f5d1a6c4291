use ed25519_dalek::{Signature, SigningKey, Verifier, VerifyingKey};
use pqcrypto_dilithium::dilithium2::keypair;
use pqcrypto_traits::sign::{PublicKey, SecretKey};
use rand::rngs::OsRng;
use sha2::{Digest, Sha256};
use stellar_xdr::curr::{
    Limits, Memo, MuxedAccount, Preconditions, SequenceNumber, Transaction, TransactionEnvelope,
    TransactionExt, TransactionV1Envelope, Uint256, VecM, WriteXdr,
};
use stellarconduit_sync_engine::envelope::builder::MessageStamp;
use stellarconduit_sync_engine::envelope::pq::{PqKeyPair, SigningPolicy};
use stellarconduit_sync_engine::envelope::{InMemorySigner, OfflineEnvelopeBuilder};
use stellarconduit_sync_engine::errors::SyncEngineError;
use stellarconduit_sync_engine::message::TransactionEnvelope as Envelope;
use stellarconduit_sync_engine::queue::SequenceReservationManager;

const SOURCE_G: &str = "GAIRCEIRCEIRCEIRCEIRCEIRCEIRCEIRCEIRCEIRCEIRCEIRCEIRCF6M";
const SEQ: i64 = 103_720_918_407_610_369;
const NOW: u64 = 1_700_000_000;

/// A payment from the account with the key `[0x11; 32]`.
fn transaction(source_account: MuxedAccount, sequence: i64) -> Transaction {
    Transaction {
        source_account,
        fee: 100,
        seq_num: SequenceNumber(sequence),
        cond: Preconditions::None,
        memo: Memo::None,
        operations: VecM::default(),
        ext: TransactionExt::V0,
    }
}

fn v1_envelope(source_account: MuxedAccount, sequence: i64) -> String {
    TransactionEnvelope::Tx(TransactionV1Envelope {
        tx: transaction(source_account, sequence),
        signatures: VecM::default(),
    })
    .to_xdr_base64(Limits::none())
    .unwrap()
}

fn fixture(name: &str) -> String {
    let source = MuxedAccount::Ed25519(Uint256([0x11; 32]));
    match name {
        "transaction_v1_envelope.b64" => v1_envelope(source, SEQ),
        "transaction_v1_envelope_seq_next.b64" => v1_envelope(source, SEQ + 1),
        other => panic!("no fixture {other}"),
    }
}

/// The message id of a signer, a transaction and a time.
fn message_id(origin_pubkey: &[u8; 32], tx_xdr: &str, timestamp: u64) -> [u8; 32] {
    let mut bytes = origin_pubkey.to_vec();
    bytes.extend_from_slice(tx_xdr.as_bytes());
    bytes.extend_from_slice(&timestamp.to_be_bytes());
    Sha256::digest(&bytes).into()
}

fn stamp(key: &SigningKey, tx_xdr: &str) -> MessageStamp {
    MessageStamp {
        message_id: message_id(&key.verifying_key().to_bytes(), tx_xdr, NOW),
        timestamp: NOW,
    }
}

/// The id is that of the contents, and the origin signed it.
fn is_valid(envelope: &Envelope) -> bool {
    let key = VerifyingKey::from_bytes(&envelope.origin_pubkey).unwrap();
    envelope.message_id
        == message_id(&envelope.origin_pubkey, &envelope.tx_xdr, envelope.timestamp)
        && key
            .verify(
                &envelope.message_id,
                &Signature::from_bytes(&envelope.signature),
            )
            .is_ok()
}

fn key_pair() -> PqKeyPair {
    let (public_key, secret_key) = keypair();
    PqKeyPair::from_bytes(
        public_key.as_bytes().to_vec(),
        secret_key.as_bytes().to_vec(),
    )
    .unwrap()
}

fn signing_key() -> SigningKey {
    SigningKey::generate(&mut OsRng)
}

#[test]
fn test_classical_only_signing_unchanged_from_baseline() {
    let mut sequences = SequenceReservationManager::new();
    sequences.seed(SOURCE_G, SEQ - 1);
    let key = signing_key();

    let (hybrid_env, _) = OfflineEnvelopeBuilder::build_and_sign(
        &mut sequences,
        SOURCE_G,
        &InMemorySigner::new(key.to_bytes()),
        &SigningPolicy::ClassicalOnly,
        fixture("transaction_v1_envelope.b64"),
        10,
        &stamp(&key, &fixture("transaction_v1_envelope.b64")),
    )
    .unwrap();

    assert!(hybrid_env.pq_signature.is_none());
    assert!(hybrid_env.pq_public_key.is_none());
    assert!(is_valid(&hybrid_env.classical_envelope));
}

#[test]
fn test_hybrid_signing_produces_both_valid_signatures() {
    let mut sequences = SequenceReservationManager::new();
    sequences.seed(SOURCE_G, SEQ - 1);
    let key = signing_key();

    let policy = SigningPolicy::Hybrid(key_pair());

    let (hybrid_env, _) = OfflineEnvelopeBuilder::build_and_sign(
        &mut sequences,
        SOURCE_G,
        &InMemorySigner::new(key.to_bytes()),
        &policy,
        fixture("transaction_v1_envelope.b64"),
        10,
        &stamp(&key, &fixture("transaction_v1_envelope.b64")),
    )
    .unwrap();

    assert!(hybrid_env.pq_signature.is_some());
    assert!(hybrid_env.pq_public_key.is_some());

    // Both classical and PQ signatures must be valid
    assert!(is_valid(&hybrid_env.classical_envelope));
    assert!(hybrid_env.verify_pq().is_ok());
}

#[test]
fn test_hybrid_verification_fails_if_either_signature_is_tampered() {
    let mut sequences = SequenceReservationManager::new();
    sequences.seed(SOURCE_G, SEQ - 1);
    let key = signing_key();

    let policy = SigningPolicy::Hybrid(key_pair());

    let (mut hybrid_env, _) = OfflineEnvelopeBuilder::build_and_sign(
        &mut sequences,
        SOURCE_G,
        &InMemorySigner::new(key.to_bytes()),
        &policy,
        fixture("transaction_v1_envelope.b64"),
        10,
        &stamp(&key, &fixture("transaction_v1_envelope.b64")),
    )
    .unwrap();

    assert!(hybrid_env.verify_pq().is_ok());

    // Tamper with the PQ signature
    if let Some(ref mut sig) = hybrid_env.pq_signature {
        sig[0] ^= 0xff;
    }
    assert!(matches!(
        hybrid_env.verify_pq(),
        Err(SyncEngineError::PqVerificationFailed)
    ));
}

#[test]
fn test_pq_signature_size_overhead_is_within_documented_bound() {
    let mut sequences = SequenceReservationManager::new();
    sequences.seed(SOURCE_G, SEQ - 1);
    let key = signing_key();

    let policy = SigningPolicy::Hybrid(key_pair());

    let (hybrid_env, _) = OfflineEnvelopeBuilder::build_and_sign(
        &mut sequences,
        SOURCE_G,
        &InMemorySigner::new(key.to_bytes()),
        &policy,
        fixture("transaction_v1_envelope.b64"),
        10,
        &stamp(&key, &fixture("transaction_v1_envelope.b64")),
    )
    .unwrap();

    let sig_size = hybrid_env
        .pq_signature
        .as_ref()
        .map(|s| s.len())
        .unwrap_or(0);

    // ML-DSA-44 (Dilithium2) signatures should be ~2420 bytes.
    // We assert it's less than 2500 to allow for minimal overhead,
    // ensuring it doesn't accidentally bloat (e.g. SPHINCS+).
    assert!(
        sig_size > 0 && sig_size < 2500,
        "PQ Signature size out of expected ML-DSA-44 bounds: {}",
        sig_size
    );
}
