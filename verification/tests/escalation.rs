use ed25519_dalek::{Signer, SigningKey};
use rand::rngs::OsRng;
use stellarconduit_sync_engine::conflict::{build_escalation, conflicts_between, Conflict, EscalationInput, QueuedSlot};
use stellarconduit_sync_engine::errors::SyncEngineError;
use stellarconduit_sync_engine::message::RelayChainProof;
use stellarconduit_sync_engine::stellar_address::pubkey_to_stellar_address;

/// A relay's statement that it forwarded an envelope.
fn sign_proof(
    key: &SigningKey,
    tx_id: &[u8; 32],
    chain_hash: &[u8; 32],
    sequence: u64,
) -> RelayChainProof {
    RelayChainProof {
        signature: key.sign(&statement(tx_id, chain_hash, sequence)).to_bytes(),
        chain_hash: *chain_hash,
        sequence,
    }
}

fn statement(tx_id: &[u8; 32], chain_hash: &[u8; 32], sequence: u64) -> Vec<u8> {
    let mut bytes = tx_id.to_vec();
    bytes.extend_from_slice(chain_hash);
    bytes.extend_from_slice(&sequence.to_be_bytes());
    bytes
}
fn base_conflict() -> Conflict {
    let a = QueuedSlot {
        source_account: "GABC".to_string(),
        sequence: 101,
        message_id: [1u8; 32],
    };
    let b = QueuedSlot {
        source_account: "GABC".to_string(),
        sequence: 101,
        message_id: [2u8; 32],
    };
    conflicts_between(&a, &b).unwrap()
}

fn proof_for(tx_id: &[u8; 32]) -> RelayChainProof {
    let key = SigningKey::generate(&mut OsRng);
    sign_proof(&key, tx_id, &[9u8; 32], 101)
}

fn input(
    message_id: [u8; 32],
    origin_pubkey: [u8; 32],
    first_seen_locally_at: u64,
) -> EscalationInput {
    EscalationInput {
        message_id,
        origin_pubkey,
        first_seen_locally_at,
        proof: proof_for(&message_id),
    }
}

#[test]
fn test_build_escalation_produces_valid_addresses() {
    let conflict = base_conflict();
    let envelope_a = input(conflict.envelope_a, [10u8; 32], 1000);
    let envelope_b = input(conflict.envelope_b, [20u8; 32], 2000);

    let escalation = build_escalation(&conflict, &envelope_a, &envelope_b).unwrap();

    assert_eq!(escalation.initiator, pubkey_to_stellar_address(&[10u8; 32]));
    assert_eq!(
        escalation.respondent,
        pubkey_to_stellar_address(&[20u8; 32])
    );
    assert!(escalation.initiator.starts_with('G'));
    assert!(escalation.respondent.starts_with('G'));
    assert_ne!(escalation.initiator, escalation.respondent);
    assert_eq!(escalation.tx_id, conflict.envelope_a);
}

#[test]
fn test_build_escalation_picks_earlier_seen_side_as_initiator() {
    let conflict = base_conflict();
    // envelope_b was seen locally *before* envelope_a, so it must become
    // the initiator even though it's conflict.envelope_b.
    let envelope_a = input(conflict.envelope_a, [10u8; 32], 5000);
    let envelope_b = input(conflict.envelope_b, [20u8; 32], 1000);

    let escalation = build_escalation(&conflict, &envelope_a, &envelope_b).unwrap();

    assert_eq!(escalation.tx_id, conflict.envelope_b);
    assert_eq!(escalation.initiator, pubkey_to_stellar_address(&[20u8; 32]));
    assert_eq!(
        escalation.respondent,
        pubkey_to_stellar_address(&[10u8; 32])
    );
}

#[test]
fn test_build_escalation_tie_defaults_to_envelope_a_as_initiator() {
    let conflict = base_conflict();
    let envelope_a = input(conflict.envelope_a, [10u8; 32], 1000);
    let envelope_b = input(conflict.envelope_b, [20u8; 32], 1000);

    let escalation = build_escalation(&conflict, &envelope_a, &envelope_b).unwrap();

    assert_eq!(escalation.tx_id, conflict.envelope_a);
}

#[test]
fn test_build_escalation_rejects_mismatched_evidence() {
    let conflict = base_conflict();
    // envelope_a's message_id doesn't match conflict.envelope_a at all.
    let wrong_envelope_a = input([99u8; 32], [10u8; 32], 1000);
    let envelope_b = input(conflict.envelope_b, [20u8; 32], 2000);

    let result = build_escalation(&conflict, &wrong_envelope_a, &envelope_b);
    assert!(matches!(result, Err(SyncEngineError::InvalidEnvelope(_))));
}

#[test]
fn test_build_escalation_proof_matches_initiator() {
    let conflict = base_conflict();
    let envelope_a = input(conflict.envelope_a, [10u8; 32], 1000);
    let envelope_b = input(conflict.envelope_b, [20u8; 32], 2000);
    let expected_proof = envelope_a.proof.clone();

    let escalation = build_escalation(&conflict, &envelope_a, &envelope_b).unwrap();
    assert_eq!(escalation.proof, expected_proof);
}
