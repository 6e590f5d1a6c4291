use ed25519_dalek::{Signature, Signer, SigningKey, Verifier, VerifyingKey};
use rand::rngs::OsRng;
use stellarconduit_sync_engine::conflict::proof_compression::{
    acc_genesis, acc_step, compose, fold_hop, genesis, verification_cost, verify_compressed,
    CompressedChainProof, TailHop, VerifiedChain, TAIL_WINDOW,
};
use stellarconduit_sync_engine::conflict::RelayObservation;
use stellarconduit_sync_engine::errors::SyncEngineError;
use stellarconduit_sync_engine::message::RelayChainProof;

/// A relay's statement that it forwarded an envelope.
fn sign_proof(
    key: &SigningKey,
    tx_id: &[u8; 32],
    chain_hash: &[u8; 32],
    sequence: u64,
) -> RelayChainProof {
    RelayChainProof {
        signature: key.sign(&statement(tx_id, chain_hash, sequence)).to_bytes(),
        chain_hash: *chain_hash,
        sequence,
    }
}

fn statement(tx_id: &[u8; 32], chain_hash: &[u8; 32], sequence: u64) -> Vec<u8> {
    let mut bytes = tx_id.to_vec();
    bytes.extend_from_slice(chain_hash);
    bytes.extend_from_slice(&sequence.to_be_bytes());
    bytes
}

/// Whether a proof is a statement of the relay about an envelope.
fn is_attested(relay_pubkey: &[u8; 32], proof: &RelayChainProof, tx_id: &[u8; 32]) -> bool {
    match VerifyingKey::from_bytes(relay_pubkey) {
        Ok(key) => key
            .verify(
                &statement(tx_id, &proof.chain_hash, proof.sequence),
                &Signature::from_bytes(&proof.signature),
            )
            .is_ok(),
        Err(_) => false,
    }
}

/// An observation as evidence for an envelope, with its signature checked.
fn observed(
    relay_pubkey: [u8; 32],
    proof: RelayChainProof,
    tx_id: &[u8; 32],
) -> RelayObservation {
    RelayObservation {
        attested: is_attested(&relay_pubkey, &proof, tx_id),
        relay_pubkey,
        proof,
    }
}

/// Verify a compressed proof, with the signatures of its tail checked.
fn checked(
    proof: &CompressedChainProof,
    origin: &[u8; 32],
    sequence: u64,
) -> Result<VerifiedChain, SyncEngineError> {
    let attested: Vec<bool> = proof
        .tail
        .iter()
        .map(|hop| is_attested(&hop.relay_pubkey, &hop.proof, origin))
        .collect();
    verify_compressed(proof, origin, sequence, &attested)
}

/// Fold a hop, with its signature checked.
fn fold_checked(
    proof: &CompressedChainProof,
    relay_pubkey: [u8; 32],
    hop: RelayChainProof,
) -> Result<CompressedChainProof, SyncEngineError> {
    let attested = is_attested(&relay_pubkey, &hop, &proof.origin_tx_id);
    fold_hop(proof, relay_pubkey, hop, attested)
}

/// A hop of the tail on the wire: relay, accumulator, signature, chain hash, sequence.
type WireHop = ([u8; 32], [u8; 32], Vec<u8>, [u8; 32], u64);

/// A compressed proof in MessagePack.
fn wire(proof: &CompressedChainProof) -> Vec<u8> {
    let tail: Vec<WireHop> = proof
        .tail
        .iter()
        .map(|hop| {
            (
                hop.relay_pubkey,
                hop.prev_acc,
                hop.proof.signature.to_vec(),
                hop.proof.chain_hash,
                hop.proof.sequence,
            )
        })
        .collect();
    rmp_serde::to_vec(&(
        proof.origin_tx_id,
        proof.sequence,
        proof.length,
        proof.acc,
        tail,
    ))
    .unwrap()
}

fn read_wire(bytes: &[u8]) -> CompressedChainProof {
    let (origin_tx_id, sequence, length, acc, tail): (
        [u8; 32],
        u64,
        u64,
        [u8; 32],
        Vec<WireHop>,
    ) = rmp_serde::from_slice(bytes).unwrap();
    CompressedChainProof {
        origin_tx_id,
        sequence,
        length,
        acc,
        tail: tail
            .into_iter()
            .map(|(relay_pubkey, prev_acc, signature, chain_hash, sequence)| TailHop {
                relay_pubkey,
                prev_acc,
                proof: RelayChainProof {
                    signature: signature.try_into().unwrap(),
                    chain_hash,
                    sequence,
                },
            })
            .collect(),
    }
}

const ORIGIN: [u8; 32] = [0x11; 32];
const SEQUENCE: u64 = 101;

fn relay_key() -> SigningKey {
    SigningKey::generate(&mut OsRng)
}

/// Build a valid `n`-hop chain: hop `i` is signed by a fresh relay over
/// `(ORIGIN, acc_{i-1}, SEQUENCE)`, exactly as the linking rule requires.
/// Returns the hop list plus the signing keys (index `i-1` signed hop `i`).
fn build_chain(n: usize) -> (Vec<RelayObservation>, Vec<SigningKey>) {
    build_chain_for(ORIGIN, SEQUENCE, n)
}

fn build_chain_for(
    origin: [u8; 32],
    sequence: u64,
    n: usize,
) -> (Vec<RelayObservation>, Vec<SigningKey>) {
    let mut hops = Vec::with_capacity(n);
    let mut keys = Vec::with_capacity(n);
    let mut acc = acc_genesis(&origin, sequence);
    for i in 1..=n as u64 {
        let key = relay_key();
        let pk = key.verifying_key().to_bytes();
        let proof = sign_proof(&key, &origin, &acc, sequence);
        acc = acc_step(&acc, &pk, i);
        hops.push(observed(pk, proof, &origin));
        keys.push(key);
    }
    (hops, keys)
}

#[test]
fn test_compose_empty_is_genesis() {
    let composed = compose(ORIGIN, SEQUENCE, &[]).unwrap();
    assert_eq!(composed, genesis(ORIGIN, SEQUENCE));
    assert_eq!(composed.length, 0);
    assert!(composed.tail.is_empty());
}

#[test]
fn test_compressed_proof_verifies_for_short_chain() {
    let (hops, _keys) = build_chain(3);
    let proof = compose(ORIGIN, SEQUENCE, &hops).unwrap();

    assert_eq!(proof.length, 3);
    assert_eq!(proof.tail.len(), 3); // whole chain fits in the tail

    let verified = checked(&proof, &ORIGIN, SEQUENCE).unwrap();
    assert_eq!(verified.length, 3);
    assert_eq!(verified.distinct_tail_relays, 3);
}

#[test]
fn test_compressed_proof_verifies_for_long_chain() {
    let (hops, _keys) = build_chain(512);
    let proof = compose(ORIGIN, SEQUENCE, &hops).unwrap();

    assert_eq!(proof.length, 512);
    assert_eq!(proof.tail.len(), TAIL_WINDOW); // bounded regardless of length

    let verified = checked(&proof, &ORIGIN, SEQUENCE).unwrap();
    assert_eq!(verified.length, 512);
    assert_eq!(verified.distinct_tail_relays, TAIL_WINDOW);
}

#[test]
fn test_incremental_fold_matches_full_reproof() {
    let (hops, _keys) = build_chain(40);

    // (a) fold hop-by-hop, as each relay would as the envelope passes it.
    let mut incremental = genesis(ORIGIN, SEQUENCE);
    for hop in &hops {
        incremental = fold_hop(&incremental, hop.relay_pubkey, hop.proof, hop.attested).unwrap();
    }

    // (b) compose the whole chain at the escalation point.
    let full = compose(ORIGIN, SEQUENCE, &hops).unwrap();

    assert_eq!(incremental, full);

    // (c) fold in two sessions (serialize the partial proof in between,
    // as a relay that goes offline mid-chain would) — still identical.
    let (first, second) = hops.split_at(17);
    let mut partial = genesis(ORIGIN, SEQUENCE);
    for hop in first {
        partial = fold_hop(&partial, hop.relay_pubkey, hop.proof, hop.attested).unwrap();
    }
    let round_tripped: CompressedChainProof = read_wire(&wire(&partial));
    let mut resumed = round_tripped;
    for hop in second {
        resumed = fold_hop(&resumed, hop.relay_pubkey, hop.proof, hop.attested).unwrap();
    }
    assert_eq!(resumed, full);
}

#[test]
fn test_tampered_hop_is_rejected_even_after_compression() {
    let (hops, keys) = build_chain(64);
    let good = compose(ORIGIN, SEQUENCE, &hops).unwrap();
    checked(&good, &ORIGIN, SEQUENCE).unwrap();

    // (a) An intermediate hop is tampered: relay 20 is swapped for an
    // attacker's key that re-signs over whatever it likes. Compression
    // must not launder this — the fold refuses it because the attacker
    // could not have signed over the real running accumulator.
    let mut tampered = hops.clone();
    let attacker = relay_key();
    tampered[20] = observed(
        attacker.verifying_key().to_bytes(),
        sign_proof(&attacker, &ORIGIN, &[0xAB; 32], SEQUENCE),
        &ORIGIN,
    );
    let err = compose(ORIGIN, SEQUENCE, &tampered).unwrap_err();
    assert!(matches!(err, SyncEngineError::CompressedProofInvalid(_)));

    // (b) The compressed accumulator itself is bit-flipped after the fact.
    let mut flipped = good.clone();
    flipped.acc[0] ^= 0x01;
    assert!(matches!(
        checked(&flipped, &ORIGIN, SEQUENCE),
        Err(SyncEngineError::CompressedProofInvalid(_))
    ));

    // (c) A tail attestation is replaced with one the same relay signed
    // over a *different* origin tx id — a genuine signature, wrong chain.
    let mut spliced = good.clone();
    let victim_hop_index = good.length as usize - TAIL_WINDOW + 1; // 1-based
    let victim_key = &keys[victim_hop_index - 1];
    spliced.tail[1].proof =
        sign_proof(victim_key, &[0xCD; 32], &spliced.tail[1].prev_acc, SEQUENCE);
    assert!(matches!(
        checked(&spliced, &ORIGIN, SEQUENCE),
        Err(SyncEngineError::CompressedProofInvalid(_))
    ));
}

#[test]
fn test_verification_cost_is_flat() {
    let (short_hops, _) = build_chain(8);
    let (long_hops, _) = build_chain(1024);
    let short = compose(ORIGIN, SEQUENCE, &short_hops).unwrap();
    let long = compose(ORIGIN, SEQUENCE, &long_hops).unwrap();

    // The claim that matters: identical verification work regardless of
    // how many hops the chain actually has.
    assert_eq!(verification_cost(&short), verification_cost(&long));
    assert_eq!(verification_cost(&long).signature_checks, TAIL_WINDOW);

    // The serialized artifact does not scale with chain length either. It
    // is not byte-for-byte identical — MessagePack varint-encodes the
    // `length` field and its per-byte array encoding depends on the random
    // key/hash/signature bytes — but the gap between an 8-hop and a
    // 1024-hop proof is a small constant, not linear in hop count.
    let short_size = wire(&short).len() as i64;
    let long_size = wire(&long).len() as i64;
    assert!(
        (short_size - long_size).abs() < 128,
        "artifact size grew with chain length: {short_size} vs {long_size}"
    );
}

#[test]
fn test_fold_rejects_wrong_sequence() {
    let start = genesis(ORIGIN, SEQUENCE);
    let key = relay_key();
    let wrong_seq_hop = sign_proof(&key, &ORIGIN, &start.acc, SEQUENCE + 1);
    let err = fold_checked(&start, key.verifying_key().to_bytes(), wrong_seq_hop).unwrap_err();
    assert!(matches!(err, SyncEngineError::CompressedProofInvalid(_)));
}

#[test]
fn test_fold_rejects_unlinked_hop() {
    let start = genesis(ORIGIN, SEQUENCE);
    let key = relay_key();
    // Signed over a chain_hash that isn't the current accumulator.
    let unlinked = sign_proof(&key, &ORIGIN, &[0x00; 32], SEQUENCE);
    let err = fold_checked(&start, key.verifying_key().to_bytes(), unlinked).unwrap_err();
    assert!(matches!(err, SyncEngineError::CompressedProofInvalid(_)));
}

#[test]
fn test_fold_rejects_wrong_signer() {
    let start = genesis(ORIGIN, SEQUENCE);
    let signer = relay_key();
    let hop = sign_proof(&signer, &ORIGIN, &start.acc, SEQUENCE);
    // Pair the proof with a *different* relay's pubkey.
    let other_pubkey = relay_key().verifying_key().to_bytes();
    let err = fold_checked(&start, other_pubkey, hop).unwrap_err();
    assert!(matches!(err, SyncEngineError::CompressedProofInvalid(_)));
}

#[test]
fn test_verify_rejects_below_quorum_tail() {
    // A one-hop chain: valid fold, but only one distinct relay in the
    // tail — below MIN_QUORUM, so it cannot carry an escalation alone.
    let (hops, _keys) = build_chain(1);
    let proof = compose(ORIGIN, SEQUENCE, &hops).unwrap();
    assert!(matches!(
        checked(&proof, &ORIGIN, SEQUENCE),
        Err(SyncEngineError::CompressedProofInvalid(_))
    ));
}

#[test]
fn test_verify_rejects_wrong_slot() {
    let (hops, _keys) = build_chain(10);
    let proof = compose(ORIGIN, SEQUENCE, &hops).unwrap();
    assert!(matches!(
        checked(&proof, &[0x22; 32], SEQUENCE),
        Err(SyncEngineError::CompressedProofInvalid(_))
    ));
    assert!(matches!(
        checked(&proof, &ORIGIN, SEQUENCE + 1),
        Err(SyncEngineError::CompressedProofInvalid(_))
    ));
}

#[test]
fn test_verify_rejects_forged_length_claim() {
    // Take a valid long chain and inflate its claimed length without
    // touching the tail. The tail no longer folds up to `acc` under the
    // shifted hop indices, so verification fails.
    let (hops, _keys) = build_chain(100);
    let mut proof = compose(ORIGIN, SEQUENCE, &hops).unwrap();
    proof.length += 50;
    assert!(matches!(
        checked(&proof, &ORIGIN, SEQUENCE),
        Err(SyncEngineError::CompressedProofInvalid(_))
    ));
}

#[test]
fn test_composition_is_deterministic() {
    let (hops, _keys) = build_chain(32);
    let a = compose(ORIGIN, SEQUENCE, &hops).unwrap();
    let b = compose(ORIGIN, SEQUENCE, &hops).unwrap();
    assert_eq!(a, b);
    assert_eq!(wire(&a), wire(&b));
}

#[test]
fn test_serde_roundtrip() {
    let (hops, _keys) = build_chain(20);
    let proof = compose(ORIGIN, SEQUENCE, &hops).unwrap();
    let bytes = wire(&proof);
    let back: CompressedChainProof = read_wire(&bytes);
    assert_eq!(proof, back);
    checked(&back, &ORIGIN, SEQUENCE).unwrap();
}

#[test]
fn test_distinct_relay_reuse_across_tail_counts_once() {
    // A relay that appears twice in the tail must count once for quorum.
    // Build a 3-hop chain where hop 2 reuses hop 1's key, then a fresh
    // hop 3; tail = all three, distinct relays = 2 == MIN_QUORUM.
    let origin = [0x33; 32];
    let seq = 7;
    let mut acc = acc_genesis(&origin, seq);
    let k1 = relay_key();
    let k3 = relay_key();
    let signers = [&k1, &k1, &k3];
    let mut hops = Vec::new();
    for (i, k) in signers.iter().enumerate() {
        let pk = k.verifying_key().to_bytes();
        let proof = sign_proof(k, &origin, &acc, seq);
        acc = acc_step(&acc, &pk, i as u64 + 1);
        hops.push(observed(pk, proof, &origin));
    }
    let proof = compose(origin, seq, &hops).unwrap();
    let verified = checked(&proof, &origin, seq).unwrap();
    assert_eq!(verified.distinct_tail_relays, 2);
}
