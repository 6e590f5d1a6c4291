use ed25519_dalek::{Signature, Signer, SigningKey, Verifier, VerifyingKey};
use rand::rngs::OsRng;
use stellarconduit_sync_engine::conflict::{
    conflicts_between, quorum_standing, resolve_conflict, resolve_conflict_with_tiebreak,
    resolve_nway_conflict, select_tiebreak_evaluator, vrf_tiebreak, CandidateEvidence, Conflict,
    ConflictEvidence, NWayConflict, QueuedSlot, QuorumStanding, RelayObservation, RelayVrfIdentity,
};
use stellarconduit_sync_engine::errors::SyncEngineError;
use stellarconduit_sync_engine::message::RelayChainProof;

/// A relay's statement that it forwarded an envelope.
fn sign_proof(
    key: &SigningKey,
    tx_id: &[u8; 32],
    chain_hash: &[u8; 32],
    sequence: u64,
) -> RelayChainProof {
    RelayChainProof {
        signature: key.sign(&statement(tx_id, chain_hash, sequence)).to_bytes(),
        chain_hash: *chain_hash,
        sequence,
    }
}

fn statement(tx_id: &[u8; 32], chain_hash: &[u8; 32], sequence: u64) -> Vec<u8> {
    let mut bytes = tx_id.to_vec();
    bytes.extend_from_slice(chain_hash);
    bytes.extend_from_slice(&sequence.to_be_bytes());
    bytes
}

/// Whether a proof is a statement of the relay about an envelope.
fn is_attested(relay_pubkey: &[u8; 32], proof: &RelayChainProof, tx_id: &[u8; 32]) -> bool {
    match VerifyingKey::from_bytes(relay_pubkey) {
        Ok(key) => key
            .verify(
                &statement(tx_id, &proof.chain_hash, proof.sequence),
                &Signature::from_bytes(&proof.signature),
            )
            .is_ok(),
        Err(_) => false,
    }
}

/// An observation as evidence for an envelope, with its signature checked.
fn observed(
    relay_pubkey: [u8; 32],
    proof: RelayChainProof,
    tx_id: &[u8; 32],
) -> RelayObservation {
    RelayObservation {
        attested: is_attested(&relay_pubkey, &proof, tx_id),
        relay_pubkey,
        proof,
    }
}
fn relay_key() -> SigningKey {
    SigningKey::generate(&mut OsRng)
}

fn observation_for(key: &SigningKey, tx_id: &[u8; 32], sequence: u64) -> RelayObservation {
    let chain_hash = [7u8; 32];
    observed(
        key.verifying_key().to_bytes(),
        sign_proof(key, tx_id, &chain_hash, sequence),
        tx_id,
    )
}

fn base_conflict() -> Conflict {
    let a = QueuedSlot {
        source_account: "GABC".to_string(),
        sequence: 101,
        message_id: [1u8; 32],
    };
    let b = QueuedSlot {
        source_account: "GABC".to_string(),
        sequence: 101,
        message_id: [2u8; 32],
    };
    conflicts_between(&a, &b).unwrap()
}

fn empty_evidence() -> ConflictEvidence {
    ConflictEvidence {
        envelope_a_timestamp: 1_700_000_000,
        envelope_b_timestamp: 1_700_000_001,
        envelope_a_observations: Vec::new(),
        envelope_b_observations: Vec::new(),
    }
}

fn observations_from_n_distinct_relays(
    n: usize,
    tx_id: &[u8; 32],
    sequence: u64,
) -> Vec<RelayObservation> {
    (0..n)
        .map(|_| observation_for(&relay_key(), tx_id, sequence))
        .collect()
}

#[test]
fn test_resolve_conflict_is_unresolved_by_default() {
    let conflict = base_conflict();
    let result = resolve_conflict(&conflict, &empty_evidence());
    assert!(matches!(
        result,
        Err(SyncEngineError::UnresolvedConflict(_))
    ));
}

#[test]
fn test_resolution_is_deterministic() {
    let conflict = base_conflict();
    let evidence = ConflictEvidence {
        envelope_a_observations: observations_from_n_distinct_relays(
            3,
            &conflict.envelope_a,
            conflict.sequence as u64,
        ),
        envelope_b_observations: observations_from_n_distinct_relays(
            1,
            &conflict.envelope_b,
            conflict.sequence as u64,
        ),
        ..empty_evidence()
    };

    let first = resolve_conflict(&conflict, &evidence);
    let second = resolve_conflict(&conflict, &evidence);
    assert_eq!(first.unwrap(), second.unwrap());
}

#[test]
fn test_stronger_evidence_side_wins() {
    let conflict = base_conflict();
    let evidence = ConflictEvidence {
        envelope_a_observations: observations_from_n_distinct_relays(
            3,
            &conflict.envelope_a,
            conflict.sequence as u64,
        ),
        envelope_b_observations: observations_from_n_distinct_relays(
            1,
            &conflict.envelope_b,
            conflict.sequence as u64,
        ),
        ..empty_evidence()
    };

    let winner = resolve_conflict(&conflict, &evidence).unwrap();
    assert_eq!(winner, conflict.envelope_a);
}

#[test]
fn test_single_relay_insufficient_against_multi_relay() {
    let conflict = base_conflict();
    // Side A is backed by a single relay keypair which resubmits the same
    // proof several times, trying to look like more than one witness.
    let single_relay = relay_key();
    let duplicated_proof = observation_for(
        &single_relay,
        &conflict.envelope_a,
        conflict.sequence as u64,
    );
    let evidence = ConflictEvidence {
        envelope_a_observations: vec![
            duplicated_proof.clone(),
            duplicated_proof.clone(),
            duplicated_proof,
        ],
        envelope_b_observations: observations_from_n_distinct_relays(
            3,
            &conflict.envelope_b,
            conflict.sequence as u64,
        ),
        ..empty_evidence()
    };

    let winner = resolve_conflict(&conflict, &evidence).unwrap();
    assert_eq!(
        winner, conflict.envelope_b,
        "3 distinct relays must beat 1 relay no matter how many times it resubmits"
    );
}

#[test]
fn test_equal_evidence_is_unresolved() {
    let conflict = base_conflict();
    let evidence = ConflictEvidence {
        envelope_a_observations: observations_from_n_distinct_relays(
            2,
            &conflict.envelope_a,
            conflict.sequence as u64,
        ),
        envelope_b_observations: observations_from_n_distinct_relays(
            2,
            &conflict.envelope_b,
            conflict.sequence as u64,
        ),
        ..empty_evidence()
    };

    assert!(matches!(
        resolve_conflict(&conflict, &evidence),
        Err(SyncEngineError::UnresolvedConflict(_))
    ));
}

#[test]
fn test_no_evidence_is_unresolved() {
    let conflict = base_conflict();
    assert!(matches!(
        resolve_conflict(&conflict, &empty_evidence()),
        Err(SyncEngineError::UnresolvedConflict(_))
    ));
}

#[test]
fn test_malformed_proof_is_rejected_not_trusted() {
    let conflict = base_conflict();

    // Side A: 3 distinct relays sign for the *wrong* sequence number, so
    // none of them should count as valid evidence for this conflict, even
    // though each proof is a genuine, validly-signed RelayChainProof.
    let wrong_sequence = conflict.sequence as u64 + 1;
    let envelope_a_observations =
        observations_from_n_distinct_relays(3, &conflict.envelope_a, wrong_sequence);

    // Side B: 3 distinct relays sign correctly for this conflict's
    // sequence.
    let envelope_b_observations =
        observations_from_n_distinct_relays(3, &conflict.envelope_b, conflict.sequence as u64);

    let evidence = ConflictEvidence {
        envelope_a_observations,
        envelope_b_observations,
        ..empty_evidence()
    };

    // If the malformed proofs on side A had been trusted, this would be a
    // 3-vs-3 tie (Unresolved). Because they must be excluded, side A's
    // valid count is actually 0, so side B wins outright.
    let winner = resolve_conflict(&conflict, &evidence).unwrap();
    assert_eq!(winner, conflict.envelope_b);
}

#[test]
fn test_wrong_signature_proof_is_rejected() {
    let conflict = base_conflict();
    // A proof correctly signed for a *different* tx_id (e.g. harvested
    // for envelope_b) must not verify against envelope_a's tx_id, so it
    // shouldn't count as evidence for side A even paired with the
    // correct signer pubkey.
    let key = relay_key();
    let mismatched = observed(
        key.verifying_key().to_bytes(),
        sign_proof(
            &key,
            &conflict.envelope_b,
            &[7u8; 32],
            conflict.sequence as u64,
        ),
        &conflict.envelope_a,
    );

    let evidence = ConflictEvidence {
        envelope_a_observations: vec![
            mismatched,
            observation_for(&relay_key(), &conflict.envelope_a, conflict.sequence as u64),
        ],
        envelope_b_observations: observations_from_n_distinct_relays(
            3,
            &conflict.envelope_b,
            conflict.sequence as u64,
        ),
        ..empty_evidence()
    };

    // Side A only has 1 genuinely valid relay (the mismatched one is
    // excluded), well short of quorum, so side B wins.
    let winner = resolve_conflict(&conflict, &evidence).unwrap();
    assert_eq!(winner, conflict.envelope_b);
}

// ── N-way resolution ────────────────────────────────────────────────────

fn base_nway_conflict() -> (NWayConflict, [u8; 32], [u8; 32], [u8; 32]) {
    let a = [1u8; 32];
    let b = [2u8; 32];
    let c = [3u8; 32];
    let mut message_ids = vec![a, b, c];
    message_ids.sort();
    (
        NWayConflict {
            source_account: "GABC".to_string(),
            sequence: 101,
            message_ids,
        },
        a,
        b,
        c,
    )
}

fn candidate(message_id: [u8; 32], relay_count: usize, sequence: i64) -> CandidateEvidence {
    CandidateEvidence {
        message_id,
        timestamp: 1_700_000_000,
        observations: observations_from_n_distinct_relays(
            relay_count,
            &message_id,
            sequence as u64,
        ),
    }
}

#[test]
fn test_three_way_conflict_picks_single_winner_when_scores_differ() {
    let (conflict, a, b, c) = base_nway_conflict();
    let evidence = vec![
        candidate(a, 3, conflict.sequence),
        candidate(b, 5, conflict.sequence),
        candidate(c, 2, conflict.sequence),
    ];
    let winner = resolve_nway_conflict(&conflict, &evidence).unwrap();
    assert_eq!(winner, b);
}

#[test]
fn test_three_way_conflict_with_tied_top_scores_is_unresolved() {
    let (conflict, a, b, c) = base_nway_conflict();
    // a and b are tied for the top distinct-relay count -- neither one is
    // a strict maximum over the whole set, so the slot must be
    // unresolved even though both individually clear MIN_QUORUM.
    let evidence = vec![
        candidate(a, 4, conflict.sequence),
        candidate(b, 4, conflict.sequence),
        candidate(c, 2, conflict.sequence),
    ];
    let result = resolve_nway_conflict(&conflict, &evidence);
    assert!(matches!(
        result,
        Err(SyncEngineError::UnresolvedConflict(_))
    ));
}

#[test]
fn test_n_way_resolution_is_never_intransitive() {
    // A resolver that judged conflicts via independent pairwise
    // comparisons could produce a cycle: A beats B, B beats C, but C
    // beats A. That requires a "beats" relation that depends on which
    // specific pair is being judged, e.g. a Condorcet/rock-paper-
    // scissors-style comparator, rather than a fixed per-candidate
    // measure like our distinct-relay count.
    fn naive_pairwise_beats(x: u8, y: u8) -> bool {
        matches!((x % 3, y % 3), (0, 1) | (1, 2) | (2, 0))
    }

    // Confirm the cycle actually exists for this comparator, so the test
    // demonstrates a real bug class rather than a strawman.
    assert!(naive_pairwise_beats(0, 1)); // A beats B
    assert!(naive_pairwise_beats(1, 2)); // B beats C
    assert!(naive_pairwise_beats(2, 0)); // C beats A -- cycle!

    // `resolve_nway_conflict` never asks "does A beat B" in isolation: it
    // computes every candidate's distinct-relay count once and ranks the
    // whole set together, which is a single total order over `usize` and
    // therefore cannot cycle.
    let (conflict, a, b, c) = base_nway_conflict();
    let evidence = vec![
        candidate(a, 3, conflict.sequence),
        candidate(b, 5, conflict.sequence),
        candidate(c, 2, conflict.sequence),
    ];
    let winner = resolve_nway_conflict(&conflict, &evidence).unwrap();
    // b beats both a and c simultaneously in the same pass -- there is
    // one answer, not a set of pairwise judgments that could disagree.
    assert_eq!(winner, b);
}

#[test]
fn test_existing_two_way_behavior_preserved() {
    // The N-way path must agree with the pairwise path when given the same
    // underlying evidence recast as a 2-candidate `NWayConflict`.
    let conflict = base_conflict();
    let pairwise_evidence = ConflictEvidence {
        envelope_a_observations: observations_from_n_distinct_relays(
            3,
            &conflict.envelope_a,
            conflict.sequence as u64,
        ),
        envelope_b_observations: observations_from_n_distinct_relays(
            1,
            &conflict.envelope_b,
            conflict.sequence as u64,
        ),
        ..empty_evidence()
    };
    let pairwise_winner = resolve_conflict(&conflict, &pairwise_evidence).unwrap();
    assert_eq!(pairwise_winner, conflict.envelope_a);

    let mut message_ids = vec![conflict.envelope_a, conflict.envelope_b];
    message_ids.sort();
    let nway_conflict = NWayConflict {
        source_account: conflict.source_account.clone(),
        sequence: conflict.sequence,
        message_ids,
    };
    let nway_evidence = vec![
        CandidateEvidence {
            message_id: conflict.envelope_a,
            timestamp: pairwise_evidence.envelope_a_timestamp,
            observations: pairwise_evidence.envelope_a_observations.clone(),
        },
        CandidateEvidence {
            message_id: conflict.envelope_b,
            timestamp: pairwise_evidence.envelope_b_timestamp,
            observations: pairwise_evidence.envelope_b_observations.clone(),
        },
    ];
    let nway_winner = resolve_nway_conflict(&nway_conflict, &nway_evidence).unwrap();
    assert_eq!(nway_winner, pairwise_winner);
}

#[test]
fn test_resolve_nway_conflict_rejects_mismatched_evidence() {
    let (conflict, a, b, _c) = base_nway_conflict();
    // Only two of the three candidates have evidence supplied -- a
    // caller bug.
    let evidence = vec![
        candidate(a, 3, conflict.sequence),
        candidate(b, 5, conflict.sequence),
    ];
    let result = resolve_nway_conflict(&conflict, &evidence);
    assert!(matches!(
        result,
        Err(SyncEngineError::UnresolvedConflict(_))
    ));
}

#[test]
fn test_nway_below_quorum_unique_max_is_unresolved() {
    let (conflict, a, b, c) = base_nway_conflict();
    // a is the unique top scorer, but only 1 relay backs it -- short of
    // MIN_QUORUM, so it must not win outright even unopposed at the top.
    let evidence = vec![
        candidate(a, 1, conflict.sequence),
        candidate(b, 0, conflict.sequence),
        candidate(c, 0, conflict.sequence),
    ];
    let result = resolve_nway_conflict(&conflict, &evidence);
    assert!(matches!(
        result,
        Err(SyncEngineError::UnresolvedConflict(_))
    ));
}

// ── quorum_standing + VRF tie-break integration ────────────

fn evidence_with_relays(conflict: &Conflict, n_a: usize, n_b: usize) -> ConflictEvidence {
    ConflictEvidence {
        envelope_a_observations: observations_from_n_distinct_relays(
            n_a,
            &conflict.envelope_a,
            conflict.sequence as u64,
        ),
        envelope_b_observations: observations_from_n_distinct_relays(
            n_b,
            &conflict.envelope_b,
            conflict.sequence as u64,
        ),
        ..empty_evidence()
    }
}

#[test]
fn test_quorum_standing_distinguishes_tie_from_insufficient() {
    let conflict = base_conflict();

    assert!(matches!(
        quorum_standing(&conflict, &evidence_with_relays(&conflict, 3, 1)),
        QuorumStanding::Decisive(w) if w == conflict.envelope_a
    ));
    assert!(matches!(
        quorum_standing(&conflict, &evidence_with_relays(&conflict, 3, 3)),
        QuorumStanding::QuorumTie {
            distinct_relays_each: 3
        }
    ));
    // A 1-vs-1 tie is *not* a quorum-met tie: no tie-break, just escalate.
    assert!(matches!(
        quorum_standing(&conflict, &evidence_with_relays(&conflict, 1, 1)),
        QuorumStanding::Insufficient { a: 1, b: 1 }
    ));
    assert!(matches!(
        quorum_standing(&conflict, &evidence_with_relays(&conflict, 0, 0)),
        QuorumStanding::Insufficient { a: 0, b: 0 }
    ));
}

#[test]
fn test_resolve_conflict_behaviour_unchanged_by_refactor() {
    // resolve_conflict and quorum_standing judge alike.
    let conflict = base_conflict();
    assert_eq!(
        resolve_conflict(&conflict, &evidence_with_relays(&conflict, 3, 1)).unwrap(),
        conflict.envelope_a
    );
    assert!(matches!(
        resolve_conflict(&conflict, &evidence_with_relays(&conflict, 2, 2)),
        Err(SyncEngineError::UnresolvedConflict(_))
    ));
}

#[test]
fn test_resolve_conflict_with_tiebreak_decides_a_quorum_met_tie() {
    let conflict = base_conflict();
    let evidence = evidence_with_relays(&conflict, 3, 3);

    // Committed identities of the relays that corroborated the tie.
    let relay_signers: Vec<_> = (0..4).map(|_| relay_key()).collect();
    let candidates: Vec<RelayVrfIdentity> =
        relay_signers
        .iter()
        .map(|k| RelayVrfIdentity::derive(&k.to_bytes()))
        .collect();

    // No tie-break supplied -> still unresolved.
    assert!(matches!(
        resolve_conflict_with_tiebreak(&conflict, &evidence, None, &candidates),
        Err(SyncEngineError::UnresolvedConflict(_))
    ));

    // The selected evaluator produces the tie-break.
    let selected = select_tiebreak_evaluator(&conflict, &candidates)
        .unwrap()
        .identity;
    let selected_key = relay_signers
        .iter()
        .find(|k| k.verifying_key().to_bytes() == selected)
        .unwrap();
    let outcome = vrf_tiebreak(&conflict, &selected_key.to_bytes()).unwrap();

    let winner =
        resolve_conflict_with_tiebreak(&conflict, &evidence, Some(&outcome), &candidates)
            .unwrap();
    assert_eq!(winner, outcome.winner);
    assert!(winner == conflict.envelope_a || winner == conflict.envelope_b);
}

#[test]
fn test_resolve_conflict_with_tiebreak_ignores_tiebreak_when_not_a_tie() {
    let conflict = base_conflict();
    // Side A wins on quorum outright; a supplied tie-break must not change
    // or override that.
    let evidence = evidence_with_relays(&conflict, 3, 1);
    let rogue = relay_key();
    let outcome = vrf_tiebreak(&conflict, &rogue.to_bytes()).unwrap();
    let candidates = [RelayVrfIdentity::derive(&rogue.to_bytes())];

    let winner =
        resolve_conflict_with_tiebreak(&conflict, &evidence, Some(&outcome), &candidates)
            .unwrap();
    assert_eq!(winner, conflict.envelope_a);
}

#[test]
fn test_resolve_conflict_with_tiebreak_rejects_tie_break_from_wrong_evaluator() {
    let conflict = base_conflict();
    let evidence = evidence_with_relays(&conflict, 2, 2);
    let relay_signers: Vec<_> = (0..4).map(|_| relay_key()).collect();
    let candidates: Vec<RelayVrfIdentity> =
        relay_signers
        .iter()
        .map(|k| RelayVrfIdentity::derive(&k.to_bytes()))
        .collect();

    let selected = select_tiebreak_evaluator(&conflict, &candidates)
        .unwrap()
        .identity;
    let wrong_key = relay_signers
        .iter()
        .find(|k| k.verifying_key().to_bytes() != selected)
        .unwrap();
    let outcome = vrf_tiebreak(&conflict, &wrong_key.to_bytes()).unwrap();

    assert!(matches!(
        resolve_conflict_with_tiebreak(&conflict, &evidence, Some(&outcome), &candidates),
        Err(SyncEngineError::UnresolvedConflict(_))
    ));
}
