use ed25519_dalek::SigningKey;
use rand::rngs::OsRng;
use sha2::{Digest, Sha512};
use stellarconduit_sync_engine::conflict::{
    conflicts_between, select_tiebreak_evaluator, verify_tiebreak, verify_tiebreak_with_evaluator,
    vrf_tiebreak, Conflict, QueuedSlot, RelayVrfIdentity,
};

fn key() -> SigningKey {
    SigningKey::generate(&mut OsRng)
}

fn conflict_from(id_a: u8, id_b: u8) -> Conflict {
    let a = QueuedSlot {
        source_account: "GABC".to_string(),
        sequence: 101,
        message_id: [id_a; 32],
    };
    let b = QueuedSlot {
        source_account: "GABC".to_string(),
        sequence: 101,
        message_id: [id_b; 32],
    };
    conflicts_between(&a, &b).unwrap()
}

fn base_conflict() -> Conflict {
    conflict_from(1, 2)
}

fn relay_set(n: usize) -> (Vec<SigningKey>, Vec<RelayVrfIdentity>) {
    let keys: Vec<SigningKey> = (0..n).map(|_| key()).collect();
    let ids = keys
        .iter()
        .map(|k| RelayVrfIdentity::derive(&k.to_bytes()))
        .collect();
    (keys, ids)
}

#[test]
fn test_vrf_tiebreak_is_deterministic_for_fixed_inputs() {
    let conflict = base_conflict();
    let evaluator = key();

    let first = vrf_tiebreak(&conflict, &evaluator.to_bytes()).unwrap();
    let second = vrf_tiebreak(&conflict, &evaluator.to_bytes()).unwrap();

    // The proof carries fresh zero-knowledge blinding each call, but the
    // decision-bearing fields are a pure function of the inputs.
    assert_eq!(first.winner, second.winner);
    assert_eq!(first.vrf_output, second.vrf_output);
    assert_eq!(first.vrf_preout, second.vrf_preout);
    assert_eq!(first.canonical_input, second.canonical_input);

    // Both proofs still verify despite differing byte-for-byte.
    verify_tiebreak(&conflict, &first).unwrap();
    verify_tiebreak(&conflict, &second).unwrap();
}

#[test]
fn test_canonical_input_is_label_order_independent() {
    // The detector labelling a vs b must not change the outcome.
    let forward = conflict_from(1, 2);
    let reversed = Conflict {
        envelope_a: forward.envelope_b,
        envelope_b: forward.envelope_a,
        ..forward.clone()
    };
    let evaluator = key();
    let a = vrf_tiebreak(&forward, &evaluator.to_bytes()).unwrap();
    let b = vrf_tiebreak(&reversed, &evaluator.to_bytes()).unwrap();
    assert_eq!(a.canonical_input, b.canonical_input);
    assert_eq!(a.winner, b.winner);
}

#[test]
fn test_vrf_tiebreak_output_verifies_independently() {
    let conflict = base_conflict();
    let evaluator = key();
    let outcome = vrf_tiebreak(&conflict, &evaluator.to_bytes()).unwrap();

    // A third party with only the conflict and the outcome (no secret key)
    // can confirm the decision.
    verify_tiebreak(&conflict, &outcome).unwrap();

    // And it is a real decision: the winner is one of the two envelopes.
    assert!(outcome.winner == conflict.envelope_a || outcome.winner == conflict.envelope_b);
}

#[test]
fn test_tampered_proof_fails_verification() {
    let conflict = base_conflict();
    let evaluator = key();
    let good = vrf_tiebreak(&conflict, &evaluator.to_bytes()).unwrap();

    // Flip one bit of the proof.
    let mut tampered = good.clone();
    tampered.vrf_proof[0] ^= 0x01;
    assert!(verify_tiebreak(&conflict, &tampered).is_err());

    // Tamper with the claimed winner instead.
    let mut flipped_winner = good.clone();
    flipped_winner.winner = if good.winner == conflict.envelope_a {
        conflict.envelope_b
    } else {
        conflict.envelope_a
    };
    assert!(verify_tiebreak(&conflict, &flipped_winner).is_err());

    // Tamper with the VRF output.
    let mut flipped_output = good.clone();
    flipped_output.vrf_output[0] ^= 0xff;
    assert!(verify_tiebreak(&conflict, &flipped_output).is_err());

    // Swap in a different evaluator's VRF key.
    let mut wrong_key = good.clone();
    wrong_key.evaluator_vrf_public = RelayVrfIdentity::derive(&key().to_bytes()).vrf_public;
    assert!(verify_tiebreak(&conflict, &wrong_key).is_err());

    // Verify against the wrong conflict.
    assert!(verify_tiebreak(&conflict_from(3, 4), &good).is_err());
}

#[test]
fn test_evaluator_selection_is_not_self_chosen_by_either_conflicting_party() {
    let conflict = base_conflict();

    // The two conflicting parties. They are envelope originators, not
    // relays, so their identities are simply not in the candidate set.
    let party_a = key();
    let party_b = key();

    let (relay_keys, mut candidates) = relay_set(5);
    let selected = select_tiebreak_evaluator(&conflict, &candidates).unwrap();

    assert_ne!(selected.identity, party_a.verifying_key().to_bytes());
    assert_ne!(selected.identity, party_b.verifying_key().to_bytes());
    assert!(relay_keys
        .iter()
        .any(|k| k.verifying_key().to_bytes() == selected.identity));

    // Selection is a pure function of the committed inputs.
    assert_eq!(
        select_tiebreak_evaluator(&conflict, &candidates)
            .unwrap()
            .identity,
        selected.identity,
    );

    // Now the adversarial case: party A *also* runs a relay that is in the
    // candidate set. It still cannot steer the selection onto its own
    // relay by choosing its envelope's contents, because the selection
    // hash is over `alpha`, which is pinned by both message_ids. Sweeping
    // many possible `message_id`s for A's envelope, A's own relay is
    // selected no more often than any other candidate (≈ 1/n) — i.e. A has
    // no better-than-random control.
    let party_a_relay = RelayVrfIdentity::derive(&party_a.to_bytes());
    candidates.push(party_a_relay);
    let n = candidates.len();

    let trials = 4_000u64;
    let mut a_relay_selected = 0u64;
    for i in 0..trials {
        // Each distinct envelope A might craft yields a different (and, via
        // the envelope hash, unpredictable) message_id — modelled here as
        // SHA-512(i) truncated, standing in for the hash of a crafted
        // envelope.
        let mut crafted_id = [0u8; 32];
        crafted_id.copy_from_slice(&Sha512::digest(i.to_be_bytes())[..32]);
        let crafted = conflict_from_ids(crafted_id, conflict.envelope_b);
        let winner = select_tiebreak_evaluator(&crafted, &candidates).unwrap();
        if winner.identity == party_a_relay.identity {
            a_relay_selected += 1;
        }
    }
    let expected = trials as f64 / n as f64;
    // Selection is genuinely uniform over the candidate set, so A's own
    // relay wins ≈ 1/n of the time no matter how A crafts its id. The band
    // is wide enough never to flake but tight enough to catch gross
    // steering (a real bias would push this toward `trials`).
    assert!(
        (a_relay_selected as f64) < expected * 1.35,
        "party A's own relay was selected {a_relay_selected}/{trials} times \
         (expected ≈ {expected:.0}); selection appears steerable"
    );
}

fn conflict_from_ids(a: [u8; 32], b: [u8; 32]) -> Conflict {
    Conflict {
        source_account: "GABC".to_string(),
        sequence: 101,
        envelope_a: a,
        envelope_b: b,
    }
}

#[test]
fn test_tiebreak_is_unbiased_against_a_party_choosing_content_after_seeing_the_other() {
    // Threat model: party B has already seen party A's envelope (fixed
    // `envelope_a`) and now gets to choose its own envelope's contents,
    // hoping to win the eventual tie-break. B does *not* hold the selected
    // evaluator's secret key, so for each candidate envelope it might
    // craft, the outcome is a fresh VRF draw it cannot compute in advance.
    //
    // We model B trying many envelopes and, for each, ask whether B's
    // envelope would win. An honest evaluator's key is fixed up front. B
    // wins ≈ 50% of the time regardless — there is no craftable envelope
    // property that biases the coin.
    let evaluator = key();
    let envelope_a = [0xAAu8; 32];

    let trials = 500u64;
    let mut b_wins = 0u64;
    for i in 0..trials {
        // A hash-like spread of "B's crafted envelope id". In reality this
        // is SHA-512 of B's signed envelope; B cannot predict the draw for
        // any choice without the evaluator's secret key.
        let mut b_id = [0u8; 32];
        b_id.copy_from_slice(&Sha512::digest(i.to_be_bytes())[..32]);
        if b_id == envelope_a {
            continue;
        }
        let conflict = conflict_from_ids(envelope_a, b_id);
        let outcome = vrf_tiebreak(&conflict, &evaluator.to_bytes()).unwrap();
        if outcome.winner == b_id {
            b_wins += 1;
        }
    }

    // 500 trials of a fair coin: P(rate outside 0.40..0.60) < 1e-4.
    let rate = b_wins as f64 / trials as f64;
    assert!(
        (0.40..=0.60).contains(&rate),
        "party B won {b_wins}/{trials} = {rate:.3}; expected ≈ 0.5 (no bias from crafting)"
    );
}

#[test]
fn test_verify_tiebreak_with_evaluator_rejects_wrong_evaluator() {
    let conflict = base_conflict();
    let (relay_keys, candidates) = relay_set(4);

    let selected = select_tiebreak_evaluator(&conflict, &candidates)
        .unwrap()
        .identity;
    let selected_key = relay_keys
        .iter()
        .find(|k| k.verifying_key().to_bytes() == selected)
        .unwrap();
    let not_selected_key = relay_keys
        .iter()
        .find(|k| k.verifying_key().to_bytes() != selected)
        .unwrap();

    // Correct evaluator: accepted.
    let good = vrf_tiebreak(&conflict, &selected_key.to_bytes()).unwrap();
    verify_tiebreak_with_evaluator(&conflict, &good, &candidates).unwrap();

    // A different relay produced a perfectly valid VRF proof, but it is not
    // the selected evaluator: rejected.
    let usurped = vrf_tiebreak(&conflict, &not_selected_key.to_bytes()).unwrap();
    verify_tiebreak(&conflict, &usurped).unwrap(); // proof itself is fine
    assert!(verify_tiebreak_with_evaluator(&conflict, &usurped, &candidates).is_err());

    // Empty candidate set: rejected.
    assert!(verify_tiebreak_with_evaluator(&conflict, &good, &[]).is_err());
}

#[test]
fn test_derived_vrf_identity_is_stable() {
    let k = key();
    assert_eq!(RelayVrfIdentity::derive(&k.to_bytes()), RelayVrfIdentity::derive(&k.to_bytes()));
    assert_eq!(
        RelayVrfIdentity::derive(&k.to_bytes()).identity,
        k.verifying_key().to_bytes()
    );
}
