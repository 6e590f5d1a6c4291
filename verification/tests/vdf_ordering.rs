use std::time::Instant;
use stellarconduit_sync_engine::natural::Natural;
use stellarconduit_sync_engine::queue::vdf_ordering::{
    derive_input, evaluate, hash_to_prime, is_probably_prime_deterministic, prime_from_draw,
    sort_for_dispatch, verify, VdfOrderedEntry, VdfParams, CHALLENGE_PRIME_BITS,
};
use stellarconduit_sync_engine::queue::TxPriority;

fn small_params(delay: u64) -> VdfParams {
    // 128-bit primes (256-bit modulus): fast enough for the normal test
    // suite. Explicitly *not* a production-target key size -- and per
    // the module docs, key size isn't the binding constraint here
    // anyway, since the factorization is known to whoever generates it.
    VdfParams::generate(128, delay).unwrap()
}

#[test]
fn test_vdf_proof_verifies_for_honest_evaluation() {
    let params = small_params(300);
    let seed = b"epoch-seed-round-1";
    let envelope_id = b"envelope-abc";

    let proof = evaluate(&params, seed, envelope_id).unwrap();
    assert!(verify(&params, seed, envelope_id, &proof));

    // Wrong seed, wrong envelope id, or wrong delay must all fail.
    assert!(!verify(&params, b"epoch-seed-round-2", envelope_id, &proof));
    assert!(!verify(&params, seed, b"envelope-xyz", &proof));
    let wrong_delay = VdfParams {
        modulus: params.modulus.clone(),
        delay: params.delay + 1,
    };
    assert!(!verify(&wrong_delay, seed, envelope_id, &proof));
}

#[test]
fn test_backdated_proof_is_rejected() {
    // The round requires 1000 sequential squarings.
    let real_params = VdfParams {
        modulus: small_params(0).modulus,
        delay: 1000,
    };
    let seed = b"epoch-seed-round-1";
    let envelope_id = b"envelope-abc";

    // An honest proof for the required delay verifies.
    let honest_proof = evaluate(&real_params, seed, envelope_id).unwrap();
    assert!(verify(&real_params, seed, envelope_id, &honest_proof));

    // A party that only performed a fraction of the required sequential
    // work -- i.e. tried to "backdate" by claiming to have started
    // earlier than it actually did -- cannot produce a proof that
    // verifies against the real, larger required delay, even though its
    // own smaller-delay proof is perfectly valid on its own terms.
    let cheat_params = VdfParams {
        modulus: real_params.modulus.clone(),
        delay: 100,
    };
    let cheat_proof = evaluate(&cheat_params, seed, envelope_id).unwrap();
    assert!(verify(&cheat_params, seed, envelope_id, &cheat_proof));
    assert!(
        !verify(&real_params, seed, envelope_id, &cheat_proof),
        "a proof for less than the required sequential work must not verify \
         against the required delay"
    );
}

#[test]
fn test_vdf_evaluation_time_matches_configured_delay_parameter() {
    let params_1x = small_params(8_000);
    let params_2x = VdfParams {
        modulus: params_1x.modulus.clone(),
        delay: params_1x.delay * 2,
    };
    let seed = b"epoch-seed-timing";
    let envelope_id = b"envelope-timing";

    // Warm up (allocator/cache effects on the very first call are not
    // representative), then time each delay multiple times and take the
    // minimum -- standard microbenchmark practice: scheduling
    // interruptions can only add time, never subtract, so the minimum
    // across repeats is the closest approximation of true cost on a
    // shared/virtualized machine like the one running this test suite.
    evaluate(&params_1x, seed, envelope_id);

    let time_min = |params: &VdfParams| -> std::time::Duration {
        (0..5)
            .map(|_| {
                let start = Instant::now();
                evaluate(params, seed, envelope_id);
                start.elapsed()
            })
            .min()
            .unwrap()
    };

    let elapsed_1x = time_min(&params_1x);
    let elapsed_2x = time_min(&params_2x);

    // Evaluation time should scale with the delay parameter -- assert
    // proportionality (with generous slack for scheduling noise on a
    // shared/virtualized machine) rather than an absolute wall-clock
    // bound, since absolute speed varies enormously by hardware.
    let ratio = elapsed_2x.as_secs_f64() / elapsed_1x.as_secs_f64().max(1e-9);
    assert!(
        (1.15..3.5).contains(&ratio),
        "doubling the delay parameter should roughly double evaluation time, got ratio {ratio} \
         ({elapsed_1x:?} -> {elapsed_2x:?})"
    );
}

#[test]
fn test_ordering_integration_preserves_priority_tier_semantics() {
    let params = small_params(200);
    let seed = b"epoch-seed-round-1";

    let emergency_no_evidence = VdfOrderedEntry {
        envelope_id: [1u8; 32],
        priority: TxPriority::Emergency,
        enqueued_at: 5_000, // reported as "recent", i.e. self-reported-only
        proof: None,
    };
    let normal_verified_id = [2u8; 32];
    let normal_verified = VdfOrderedEntry {
        envelope_id: normal_verified_id,
        priority: TxPriority::Normal,
        enqueued_at: 1_000, // reported as "old", but this is VDF-backed anyway
        proof: evaluate(&params, seed, &normal_verified_id),
    };
    let low_no_evidence = VdfOrderedEntry {
        envelope_id: [3u8; 32],
        priority: TxPriority::Low,
        enqueued_at: 1,
        proof: None,
    };
    let normal_no_evidence_old = VdfOrderedEntry {
        envelope_id: [4u8; 32],
        priority: TxPriority::Normal,
        enqueued_at: 500, // older self-reported time than normal_verified
        proof: None,
    };

    let ordered = sort_for_dispatch(
        vec![
            low_no_evidence.clone(),
            normal_no_evidence_old.clone(),
            emergency_no_evidence.clone(),
            normal_verified.clone(),
        ],
        &params,
        seed,
    );

    // Priority tier dominates absolutely: Emergency first, then both
    // Normal entries, then Low -- regardless of VDF evidence or
    // self-reported timestamps.
    assert_eq!(ordered[0].priority, TxPriority::Emergency);
    assert_eq!(ordered[1].priority, TxPriority::Normal);
    assert_eq!(ordered[2].priority, TxPriority::Normal);
    assert_eq!(ordered[3].priority, TxPriority::Low);

    // Within the Normal tier: the entry with currently-valid VDF
    // evidence is preferred over the one with none, even though the
    // unverified entry claims an *older* self-reported enqueued_at --
    // self-reported age alone must not win against verified evidence.
    assert_eq!(ordered[1].envelope_id, normal_verified.envelope_id);
    assert_eq!(ordered[2].envelope_id, normal_no_evidence_old.envelope_id);
}

#[test]
fn test_miller_rabin_agrees_with_known_small_primes_and_composites() {
    for p in [2u64, 3, 5, 7, 11, 13, 97, 7919] {
        assert!(
            is_probably_prime_deterministic(&Natural::from_u64(p)),
            "{p} should be classified prime"
        );
    }
    for c in [1u64, 4, 6, 8, 9, 10, 100, 7920] {
        assert!(
            !is_probably_prime_deterministic(&Natural::from_u64(c)),
            "{c} should be classified composite"
        );
    }
}

#[test]
fn test_hash_to_prime_is_deterministic_and_prime() {
    let a = hash_to_prime(b"same-input").unwrap();
    let b = hash_to_prime(b"same-input").unwrap();
    assert_eq!(a, b);
    assert!(is_probably_prime_deterministic(&a));
    assert_eq!(CHALLENGE_PRIME_BITS, 128);
    assert!(a.less_than(&Natural::power_of_two(128)));
    assert!(!a.less_than(&Natural::power_of_two(127)));

    let c = hash_to_prime(b"different-input").unwrap();
    assert_ne!(a, c);
}

#[test]
fn test_no_vdf_evidence_anywhere_preserves_todays_fifo_behavior() {
    let params = small_params(50);
    let seed = b"epoch-seed";

    let older = VdfOrderedEntry {
        envelope_id: [10u8; 32],
        priority: TxPriority::Normal,
        enqueued_at: 100,
        proof: None,
    };
    let newer = VdfOrderedEntry {
        envelope_id: [20u8; 32],
        priority: TxPriority::Normal,
        enqueued_at: 200,
        proof: None,
    };

    let ordered = sort_for_dispatch(vec![newer.clone(), older.clone()], &params, seed);
    assert_eq!(ordered[0].envelope_id, older.envelope_id);
    assert_eq!(ordered[1].envelope_id, newer.envelope_id);
}

/// Not a correctness test -- measures actual squaring throughput on
/// whatever machine runs it.
#[test]
fn measure_vdf_squaring_throughput() {
    let params = VdfParams::generate(512, 0).unwrap(); // 1024-bit modulus
    let x = derive_input(&params.modulus, b"bench-seed", b"bench-envelope");

    let squarings = 3000u32;
    let start = Instant::now();
    let mut y = x.clone();
    for _ in 0..squarings {
        y = y.times(&y).modulo(&params.modulus);
    }
    let elapsed = start.elapsed();
    std::hint::black_box(&y);

    let per_squaring = elapsed / squarings;
    println!("measured: {squarings} squarings in {elapsed:?} ({per_squaring:?} each)");
    assert!(elapsed.as_nanos() > 0);
}

#[test]
fn a_draw_becomes_an_odd_number_of_the_exact_size() {
    // 2 becomes 8 + 2 + 1 = 11, a prime; 7 becomes 8 + 7 = 15, which is not.
    let prime = prime_from_draw(&Natural::from_u64(2), 4).unwrap();
    assert!(prime.equals(&Natural::from_u64(11)));
    assert!(prime_from_draw(&Natural::from_u64(7), 4).is_none());
}

#[test]
fn two_different_primes_make_a_modulus() {
    let p = Natural::from_u64(11);
    let q = Natural::from_u64(13);
    let params = VdfParams::from_primes(&p, &q, 7).unwrap();
    assert!(params.modulus.equals(&Natural::from_u64(143)));
    assert_eq!(params.delay, 7);
    assert!(VdfParams::from_primes(&p, &p, 7).is_none());
}
