use ed25519_dalek::{Signature, Signer, SigningKey, Verifier, VerifyingKey};
use rand::rngs::StdRng;
use rand::seq::SliceRandom;
use rand::{RngCore, SeedableRng};
use stellarconduit_sync_engine::conflict::{QueuedSlot, RelayObservation};
use stellarconduit_sync_engine::message::RelayChainProof;
use stellarconduit_sync_engine::sim::agents::forged_proof::tagged_id;
use stellarconduit_sync_engine::sim::agents::replay::distinct_from;
use stellarconduit_sync_engine::sim::agents::{ForgeryPlan, ProofRequest, RelayProofs, SimRng};
use stellarconduit_sync_engine::sim::{
    AgentOutcome, ForgedProofAgent, RaceAgent, ReplayAgent, SimConfig, SimHarness, SimReport,
    SimWorld, Sweep, SweepConfig, Trace,
};

fn statement(tx_id: &[u8; 32], chain_hash: &[u8; 32], sequence: u64) -> Vec<u8> {
    let mut bytes = tx_id.to_vec();
    bytes.extend_from_slice(chain_hash);
    bytes.extend_from_slice(&sequence.to_be_bytes());
    bytes
}

fn sign(request: &ProofRequest) -> RelayChainProof {
    let key = SigningKey::from_bytes(&request.relay_seed);
    let message = statement(&request.message_id, &request.chain_hash, request.sequence);
    RelayChainProof {
        signature: key.sign(&message).to_bytes(),
        chain_hash: request.chain_hash,
        sequence: request.sequence,
    }
}

fn check(observations: &mut Vec<RelayObservation>, tx_id: &[u8; 32]) {
    for o in observations.iter_mut() {
        o.attested = match VerifyingKey::from_bytes(&o.relay_pubkey) {
            Ok(key) => key
                .verify(
                    &statement(tx_id, &o.proof.chain_hash, o.proof.sequence),
                    &Signature::from_bytes(&o.proof.signature),
                )
                .is_ok(),
            Err(_) => false,
        };
    }
}

fn forged_proof_turn(harness: &mut SimHarness) -> (ForgeryPlan, AgentOutcome) {
    let agent = ForgedProofAgent;
    let ctx = &mut harness.ctx;
    let plan = agent.plan(ctx);
    let (relay1, relay2, sybil) = agent.requests(&plan, ctx.world.sequence);
    let proofs = RelayProofs {
        relay1: sign(&relay1),
        relay2: sign(&relay2),
        sybil: sign(&sybil),
    };
    let mut evidence = agent.forge(&plan, &proofs, ctx.clock.current_time);
    check(&mut evidence.envelope_a_observations, &plan.honest_a);
    check(&mut evidence.envelope_b_observations, &plan.honest_b);
    let attested: Vec<bool> = evidence
        .envelope_a_observations
        .iter()
        .chain(evidence.envelope_b_observations.iter())
        .map(|o| o.attested)
        .collect();
    assert_eq!(attested, vec![true, true, false, false, false, true]);
    let outcome = agent.act(ctx, &plan, &evidence);
    (plan, outcome)
}

fn replay_turn(harness: &mut SimHarness) -> AgentOutcome {
    let agent = ReplayAgent;
    let ctx = &mut harness.ctx;
    let plan = agent.plan(ctx);
    let request = agent.request(&plan, ctx.world.sequence);
    let proof = sign(&request);
    agent.act(ctx, &plan, proof, true)
}

/// A run of the three agents.
fn run(seed: u64) -> SimReport {
    let mut harness = SimHarness::new(SimConfig::default().with_seed(seed));
    assert_eq!(harness.seed(), seed);
    harness.begin(3);
    let (_, outcome) = forged_proof_turn(&mut harness);
    assert!(harness.conclude(ForgedProofAgent.name(), outcome));
    let outcome = replay_turn(&mut harness);
    assert!(harness.conclude(ReplayAgent.name(), outcome));
    let outcome = RaceAgent.act(&mut harness.ctx).unwrap();
    assert!(harness.conclude(RaceAgent.name(), outcome));
    harness.finish()
}

#[test]
fn all_attacks_are_defended() {
    for seed in 1..20 {
        let report = run(seed);
        assert!(report.ok());
        assert_eq!(report.seed, seed);
        let summaries: Vec<&str> = report
            .agent_summaries
            .iter()
            .map(|(_, summary)| summary.as_str())
            .collect();
        assert_eq!(
            summaries,
            vec![
                "forged/tampered proofs did not overturn honest quorum",
                "stale/out-of-sequence replays did not resolve a conflict",
                "race detected 3 pairs + 1 n-way conflict; output order-stable",
            ]
        );
    }
}

#[test]
fn the_same_seed_gives_the_same_trace() {
    assert_eq!(run(42), run(42));
    assert_ne!(run(42).trace, run(43).trace);
}

#[test]
fn the_trace_tells_what_happened_when() {
    let report = run(5);
    let steps: Vec<(u64, &str, &str)> = report
        .trace
        .events
        .iter()
        .map(|e| (e.at_secs, e.source.as_str(), e.kind.as_str()))
        .collect();
    let t = 1_700_000_000;
    assert_eq!(
        steps,
        vec![
            (t, "harness", "run_start"),
            (t, "forged_proof", "injected_forgeries"),
            (t, "forged_proof", "forged_proof_rejected"),
            (t + 62, "replay", "replay_attempts"),
            (t + 63, "race", "race_conflicts_detected"),
            (t + 64, "harness", "run_end"),
        ]
    );
    assert_eq!(report.trace.events[0].detail, "seed=5 agents=3");
    assert_eq!(
        report.trace.events[3].detail,
        "wrong_seq_defended=true stale_lone_proof_unresolved=true ttl=60"
    );
    assert!(report.trace.events[4]
        .detail
        .ends_with(" pairs=3 nway=1 order_stable=true"));
    assert_eq!(report.trace.events[5].detail, "ok=true");
}

#[test]
fn an_invariant_violation_ends_the_run() {
    let mut harness = SimHarness::new(SimConfig::default());
    harness.begin(2);
    let goes_on = harness.conclude(
        "other",
        AgentOutcome::InvariantViolation {
            summary: "broken".to_string(),
        },
    );
    assert!(!goes_on);
    assert_eq!(harness.ctx.clock.current_time, 1_700_000_000);
    assert_eq!(harness.trace().failure.as_deref(), Some("broken"));
    let report = harness.finish();
    assert!(!report.ok());
    assert_eq!(report.trace.events[1].detail, "ok=false");
    assert_eq!(
        report.agent_summaries,
        vec![("other".to_string(), "broken".to_string())]
    );
}

#[test]
fn a_cross_wired_quorum_would_be_noticed() {
    // Where the resolver is made to trust everything, the second envelope ties: no
    // award, so the attack is still defended. Where only the forgeries for it count, it
    // wins, and the agent reports that.
    let agent = ForgedProofAgent;
    let mut harness = SimHarness::new(SimConfig::default());
    let plan = agent.plan(&mut harness.ctx);
    let (relay1, relay2, sybil) = agent.requests(&plan, 42);
    let proofs = RelayProofs {
        relay1: sign(&relay1),
        relay2: sign(&relay2),
        sybil: sign(&sybil),
    };
    let mut evidence = agent.forge(&plan, &proofs, 100);
    for o in evidence.envelope_b_observations.iter_mut() {
        o.attested = true;
    }
    let outcome = agent.act(&mut harness.ctx, &plan, &evidence);
    assert_eq!(
        outcome,
        AgentOutcome::InvariantViolation {
            summary: format!(
                "forged proofs caused unexpected winner {}",
                hex::encode(plan.honest_b)
            ),
        }
    );
    for o in evidence.envelope_a_observations.iter_mut() {
        o.attested = true;
    }
    let outcome = agent.act(&mut harness.ctx, &plan, &evidence);
    assert_eq!(
        outcome,
        AgentOutcome::Defended {
            summary: "resolver left conflict unresolved rather than trusting forgeries"
                .to_string(),
        }
    );
}

#[test]
fn a_race_with_other_slots_around_is_a_violation() {
    let mut harness = SimHarness::new(SimConfig::default());
    let account = harness.ctx.world.account.clone();
    harness.ctx.world.replace_slots(
        "bystander",
        vec![QueuedSlot {
            source_account: account,
            sequence: 42,
            message_id: [0; 32],
        }],
    );
    let ids = vec![[1; 32], [2; 32], [3; 32]];
    let order = vec![[2; 32], [3; 32], [1; 32]];
    let outcome = RaceAgent.race(&mut harness.ctx, &ids, &order);
    assert_eq!(
        outcome,
        AgentOutcome::InvariantViolation {
            summary: "race missed conflicts: pairs=6 (want 3) nway_ok=false".to_string(),
        }
    );
}

#[test]
fn drawn_ids_are_tagged_and_distinct() {
    let mut mix = [0u8; 32];
    mix[1] = 0xff;
    let id = tagged_id(0xa1, &mix);
    assert_eq!((id[0], id[1], id[2]), (0xa1, 0x5e, 0xa1));
    assert_eq!(distinct_from(&[3; 32], [4; 32]), [4; 32]);
    let flipped = distinct_from(&[3; 32], [3; 32]);
    assert_eq!((flipped[0], flipped[1]), (0xfc, 3));
}

#[test]
fn draws_are_those_of_the_standard_generator() {
    for seed in [0, 1, 42, u64::MAX] {
        let mut theirs = StdRng::seed_from_u64(seed);
        let mut ours = SimRng::new(seed);
        for _ in 0..3 {
            for _ in 0..9 {
                let mut bytes = [0u8; 32];
                theirs.fill_bytes(&mut bytes);
                assert_eq!(ours.draw32(), bytes);
            }
            let mut items: Vec<[u8; 32]> = (0..5).map(|i| [i; 32]).collect();
            let mut shuffled = items.clone();
            items.shuffle(&mut theirs);
            ours.shuffle(&mut shuffled);
            assert_eq!(items, shuffled);
        }
    }
    assert_ne!(SimRng::new(1).draw32(), SimRng::new(2).draw32());
}

fn observation(relay: u8) -> RelayObservation {
    RelayObservation {
        relay_pubkey: [relay; 32],
        proof: RelayChainProof {
            signature: [0; 64],
            chain_hash: [0; 32],
            sequence: 1,
        },
        attested: false,
    }
}

#[test]
fn devices_are_merged_in_the_order_of_their_names() {
    let mut world = SimWorld::new("GABC", 1);
    let slot = |account: &str, id: u8| QueuedSlot {
        source_account: account.to_string(),
        sequence: 1,
        message_id: [id; 32],
    };
    world.replace_slots("zeta", vec![slot("late", 1), slot("z", 9)]);
    world.replace_slots("alpha", vec![slot("early", 1), slot("a", 5)]);
    let merged: Vec<(String, u8)> = world
        .merged_slots()
        .into_iter()
        .map(|s| (s.source_account, s.message_id[0]))
        .collect();
    assert_eq!(
        merged,
        vec![
            ("early".to_string(), 1),
            ("a".to_string(), 5),
            ("z".to_string(), 9)
        ]
    );

    world.record_observations("zeta", &[1; 32], vec![observation(2)], 10);
    world.record_observations("alpha", &[1; 32], vec![observation(1)], 11);
    world.record_observations("mid", &[7; 32], vec![observation(3)], 12);
    assert_eq!(world.devices.len(), 3);
    assert_eq!(world.ensure_device("mid"), 1);
    assert_eq!(
        world.observations_for(&[1; 32]),
        vec![observation(1), observation(2)]
    );
    let evidence = world.evidence_for_pair(&[1; 32], &[7; 32], 3, 4);
    assert_eq!(evidence.envelope_a_observations.len(), 2);
    assert_eq!(evidence.envelope_b_observations, vec![observation(3)]);
    assert_eq!(
        (evidence.envelope_a_timestamp, evidence.envelope_b_timestamp),
        (3, 4)
    );
}

#[test]
fn a_sweep_stops_at_its_limits() {
    let mut sweep = Sweep::new(SweepConfig {
        start_seed: u64::MAX,
        max_seeds: 2,
        time_budget_secs: 10,
    });
    assert_eq!(sweep.next_seed(0), Some(u64::MAX));
    let mut trace = Trace::new();
    trace.fail("it broke");
    sweep.record(
        u64::MAX,
        &SimReport {
            seed: u64::MAX,
            trace,
            agent_summaries: Vec::new(),
        },
    );
    assert_eq!(sweep.next_seed(1), Some(0));
    sweep.record(
        0,
        &SimReport {
            seed: 0,
            trace: Trace::default(),
            agent_summaries: Vec::new(),
        },
    );
    assert_eq!(sweep.next_seed(2), None);
    assert!(!sweep.report.hit_budget);
    assert!(!sweep.report.ok());
    assert_eq!(
        sweep.report.failures,
        vec![(u64::MAX, "it broke".to_string())]
    );

    let mut sweep = Sweep::new(SweepConfig::with_overrides(None, Some(5)));
    assert_eq!(sweep.config.max_seeds, 256);
    assert_eq!(sweep.next_seed(5), None);
    assert!(sweep.report.hit_budget && sweep.report.ok());
}
