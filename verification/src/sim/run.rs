//! What a whole run consists of, and that its seed fixes it: two runs of the same agents
//! from one seed, to which the same relay proofs are handed, give the same trace.
use crate::conflict::resolver::{ConflictEvidence, RelayObservation};
use crate::message::RelayChainProof;
use crate::sim::agents::forged_proof::{forged, ForgeryPlan};
use crate::sim::agents::race::{drawn_and_raced, races_are_deterministic, three_ids};
use crate::sim::agents::replay::{replayed, ReplayPlan};
use crate::sim::agents::{chacha12_shuffled, forged_proof, replay, AgentCtx, AgentOutcome};
use crate::sim::harness::{
    begun, concluded, finished, started, summary_views, SimConfig, SimHarness, SimReport,
};
use crate::sim::world::{observed, observing_keeps_the_slots, same_slots};
use crate::text::hex_of;
use vstd::prelude::*;

verus! {

/// An agent's turn, with what is handed to it from outside: the observations that were
/// made of the relays' proofs, with what their signatures were found to be.
pub enum Turn {
    ForgedProof { a: Seq<RelayObservation>, b: Seq<RelayObservation> },
    Replay { proof_of_relay: RelayChainProof, attested: bool },
    Race,
}

impl Turn {
    /// The name of the agent whose turn it is.
    pub open spec fn name(self) -> Seq<char> {
        match self {
            Turn::ForgedProof { .. } => "forged_proof"@,
            Turn::Replay { .. } => "replay"@,
            Turn::Race => "race"@,
        }
    }
}

/// The agent drew its plan and mounted its attack.
pub open spec fn turn_taken(
    before: AgentCtx,
    after: AgentCtx,
    turn: Turn,
    outcome: AgentOutcome,
) -> bool {
    match turn {
        Turn::ForgedProof { a, b } => exists|
            mid: AgentCtx,
            plan: ForgeryPlan,
            evidence: ConflictEvidence,
        |
            {
                &&& forged_proof::planned(before, mid, plan)
                &&& #[trigger] forged(mid, after, plan, evidence, outcome)
                &&& evidence.envelope_a_observations@ == a
                &&& evidence.envelope_b_observations@ == b
            },
        Turn::Replay { proof_of_relay, attested } => exists|mid: AgentCtx, plan: ReplayPlan|
            {
                &&& replay::planned(before, mid, plan)
                &&& #[trigger] replayed(mid, after, plan, proof_of_relay, attested, outcome)
            },
        Turn::Race => drawn_and_raced(before, after, outcome),
    }
}

/// The agents took their turns one after the other, up to the first that broke an
/// invariant.
pub open spec fn turns_run(before: SimHarness, after: SimHarness, turns: Seq<Turn>) -> bool
    decreases turns.len(),
{
    if turns.len() == 0 {
        after == before
    } else {
        exists|acted: SimHarness, next: SimHarness, outcome: AgentOutcome|
            {
                &&& acted.config == before.config
                &&& acted.summaries == before.summaries
                &&& turn_taken(before.ctx, acted.ctx, turns[0], outcome)
                &&& #[trigger] concluded(acted, next, turns[0].name(), outcome)
                &&& if outcome is Defended {
                    turns_run(next, after, turns.drop_first())
                } else {
                    after == next
                }
            }
    }
}

/// A whole run, from a fresh harness to the report.
pub open spec fn whole_run(config: SimConfig, turns: Seq<Turn>, report: SimReport) -> bool {
    exists|fresh: SimHarness, ready: SimHarness, done: SimHarness, closed: SimHarness|
        {
            &&& started(fresh, config)
            &&& #[trigger] begun(fresh, ready, turns.len())
            &&& turns_run(ready, done, turns)
            &&& #[trigger] finished(done, closed, report)
        }
}

/// Two states from which the agents cannot tell two runs apart.
pub open spec fn same_state(a: AgentCtx, b: AgentCtx) -> bool {
    &&& a.seed == b.seed
    &&& a.rng == b.rng
    &&& a.clock == b.clock
    &&& a.world.wf()
    &&& b.world.wf()
    &&& a.world.account@ == b.world.account@
    &&& a.world.sequence == b.world.sequence
    &&& a.world.observation_ttl_secs == b.world.observation_ttl_secs
    &&& same_slots(a.world.devices@, b.world.devices@)
    &&& a.trace@ == b.trace@
}

/// A turn is deterministic: from two states that are alike, the same agent with the same
/// relay proofs leads to states that are alike, with the same outcome.
pub proof fn turns_are_deterministic(
    before_a: AgentCtx,
    after_a: AgentCtx,
    outcome_a: AgentOutcome,
    before_b: AgentCtx,
    after_b: AgentCtx,
    outcome_b: AgentOutcome,
    turn: Turn,
)
    requires
        same_state(before_a, before_b),
        turn_taken(before_a, after_a, turn, outcome_a),
        turn_taken(before_b, after_b, turn, outcome_b),
    ensures
        same_state(after_a, after_b),
        outcome_a is Defended <==> outcome_b is Defended,
        outcome_a.summary() == outcome_b.summary(),
{
    match turn {
        Turn::ForgedProof { a, b } => {
            let (mid_a, plan_a, evidence_a) = choose|
                mid: AgentCtx,
                plan: ForgeryPlan,
                evidence: ConflictEvidence,
            |
                {
                    &&& forged_proof::planned(before_a, mid, plan)
                    &&& #[trigger] forged(mid, after_a, plan, evidence, outcome_a)
                    &&& evidence.envelope_a_observations@ == a
                    &&& evidence.envelope_b_observations@ == b
                };
            let (mid_b, plan_b, evidence_b) = choose|
                mid: AgentCtx,
                plan: ForgeryPlan,
                evidence: ConflictEvidence,
            |
                {
                    &&& forged_proof::planned(before_b, mid, plan)
                    &&& #[trigger] forged(mid, after_b, plan, evidence, outcome_b)
                    &&& evidence.envelope_a_observations@ == a
                    &&& evidence.envelope_b_observations@ == b
                };
            assert(plan_a.honest_a =~= plan_b.honest_a);
            assert(plan_a.honest_b =~= plan_b.honest_b);
        },
        Turn::Replay { proof_of_relay, attested } => {
            let (mid_a, plan_a) = choose|mid: AgentCtx, plan: ReplayPlan|
                {
                    &&& replay::planned(before_a, mid, plan)
                    &&& #[trigger] replayed(mid, after_a, plan, proof_of_relay, attested, outcome_a)
                };
            let (mid_b, plan_b) = choose|mid: AgentCtx, plan: ReplayPlan|
                {
                    &&& replay::planned(before_b, mid, plan)
                    &&& #[trigger] replayed(mid, after_b, plan, proof_of_relay, attested, outcome_b)
                };
            let key = hex_of(plan_a.id_a@);
            let list_a = choose|list: Vec<RelayObservation>| #[trigger]
                observed(
                    mid_a.world.devices@,
                    after_a.world.devices@,
                    "replay-victim"@,
                    key,
                    list,
                );
            let list_b = choose|list: Vec<RelayObservation>| #[trigger]
                observed(
                    mid_b.world.devices@,
                    after_b.world.devices@,
                    "replay-victim"@,
                    key,
                    list,
                );
            observing_keeps_the_slots(
                mid_a.world.devices@,
                after_a.world.devices@,
                list_a,
                mid_b.world.devices@,
                after_b.world.devices@,
                list_b,
                "replay-victim"@,
                key,
            );
        },
        Turn::Race => {
            let (ids, rng) = three_ids(before_a.rng, Seq::empty(), u64::MAX as nat)->0;
            let order = chacha12_shuffled(rng.seed, rng.position, ids).0;
            races_are_deterministic(
                before_a,
                after_a,
                outcome_a,
                before_b,
                after_b,
                outcome_b,
                ids,
                order,
            );
        },
    }
}

/// Two harnesses from which two runs go on alike.
pub open spec fn same_harness(a: SimHarness, b: SimHarness) -> bool {
    &&& a.config.seed == b.config.seed
    &&& same_state(a.ctx, b.ctx)
    &&& summary_views(a.summaries@) == summary_views(b.summaries@)
}

proof fn lemma_turns_run_alike(
    before_a: SimHarness,
    after_a: SimHarness,
    before_b: SimHarness,
    after_b: SimHarness,
    turns: Seq<Turn>,
)
    requires
        same_harness(before_a, before_b),
        turns_run(before_a, after_a, turns),
        turns_run(before_b, after_b, turns),
    ensures
        same_harness(after_a, after_b),
    decreases turns.len(),
{
    if turns.len() > 0 {
        let (acted_a, next_a, outcome_a) = choose|
            acted: SimHarness,
            next: SimHarness,
            outcome: AgentOutcome,
        |
            {
                &&& acted.config == before_a.config
                &&& acted.summaries == before_a.summaries
                &&& turn_taken(before_a.ctx, acted.ctx, turns[0], outcome)
                &&& #[trigger] concluded(acted, next, turns[0].name(), outcome)
                &&& if outcome is Defended {
                    turns_run(next, after_a, turns.drop_first())
                } else {
                    after_a == next
                }
            };
        let (acted_b, next_b, outcome_b) = choose|
            acted: SimHarness,
            next: SimHarness,
            outcome: AgentOutcome,
        |
            {
                &&& acted.config == before_b.config
                &&& acted.summaries == before_b.summaries
                &&& turn_taken(before_b.ctx, acted.ctx, turns[0], outcome)
                &&& #[trigger] concluded(acted, next, turns[0].name(), outcome)
                &&& if outcome is Defended {
                    turns_run(next, after_b, turns.drop_first())
                } else {
                    after_b == next
                }
            };
        turns_are_deterministic(
            before_a.ctx,
            acted_a.ctx,
            outcome_a,
            before_b.ctx,
            acted_b.ctx,
            outcome_b,
            turns[0],
        );
        assert(same_harness(next_a, next_b));
        if outcome_a is Defended {
            lemma_turns_run_alike(next_a, after_a, next_b, after_b, turns.drop_first());
        }
    }
}

/// A run is reproducible: the same agents from the same seed, start and account, with the
/// same relay proofs handed in, give the same report, event by event.
pub proof fn runs_are_deterministic(
    config_a: SimConfig,
    report_a: SimReport,
    config_b: SimConfig,
    report_b: SimReport,
    turns: Seq<Turn>,
)
    requires
        whole_run(config_a, turns, report_a),
        whole_run(config_b, turns, report_b),
        config_a.seed == config_b.seed,
        config_a.start_secs == config_b.start_secs,
        config_a.account@ == config_b.account@,
        config_a.sequence == config_b.sequence,
    ensures
        report_a.seed == report_b.seed,
        report_a.trace@ == report_b.trace@,
        summary_views(report_a.agent_summaries@) == summary_views(report_b.agent_summaries@),
{
    let (fresh_a, ready_a, done_a, closed_a) = choose|
        fresh: SimHarness,
        ready: SimHarness,
        done: SimHarness,
        closed: SimHarness,
    |
        {
            &&& started(fresh, config_a)
            &&& #[trigger] begun(fresh, ready, turns.len())
            &&& turns_run(ready, done, turns)
            &&& #[trigger] finished(done, closed, report_a)
        };
    let (fresh_b, ready_b, done_b, closed_b) = choose|
        fresh: SimHarness,
        ready: SimHarness,
        done: SimHarness,
        closed: SimHarness,
    |
        {
            &&& started(fresh, config_b)
            &&& #[trigger] begun(fresh, ready, turns.len())
            &&& turns_run(ready, done, turns)
            &&& #[trigger] finished(done, closed, report_b)
        };
    assert(same_harness(ready_a, ready_b));
    lemma_turns_run_alike(ready_a, done_a, ready_b, done_b, turns);
}

} // verus!
