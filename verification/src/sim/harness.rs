//! Seeded simulation harness that drives adversarial agents against the real
//! conflict-detection / resolution logic.
//!
//! A run is a sequence of turns: [`SimHarness::begin`], then for each agent its attack
//! on [`SimHarness::ctx`] and [`SimHarness::conclude`], and at the end
//! [`SimHarness::finish`].
use crate::clock::MockClock;
use crate::sim::agents::{AgentCtx, AgentOutcome, SimRng};
use crate::sim::trace::{Trace, TraceView};
use crate::sim::world::{SimDevice, SimWorld};
use crate::sim::agents::replay::{append_truth, truth};
use crate::text::{append_decimal, decimal};
use vstd::prelude::*;
use vstd::string::*;

verus! {

/// Tunables for one harness run.
#[derive(Debug, Clone)]
pub struct SimConfig {
    pub seed: u64,
    /// Simulated start time (unix seconds).
    pub start_secs: u64,
    pub account: String,
    pub sequence: i64,
}

impl Default for SimConfig {
    fn default() -> (config: Self)
        ensures
            config.seed == 1,
            config.start_secs == 1_700_000_000,
            config.account@ == "GSIMACCOUNT0000000000000000000000000000"@,
            config.sequence == 42,
    {
        SimConfig {
            seed: 1,
            start_secs: 1_700_000_000,
            account: "GSIMACCOUNT0000000000000000000000000000".to_owned(),
            sequence: 42,
        }
    }
}

impl SimConfig {
    /// The same tunables with another seed.
    pub fn with_seed(self, seed: u64) -> (config: Self)
        ensures
            config == (SimConfig { seed, ..self }),
    {
        SimConfig {
            seed,
            start_secs: self.start_secs,
            account: self.account,
            sequence: self.sequence,
        }
    }
}

/// Outcome of a run.
#[derive(Debug, Clone, PartialEq, Eq)]
pub struct SimReport {
    pub seed: u64,
    pub trace: Trace,
    pub agent_summaries: Vec<(String, String)>,
}

impl SimReport {
    /// Whether no agent broke an invariant.
    pub fn ok(&self) -> (r: bool)
        ensures
            r == self.trace@.failure is None,
    {
        self.trace.ok()
    }
}

/// The names of the agents with their summaries.
pub open spec fn summary_views(list: Seq<(String, String)>) -> Seq<(Seq<char>, Seq<char>)> {
    list.map_values(|s: (String, String)| (s.0@, s.1@))
}

/// Deterministic harness: one seeded generator, one virtual clock, one world.
pub struct SimHarness {
    pub config: SimConfig,
    pub ctx: AgentCtx,
    pub summaries: Vec<(String, String)>,
}

/// The harness is at the start of a run.
pub open spec fn started(harness: SimHarness, config: SimConfig) -> bool {
    &&& harness.config == config
    &&& harness.ctx.seed == config.seed
    &&& harness.ctx.rng == (SimRng { seed: config.seed, position: 0 })
    &&& harness.ctx.clock.current_time == config.start_secs
    &&& harness.ctx.world.wf()
    &&& harness.ctx.world.devices@ == Seq::<SimDevice>::empty()
    &&& harness.ctx.world.account@ == config.account@
    &&& harness.ctx.world.sequence == config.sequence
    &&& harness.ctx.world.observation_ttl_secs == 60
    &&& harness.ctx.trace@ == TraceView::blank()
    &&& harness.summaries@ == Seq::<(String, String)>::empty()
}

/// The start of a run of the given number of agents was noted.
pub open spec fn begun(before: SimHarness, after: SimHarness, agents: nat) -> bool {
    &&& after.config == before.config
    &&& after.ctx.seed == before.ctx.seed
    &&& after.ctx.rng == before.ctx.rng
    &&& after.ctx.clock == before.ctx.clock
    &&& after.ctx.world == before.ctx.world
    &&& after.summaries@ == Seq::<(String, String)>::empty()
    &&& after.ctx.trace@ == before.ctx.trace@.recorded(
        before.ctx.clock.current_time,
        "harness"@,
        "run_start"@,
        "seed="@ + decimal(before.config.seed as nat) + " agents="@ + decimal(agents),
    )
}

/// An agent's outcome was noted.
pub open spec fn concluded(
    before: SimHarness,
    after: SimHarness,
    agent: Seq<char>,
    outcome: AgentOutcome,
) -> bool {
    &&& after.config == before.config
    &&& after.ctx.seed == before.ctx.seed
    &&& after.ctx.rng == before.ctx.rng
    &&& after.ctx.world == before.ctx.world
    &&& summary_views(after.summaries@) == summary_views(before.summaries@).push(
        (agent, outcome.summary()),
    )
    &&& match outcome {
        AgentOutcome::Defended { summary } => {
            &&& after.ctx.clock.current_time == before.ctx.clock.current_time + 1
            &&& after.ctx.trace == before.ctx.trace
        },
        AgentOutcome::InvariantViolation { summary } => {
            &&& after.ctx.clock == before.ctx.clock
            &&& after.ctx.trace@ == if before.ctx.trace@.failure is None {
                before.ctx.trace@.failed(summary@)
            } else {
                before.ctx.trace@
            }
        },
    }
}

/// The end of a run was noted and reported.
pub open spec fn finished(before: SimHarness, after: SimHarness, report: SimReport) -> bool {
    &&& after.config == before.config
    &&& after.ctx.seed == before.ctx.seed
    &&& after.ctx.rng == before.ctx.rng
    &&& after.ctx.clock == before.ctx.clock
    &&& after.ctx.world == before.ctx.world
    &&& after.ctx.trace@ == before.ctx.trace@.recorded(
        before.ctx.clock.current_time,
        "harness"@,
        "run_end"@,
        "ok="@ + truth(before.ctx.trace@.failure is None),
    )
    &&& report.seed == before.config.seed
    &&& report.trace@ == after.ctx.trace@
    &&& summary_views(report.agent_summaries@) == summary_views(before.summaries@)
}

impl SimHarness {
    /// A harness at the start of a run.
    pub fn new(config: SimConfig) -> (harness: Self)
        ensures
            started(harness, config),
    {
        let world = SimWorld::new(config.account.as_str(), config.sequence);
        let ctx = AgentCtx {
            seed: config.seed,
            rng: SimRng::new(config.seed),
            clock: MockClock::new(config.start_secs),
            world,
            trace: Trace::new(),
        };
        SimHarness { config, ctx, summaries: Vec::new() }
    }

    /// The seed of the run.
    pub fn seed(&self) -> (seed: u64)
        ensures
            seed == self.config.seed,
    {
        self.config.seed
    }

    /// What has been recorded so far.
    pub fn trace(&self) -> (trace: &Trace)
        ensures
            *trace == self.ctx.trace,
    {
        &self.ctx.trace
    }

    /// Start a run of the given number of agents.
    pub fn begin(&mut self, agents: usize)
        ensures
            begun(*old(self), *final(self), agents as nat),
    {
        let mut detail = "seed=".to_owned();
        append_decimal(&mut detail, self.config.seed);
        detail.append(" agents=");
        append_decimal(&mut detail, agents as u64);
        self.ctx.trace.record(
            self.ctx.clock.current_time,
            "harness",
            "run_start",
            detail.as_str(),
        );
        self.summaries = Vec::new();
    }

    /// Take note of an agent's outcome; says whether the run goes on. An invariant
    /// violation ends it, and fails the trace if the agent did not. Otherwise the clock
    /// advances by a second, so that the timestamps of the agents are distinct.
    pub fn conclude(&mut self, agent: &str, outcome: AgentOutcome) -> (goes_on: bool)
        requires
            old(self).ctx.clock.current_time < u64::MAX,
        ensures
            concluded(*old(self), *final(self), agent@, outcome),
            goes_on == outcome is Defended,
    {
        let ghost before = self.summaries@;
        match outcome {
            AgentOutcome::Defended { summary } => {
                self.summaries.push((agent.to_owned(), summary));
                assert(summary_views(self.summaries@) =~= summary_views(before).push(
                    (agent@, summary@),
                ));
                self.ctx.clock.advance(1);
                true
            },
            AgentOutcome::InvariantViolation { summary } => {
                if self.ctx.trace.ok() {
                    self.ctx.trace.fail(summary.as_str());
                }
                self.summaries.push((agent.to_owned(), summary));
                assert(summary_views(self.summaries@) =~= summary_views(before).push(
                    (agent@, summary@),
                ));
                false
            },
        }
    }

    /// End the run and report on it.
    pub fn finish(&mut self) -> (report: SimReport)
        ensures
            finished(*old(self), *final(self), report),
    {
        let mut detail = "ok=".to_owned();
        append_truth(&mut detail, self.ctx.trace.ok());
        self.ctx.trace.record(
            self.ctx.clock.current_time,
            "harness",
            "run_end",
            detail.as_str(),
        );
        let mut agent_summaries: Vec<(String, String)> = Vec::new();
        let mut i: usize = 0;
        while i < self.summaries.len()
            invariant
                i <= self.summaries.len(),
                self.summaries@ == old(self).summaries@,
                summary_views(agent_summaries@) == summary_views(
                    self.summaries@.subrange(0, i as int),
                ),
            decreases self.summaries.len() - i,
        {
            let ghost before = agent_summaries@;
            let ghost upto = self.summaries@.subrange(0, i as int);
            agent_summaries.push((self.summaries[i].0.clone(), self.summaries[i].1.clone()));
            i += 1;
            proof {
                let next = self.summaries@.subrange(0, i as int);
                assert(next =~= upto.push(self.summaries@[i - 1]));
                assert(summary_views(next) =~= summary_views(upto).push(
                    (self.summaries@[i - 1].0@, self.summaries@[i - 1].1@),
                ));
                assert(summary_views(agent_summaries@) =~= summary_views(before).push(
                    (self.summaries@[i - 1].0@, self.summaries@[i - 1].1@),
                ));
            }
        }
        assert(self.summaries@.subrange(0, i as int) =~= self.summaries@);
        SimReport { seed: self.config.seed, trace: self.ctx.trace.copy(), agent_summaries }
    }
}

/// A turn adds the agent's name and summary to those before it. Where the agent defended, a
/// second passes and the trace stays; where it did not, the trace has failed.
pub proof fn turns_are_summed_up(
    before: SimHarness,
    after: SimHarness,
    agent: Seq<char>,
    outcome: AgentOutcome,
)
    requires
        concluded(before, after, agent, outcome),
    ensures
        summary_views(after.summaries@).len() == summary_views(before.summaries@).len() + 1,
        summary_views(after.summaries@).last().0 == agent,
        summary_views(after.summaries@).last().1 == outcome.summary(),
        outcome is Defended ==> after.ctx.clock.current_time == before.ctx.clock.current_time + 1
            && after.ctx.trace@ == before.ctx.trace@,
        outcome is InvariantViolation ==> after.ctx.trace@.failure is Some
            && after.ctx.clock.current_time == before.ctx.clock.current_time,
        after.ctx.rng == before.ctx.rng,
        after.ctx.world == before.ctx.world,
{
}

/// A run starts from its seed, its time, its account and nothing else, and its report holds its
/// seed and its trace, which starts and ends with an event of the harness.
pub proof fn runs_start_from_their_configuration(
    config: SimConfig,
    fresh: SimHarness,
    ready: SimHarness,
    agents: nat,
    done: SimHarness,
    closed: SimHarness,
    report: SimReport,
)
    requires
        started(fresh, config),
        begun(fresh, ready, agents),
        finished(done, closed, report),
        done.config.seed == config.seed,
    ensures
        fresh.ctx.rng.seed == config.seed && fresh.ctx.rng.position == 0,
        fresh.ctx.clock.current_time == config.start_secs,
        fresh.ctx.world.account@ == config.account@,
        fresh.ctx.world.sequence == config.sequence,
        fresh.ctx.world.devices@.len() == 0,
        fresh.ctx.trace@.events.len() == 0 && fresh.ctx.trace@.failure is None,
        ready.ctx.trace@.events.len() == 1,
        ready.ctx.rng == fresh.ctx.rng,
        report.seed == config.seed,
        report.trace@.events.len() == done.ctx.trace@.events.len() + 1,
        report.trace@.failure == done.ctx.trace@.failure,
        summary_views(report.agent_summaries@) == summary_views(done.summaries@),
{
}

} // verus!
