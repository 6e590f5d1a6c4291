//! Budgeted multi-seed adversarial sweep.
use crate::sim::harness::SimReport;
use vstd::prelude::*;

verus! {

/// Sweep knobs.
#[derive(Debug, Clone, Copy)]
pub struct SweepConfig {
    pub start_seed: u64,
    pub max_seeds: u64,
    pub time_budget_secs: u64,
}

impl Default for SweepConfig {
    fn default() -> (config: Self)
        ensures
            config == (SweepConfig { start_seed: 1, max_seeds: 256, time_budget_secs: 30 }),
    {
        SweepConfig { start_seed: 1, max_seeds: 256, time_budget_secs: 30 }
    }
}

impl SweepConfig {
    /// The default knobs, with those that are given in their place.
    pub fn with_overrides(max_seeds: Option<u64>, time_budget_secs: Option<u64>) -> (config: Self)
        ensures
            config.start_seed == 1,
            config.max_seeds == match max_seeds {
                Some(n) => n,
                None => 256,
            },
            config.time_budget_secs == match time_budget_secs {
                Some(n) => n,
                None => 30,
            },
    {
        let mut config = SweepConfig::default();
        if let Some(n) = max_seeds {
            config.max_seeds = n;
        }
        if let Some(n) = time_budget_secs {
            config.time_budget_secs = n;
        }
        config
    }
}

/// How a sweep went.
#[derive(Debug, Clone)]
pub struct SweepReport {
    pub seeds_run: u64,
    pub failures: Vec<(u64, String)>,
    pub elapsed_secs: u64,
    pub hit_budget: bool,
}

impl SweepReport {
    /// Whether no seed failed.
    pub fn ok(&self) -> (r: bool)
        ensures
            r == (self.failures@.len() == 0),
    {
        self.failures.len() == 0
    }
}

/// The failures, with their texts taken by their characters.
pub open spec fn failure_views(list: Seq<(u64, String)>) -> Seq<(u64, Seq<char>)> {
    list.map_values(|f: (u64, String)| (f.0, f.1@))
}

/// A sweep in progress.
#[derive(Debug)]
pub struct Sweep {
    pub config: SweepConfig,
    pub report: SweepReport,
}

impl Sweep {
    /// A sweep of which no seed was run.
    pub fn new(config: SweepConfig) -> (sweep: Self)
        ensures
            sweep.config == config,
            sweep.report.seeds_run == 0,
            sweep.report.failures@ == Seq::<(u64, String)>::empty(),
            sweep.report.elapsed_secs == 0,
            !sweep.report.hit_budget,
    {
        Sweep {
            config,
            report: SweepReport {
                seeds_run: 0,
                failures: Vec::new(),
                elapsed_secs: 0,
                hit_budget: false,
            },
        }
    }

    /// The next seed to run after the given time: `None` where the number of seeds, or
    /// the time budget, is exhausted.
    pub fn next_seed(&mut self, elapsed_secs: u64) -> (r: Option<u64>)
        ensures
            final(self).config == old(self).config,
            final(self).report == (SweepReport {
                elapsed_secs,
                hit_budget: old(self).report.hit_budget || (old(self).report.seeds_run < old(
                    self,
                ).config.max_seeds && elapsed_secs >= old(self).config.time_budget_secs),
                ..old(self).report
            }),
            r == if old(self).report.seeds_run < old(self).config.max_seeds && elapsed_secs < old(
                self,
            ).config.time_budget_secs {
                Some(
                    ((old(self).config.start_seed + old(self).report.seeds_run) % (u64::MAX
                        + 1)) as u64,
                )
            } else {
                None
            },
    {
        self.report.elapsed_secs = elapsed_secs;
        if self.report.seeds_run >= self.config.max_seeds {
            return None;
        }
        if elapsed_secs >= self.config.time_budget_secs {
            self.report.hit_budget = true;
            return None;
        }
        Some(self.config.start_seed.wrapping_add(self.report.seeds_run))
    }

    /// Take note of a seed's report. A failure does not end the sweep, so that it does
    /// not hide others.
    pub fn record(&mut self, seed: u64, report: &SimReport)
        requires
            old(self).report.seeds_run < u64::MAX,
        ensures
            final(self).config == old(self).config,
            final(self).report.seeds_run == old(self).report.seeds_run + 1,
            final(self).report.elapsed_secs == old(self).report.elapsed_secs,
            final(self).report.hit_budget == old(self).report.hit_budget,
            failure_views(final(self).report.failures@) == match report.trace@.failure {
                Some(detail) => failure_views(old(self).report.failures@).push((seed, detail)),
                None => failure_views(old(self).report.failures@),
            },
    {
        self.report.seeds_run += 1;
        let ghost before = self.report.failures@;
        if let Some(detail) = &report.trace.failure {
            self.report.failures.push((seed, detail.clone()));
            assert(failure_views(self.report.failures@) =~= failure_views(before).push(
                (seed, detail@),
            ));
        }
    }
}

/// Failures are listed by seed and text.
pub proof fn failures_are_listed_as_recorded(list: Seq<(u64, String)>, i: int)
    requires
        0 <= i < list.len(),
    ensures
        failure_views(list).len() == list.len(),
        failure_views(list)[i].0 == list[i].0,
        failure_views(list)[i].1 == list[i].1@,
{
}

} // verus!
