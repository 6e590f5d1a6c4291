//! Clock abstraction for TTL and staleness calculations that is immune to time
//! jumps within a session and clamps regressions across restarts.
use vstd::prelude::*;

verus! {

/// `std::time::Instant`, a reading of the monotonic clock.
#[verifier::external_type_specification]
#[verifier::external_body]
pub struct ExInstant(std::time::Instant);

/// The seconds from `earlier` to `now`; zero where `earlier` lies in the future.
pub open spec fn elapsed(now: u64, earlier: u64) -> u64 {
    if now >= earlier {
        (now - earlier) as u64
    } else {
        0
    }
}

/// The seconds from `earlier_secs` to `now`. A timestamp that a clock regression
/// put in the future counts as just now.
pub fn elapsed_between(now: u64, earlier_secs: u64) -> (secs: u64)
    ensures
        secs == elapsed(now, earlier_secs),
{
    if now >= earlier_secs {
        now - earlier_secs
    } else {
        0
    }
}

/// A clock abstraction for deterministic testing and handling clock regression.
pub trait Clock {
    /// Whether the clock may show `now`.
    spec fn shows(&self, now: u64) -> bool;

    /// Returns the current time in Unix seconds.
    fn now_secs(&self) -> (now: u64)
        ensures
            self.shows(now),
    ;

    /// Safely calculates the elapsed seconds since `earlier_secs`: what
    /// [`elapsed_between`] makes of the current time.
    fn elapsed_since(&self, earlier_secs: u64) -> (secs: u64)
        ensures
            exists|now: u64| #[trigger] self.shows(now) && secs == elapsed(now, earlier_secs),
    {
        let now: u64 = self.now_secs();
        elapsed_between(now, earlier_secs)
    }
}

/// A clock that is monotonically increasing intra-session, anchored to the
/// wall-clock at creation: the wall clock's reading then, plus the time that has
/// passed on the monotonic clock since.
#[derive(Debug)]
pub struct HybridClock {
    pub baseline_wall_secs: u64,
    pub baseline_monotonic: std::time::Instant,
}

/// Reads `std::time::SystemTime::now` as seconds since the Unix epoch, zero where
/// it lies before. Nothing is claimed of the reading.
#[verifier::external_body]
fn wall_clock_secs() -> u64 {
    std::time::SystemTime::now()
        .duration_since(std::time::UNIX_EPOCH)
        .unwrap_or_default()
        .as_secs()
}

/// Calls `std::time::Instant::now`. Nothing is claimed of the reading.
#[verifier::external_body]
fn monotonic_now() -> std::time::Instant {
    std::time::Instant::now()
}

/// Calls `std::time::Instant::elapsed`, in whole seconds. Nothing is claimed of
/// the reading.
#[verifier::external_body]
fn secs_since(start: &std::time::Instant) -> u64 {
    start.elapsed().as_secs()
}

impl HybridClock {
    /// A clock anchored to the wall clock now.
    pub fn new() -> Self {
        HybridClock {
            baseline_wall_secs: wall_clock_secs(),
            baseline_monotonic: monotonic_now(),
        }
    }
}

impl Default for HybridClock {
    fn default() -> Self {
        Self::new()
    }
}

/// The time that a clock anchored at `baseline` shows when `passed` seconds have passed
/// since, up to the largest time that can be told.
pub open spec fn anchored_time(baseline: u64, passed: u64) -> u64 {
    if baseline + passed <= u64::MAX {
        (baseline + passed) as u64
    } else {
        u64::MAX
    }
}

/// The time at `passed` seconds after `baseline`.
pub fn anchored(baseline: u64, passed: u64) -> (now: u64)
    ensures
        now == anchored_time(baseline, passed),
{
    baseline.saturating_add(passed)
}

/// An anchored clock never goes back: the more time has passed on the monotonic clock, the
/// later it shows, and never a time before its anchor.
pub proof fn anchored_time_never_goes_back(baseline: u64, passed: u64, later: u64)
    requires
        passed <= later,
    ensures
        baseline <= anchored_time(baseline, passed) <= anchored_time(baseline, later),
        baseline + later <= u64::MAX ==> anchored_time(baseline, later) - anchored_time(
            baseline,
            passed,
        ) == later - passed,
{
}

impl Clock for HybridClock {
    /// Some time at or after the wall clock's reading at creation.
    open spec fn shows(&self, now: u64) -> bool {
        exists|passed: u64| now == #[trigger] anchored_time(self.baseline_wall_secs, passed)
    }

    /// What [`anchored`] makes of the time that has passed since creation.
    fn now_secs(&self) -> (now: u64)
        ensures
            now >= self.baseline_wall_secs,
    {
        anchored(self.baseline_wall_secs, secs_since(&self.baseline_monotonic))
    }
}

/// A mock clock for deterministic testing.
#[derive(Debug, Clone, Copy)]
pub struct MockClock {
    pub current_time: u64,
}

impl MockClock {
    /// A clock that shows `initial_secs` until it is moved.
    pub fn new(initial_secs: u64) -> (clock: Self)
        ensures
            clock.current_time == initial_secs,
    {
        MockClock { current_time: initial_secs }
    }

    /// Move the clock forward.
    pub fn advance(&mut self, secs: u64)
        requires
            old(self).current_time + secs <= u64::MAX,
        ensures
            final(self).current_time == old(self).current_time + secs,
    {
        self.current_time = self.current_time + secs;
    }

    /// Set the clock.
    pub fn set_time(&mut self, secs: u64)
        ensures
            final(self).current_time == secs,
    {
        self.current_time = secs;
    }
}

impl Default for MockClock {
    fn default() -> (clock: Self)
        ensures
            clock.current_time == 0,
    {
        MockClock { current_time: 0 }
    }
}

impl Clock for MockClock {
    open spec fn shows(&self, now: u64) -> bool {
        now == self.current_time
    }

    fn now_secs(&self) -> (now: u64)
        ensures
            now == self.current_time,
    {
        self.current_time
    }

    fn elapsed_since(&self, earlier_secs: u64) -> (secs: u64)
        ensures
            secs == elapsed(self.current_time, earlier_secs),
    {
        assert(self.shows(self.current_time));
        elapsed_between(self.current_time, earlier_secs)
    }
}

/// A shared clock shows what the clock shows.
impl<C: Clock> Clock for std::sync::Arc<C> {
    open spec fn shows(&self, now: u64) -> bool {
        (**self).shows(now)
    }

    fn now_secs(&self) -> (now: u64) {
        (**self).now_secs()
    }
}

/// A clock regression never produces a negative or inflated age: the elapsed time
/// is at most the current time, and an age is monotone in the current time.
pub proof fn elapsed_never_exceeds_now(now: u64, later: u64, earlier: u64)
    requires
        now <= later,
    ensures
        elapsed(now, earlier) <= now,
        elapsed(now, earlier) <= elapsed(later, earlier),
        now < earlier ==> elapsed(now, earlier) == 0,
{
}

/// The elapsed seconds lead from the earlier time to the current one, and an anchored clock
/// starts at its anchor and moves with the time that passes, up to the end of the range.
pub proof fn seconds_add_up(now: u64, earlier: u64, baseline: u64, passed: u64)
    ensures
        earlier <= now ==> earlier + elapsed(now, earlier) == now,
        anchored_time(baseline, 0) == baseline,
        baseline + passed <= u64::MAX ==> anchored_time(baseline, passed) - passed == baseline,
        baseline + passed > u64::MAX ==> anchored_time(baseline, passed) == u64::MAX,
{
}

/// A mock clock shows the time that it was set to, and a hybrid clock every time from its
/// anchor on, and no other.
pub proof fn clocks_show_their_time(mock: MockClock, hybrid: HybridClock, now: u64)
    ensures
        mock.shows(now) <==> now == mock.current_time,
        hybrid.shows(now) <==> now >= hybrid.baseline_wall_secs,
{
    if now >= hybrid.baseline_wall_secs {
        assert(now == anchored_time(
            hybrid.baseline_wall_secs,
            (now - hybrid.baseline_wall_secs) as u64,
        ));
    }
}

} // verus!
