//! Protocol-level counters for the sync engine, to be exposed by whichever binary
//! embeds this crate (mobile wallet, relay node).
use crate::text::{append_decimal, decimal};
use vstd::prelude::*;
use vstd::string::*;

verus! {

/// Plain-data snapshot of all counters at a point in time.
#[derive(Debug, Clone, Copy, PartialEq, Eq, Structural)]
pub struct MetricsSnapshot {
    /// Total number of envelopes ever queued (lifetime counter).
    pub queued_total: usize,
    /// Total number of envelopes successfully settled on-chain (lifetime counter).
    pub settled_total: usize,
    /// Total number of envelopes that failed to settle (lifetime counter).
    pub failed_total: usize,
    /// Total number of double-spend conflicts detected (lifetime counter).
    pub conflicts_detected: usize,
    /// Total number of conflicts that could not be resolved off-chain and
    /// required escalation to the on-chain dispute resolver (lifetime counter).
    pub disputes_escalated: usize,
    /// Total number of envelopes evicted from the queue due to staleness
    /// or TTL expiration (lifetime counter).
    pub queue_evictions: usize,
}

/// The counters.
#[derive(Debug)]
pub struct SyncEngineMetrics {
    pub queued_total: usize,
    pub settled_total: usize,
    pub failed_total: usize,
    pub conflicts_detected: usize,
    pub disputes_escalated: usize,
    /// Count of envelopes evicted from queue due to staleness/TTL expiration.
    pub queue_evictions: usize,
}

impl View for SyncEngineMetrics {
    type V = MetricsSnapshot;

    open spec fn view(&self) -> MetricsSnapshot {
        MetricsSnapshot {
            queued_total: self.queued_total,
            settled_total: self.settled_total,
            failed_total: self.failed_total,
            conflicts_detected: self.conflicts_detected,
            disputes_escalated: self.disputes_escalated,
            queue_evictions: self.queue_evictions,
        }
    }
}

/// All counters at zero.
pub open spec fn no_events() -> MetricsSnapshot {
    MetricsSnapshot {
        queued_total: 0,
        settled_total: 0,
        failed_total: 0,
        conflicts_detected: 0,
        disputes_escalated: 0,
        queue_evictions: 0,
    }
}

/// The three lines of a counter in the Prometheus text format: its help text, its type
/// and its value.
pub open spec fn exposition(name: Seq<char>, help: Seq<char>, value: nat) -> Seq<char> {
    "# HELP "@ + name + " "@ + help + "\n# TYPE "@ + name + " counter\n"@ + name + " "@ + decimal(
        value,
    ) + "\n"@
}

impl MetricsSnapshot {
    /// The counters in the Prometheus text format.
    pub open spec fn text(self) -> Seq<char> {
        exposition(
            "stellarconduit_sync_queued_total"@,
            "Total number of envelopes ever queued."@,
            self.queued_total as nat,
        ) + exposition(
            "stellarconduit_sync_settled_total"@,
            "Total number of envelopes successfully settled on-chain."@,
            self.settled_total as nat,
        ) + exposition(
            "stellarconduit_sync_failed_total"@,
            "Total number of envelopes that failed to settle."@,
            self.failed_total as nat,
        ) + exposition(
            "stellarconduit_sync_conflicts_detected_total"@,
            "Total number of double-spend conflicts detected."@,
            self.conflicts_detected as nat,
        ) + exposition(
            "stellarconduit_sync_disputes_escalated_total"@,
            "Total number of conflicts escalated to on-chain dispute resolver."@,
            self.disputes_escalated as nat,
        ) + exposition(
            "stellarconduit_sync_queue_evictions_total"@,
            "Total number of envelopes evicted from queue due to staleness or TTL."@,
            self.queue_evictions as nat,
        )
    }
}

/// Append the three lines of a counter.
fn append_metric(output: &mut String, name: &str, help: &str, value: usize)
    ensures
        final(output)@ == old(output)@ + exposition(name@, help@, value as nat),
{
    output.append("# HELP ");
    output.append(name);
    output.append(" ");
    output.append(help);
    output.append("\n# TYPE ");
    output.append(name);
    output.append(" counter\n");
    output.append(name);
    output.append(" ");
    append_decimal(output, value as u64);
    output.append("\n");
    assert(output@ =~= old(output)@ + exposition(name@, help@, value as nat));
}

impl SyncEngineMetrics {
    /// Create a new metrics instance with all counters initialized to zero.
    pub fn new() -> (m: Self)
        ensures
            m@ == no_events(),
    {
        SyncEngineMetrics {
            queued_total: 0,
            settled_total: 0,
            failed_total: 0,
            conflicts_detected: 0,
            disputes_escalated: 0,
            queue_evictions: 0,
        }
    }

    /// Capture a snapshot of all counter values at this moment.
    pub fn snapshot(&self) -> (s: MetricsSnapshot)
        ensures
            s == self@,
    {
        MetricsSnapshot {
            queued_total: self.queued_total,
            settled_total: self.settled_total,
            failed_total: self.failed_total,
            conflicts_detected: self.conflicts_detected,
            disputes_escalated: self.disputes_escalated,
            queue_evictions: self.queue_evictions,
        }
    }

    /// Capture a snapshot and reset all counters to zero: for periodic deltas rather
    /// than lifetime totals.
    pub fn snapshot_and_reset(&mut self) -> (s: MetricsSnapshot)
        ensures
            s == old(self)@,
            final(self)@ == no_events(),
    {
        let s = self.snapshot();
        *self = Self::new();
        s
    }

    /// Export metrics in Prometheus text exposition format (version 0.0.4), each with
    /// its `# HELP` and `# TYPE` line. The names follow the pattern
    /// `stellarconduit_sync_<name>_total`.
    pub fn to_prometheus_text(&self) -> (text: String)
        ensures
            text@ == self@.text(),
    {
        let snapshot = self.snapshot();
        let mut output = "".to_owned();
        proof {
            reveal_strlit("");
            assert(output@ =~= Seq::<char>::empty());
        }
        append_metric(
            &mut output,
            "stellarconduit_sync_queued_total",
            "Total number of envelopes ever queued.",
            snapshot.queued_total,
        );
        proof {
            let first = exposition(
                "stellarconduit_sync_queued_total"@,
                "Total number of envelopes ever queued."@,
                snapshot.queued_total as nat,
            );
            assert(Seq::<char>::empty() + first =~= first);
        }
        append_metric(
            &mut output,
            "stellarconduit_sync_settled_total",
            "Total number of envelopes successfully settled on-chain.",
            snapshot.settled_total,
        );
        append_metric(
            &mut output,
            "stellarconduit_sync_failed_total",
            "Total number of envelopes that failed to settle.",
            snapshot.failed_total,
        );
        append_metric(
            &mut output,
            "stellarconduit_sync_conflicts_detected_total",
            "Total number of double-spend conflicts detected.",
            snapshot.conflicts_detected,
        );
        append_metric(
            &mut output,
            "stellarconduit_sync_disputes_escalated_total",
            "Total number of conflicts escalated to on-chain dispute resolver.",
            snapshot.disputes_escalated,
        );
        append_metric(
            &mut output,
            "stellarconduit_sync_queue_evictions_total",
            "Total number of envelopes evicted from queue due to staleness or TTL.",
            snapshot.queue_evictions,
        );
        output
    }
}

impl Default for SyncEngineMetrics {
    fn default() -> (m: Self)
        ensures
            m@ == no_events(),
    {
        Self::new()
    }
}

/// A text holds the line of a counter with its value.
pub open spec fn holds_value(text: Seq<char>, name: Seq<char>, value: nat) -> bool {
    exists|before: Seq<char>, after: Seq<char>|
        text == #[trigger] (before + (name + " "@ + decimal(value) + "\n"@) + after)
}

proof fn lemma_value_is_held(
    text: Seq<char>,
    before: Seq<char>,
    name: Seq<char>,
    help: Seq<char>,
    value: nat,
    after: Seq<char>,
)
    requires
        text == before + exposition(name, help, value) + after,
    ensures
        holds_value(text, name, value),
{
    let head = "# HELP "@ + name + " "@ + help + "\n# TYPE "@ + name + " counter\n"@;
    let line = name + " "@ + decimal(value) + "\n"@;
    assert(exposition(name, help, value) =~= head + line);
    assert(text =~= (before + head) + line + after);
}

/// Every counter is exported under its own name with its own value.
pub proof fn counters_are_exported_under_their_names(m: MetricsSnapshot)
    ensures
        holds_value(
            m.text(),
            "stellarconduit_sync_queued_total"@,
            m.queued_total as nat,
        ),
        holds_value(
            m.text(),
            "stellarconduit_sync_settled_total"@,
            m.settled_total as nat,
        ),
        holds_value(
            m.text(),
            "stellarconduit_sync_failed_total"@,
            m.failed_total as nat,
        ),
        holds_value(
            m.text(),
            "stellarconduit_sync_conflicts_detected_total"@,
            m.conflicts_detected as nat,
        ),
        holds_value(
            m.text(),
            "stellarconduit_sync_disputes_escalated_total"@,
            m.disputes_escalated as nat,
        ),
        holds_value(
            m.text(),
            "stellarconduit_sync_queue_evictions_total"@,
            m.queue_evictions as nat,
        ),
{
    let none = Seq::<char>::empty();
    let n0 = "stellarconduit_sync_queued_total"@;
    let h0 = "Total number of envelopes ever queued."@;
    let e0 = exposition(n0, h0, m.queued_total as nat);
    let n1 = "stellarconduit_sync_settled_total"@;
    let h1 = "Total number of envelopes successfully settled on-chain."@;
    let e1 = exposition(n1, h1, m.settled_total as nat);
    let n2 = "stellarconduit_sync_failed_total"@;
    let h2 = "Total number of envelopes that failed to settle."@;
    let e2 = exposition(n2, h2, m.failed_total as nat);
    let n3 = "stellarconduit_sync_conflicts_detected_total"@;
    let h3 = "Total number of double-spend conflicts detected."@;
    let e3 = exposition(n3, h3, m.conflicts_detected as nat);
    let n4 = "stellarconduit_sync_disputes_escalated_total"@;
    let h4 = "Total number of conflicts escalated to on-chain dispute resolver."@;
    let e4 = exposition(n4, h4, m.disputes_escalated as nat);
    let n5 = "stellarconduit_sync_queue_evictions_total"@;
    let h5 = "Total number of envelopes evicted from queue due to staleness or TTL."@;
    let e5 = exposition(n5, h5, m.queue_evictions as nat);
    assert(m.text() =~= (none) + e0 + (e1 + e2 + e3 + e4 + e5));
    lemma_value_is_held(m.text(), none, n0, h0, m.queued_total as nat, e1 + e2 + e3 + e4 + e5);
    assert(m.text() =~= (e0) + e1 + (e2 + e3 + e4 + e5));
    lemma_value_is_held(m.text(), e0, n1, h1, m.settled_total as nat, e2 + e3 + e4 + e5);
    assert(m.text() =~= (e0 + e1) + e2 + (e3 + e4 + e5));
    lemma_value_is_held(m.text(), e0 + e1, n2, h2, m.failed_total as nat, e3 + e4 + e5);
    assert(m.text() =~= (e0 + e1 + e2) + e3 + (e4 + e5));
    lemma_value_is_held(m.text(), e0 + e1 + e2, n3, h3, m.conflicts_detected as nat, e4 + e5);
    assert(m.text() =~= (e0 + e1 + e2 + e3) + e4 + (e5));
    lemma_value_is_held(m.text(), e0 + e1 + e2 + e3, n4, h4, m.disputes_escalated as nat, e5);
    assert(m.text() =~= (e0 + e1 + e2 + e3 + e4) + e5 + (none));
    lemma_value_is_held(m.text(), e0 + e1 + e2 + e3 + e4, n5, h5, m.queue_evictions as nat, none);
}

/// A snapshot shows each counter as it is, and at the start all of them are zero.
pub proof fn snapshots_show_the_counters(m: SyncEngineMetrics)
    ensures
        m@.queued_total == m.queued_total,
        m@.settled_total == m.settled_total,
        m@.failed_total == m.failed_total,
        m@.conflicts_detected == m.conflicts_detected,
        m@.disputes_escalated == m.disputes_escalated,
        m@.queue_evictions == m.queue_evictions,
        no_events().queued_total == 0 && no_events().settled_total == 0 && no_events().failed_total
            == 0,
        no_events().conflicts_detected == 0 && no_events().disputes_escalated == 0
            && no_events().queue_evictions == 0,
{
}

} // verus!
