//! Append-only, order-stable execution trace for a single seeded run.
use vstd::prelude::*;

verus! {

/// One recorded step.
#[derive(Debug, Clone, PartialEq, Eq)]
pub struct TraceEvent {
    /// Simulated time when the event was recorded (`MockClock` seconds).
    pub at_secs: u64,
    /// Agent or harness subsystem that produced the event.
    pub source: String,
    /// Stable verb, e.g. `"forged_proof_rejected"`, `"race_conflicts_detected"`.
    pub kind: String,
    /// Free-form but deterministic detail (hex ids, counts, reasons).
    pub detail: String,
}

/// A [`TraceEvent`], with its texts taken by their characters.
pub struct EventView {
    pub at_secs: u64,
    pub source: Seq<char>,
    pub kind: Seq<char>,
    pub detail: Seq<char>,
}

impl View for TraceEvent {
    type V = EventView;

    open spec fn view(&self) -> EventView {
        EventView {
            at_secs: self.at_secs,
            source: self.source@,
            kind: self.kind@,
            detail: self.detail@,
        }
    }
}

/// Ordered log of [`TraceEvent`]s plus a terminal status line.
#[derive(Debug, Clone, PartialEq, Eq)]
pub struct Trace {
    pub events: Vec<TraceEvent>,
    /// `None` on success; otherwise a stable invariant-violation message.
    pub failure: Option<String>,
}

/// A [`Trace`], with its texts taken by their characters.
#[verifier::ext_equal]
pub struct TraceView {
    pub events: Seq<EventView>,
    pub failure: Option<Seq<char>>,
}

impl View for Trace {
    type V = TraceView;

    open spec fn view(&self) -> TraceView {
        TraceView {
            events: self.events@.map_values(|e: TraceEvent| e@),
            failure: match self.failure {
                Some(message) => Some(message@),
                None => None,
            },
        }
    }
}

impl TraceView {
    /// Nothing was recorded.
    pub open spec fn blank() -> TraceView {
        TraceView { events: Seq::empty(), failure: None }
    }

    /// With an event added.
    pub open spec fn recorded(
        self,
        at_secs: u64,
        source: Seq<char>,
        kind: Seq<char>,
        detail: Seq<char>,
    ) -> TraceView {
        TraceView { events: self.events.push(EventView { at_secs, source, kind, detail }), ..self }
    }

    /// With a failure noted.
    pub open spec fn failed(self, message: Seq<char>) -> TraceView {
        TraceView { failure: Some(message), ..self }
    }
}

impl Trace {
    /// A trace without events.
    pub fn new() -> (trace: Self)
        ensures
            trace@ == TraceView::blank(),
    {
        let trace = Trace { events: Vec::new(), failure: None };
        assert(trace@ =~= TraceView::blank());
        trace
    }

    /// Add an event.
    pub fn record(&mut self, at_secs: u64, source: &str, kind: &str, detail: &str)
        ensures
            final(self)@ == old(self)@.recorded(at_secs, source@, kind@, detail@),
    {
        let ghost before = self@;
        self.events.push(
            TraceEvent {
                at_secs,
                source: source.to_owned(),
                kind: kind.to_owned(),
                detail: detail.to_owned(),
            },
        );
        assert(self@ =~= before.recorded(at_secs, source@, kind@, detail@));
    }

    /// Note that the run failed.
    pub fn fail(&mut self, message: &str)
        ensures
            final(self)@ == old(self)@.failed(message@),
    {
        self.failure = Some(message.to_owned());
    }

    /// Whether the run has not failed.
    pub fn ok(&self) -> (r: bool)
        ensures
            r == self@.failure is None,
    {
        self.failure.is_none()
    }

    /// A trace with the same contents.
    pub fn copy(&self) -> (r: Self)
        ensures
            r@ == self@,
    {
        let mut events: Vec<TraceEvent> = Vec::new();
        let mut i: usize = 0;
        while i < self.events.len()
            invariant
                i <= self.events.len(),
                events@.len() == i,
                forall|j: int| 0 <= j < i ==> (#[trigger] events@[j])@ == self.events@[j]@,
            decreases self.events.len() - i,
        {
            let event = &self.events[i];
            events.push(
                TraceEvent {
                    at_secs: event.at_secs,
                    source: event.source.clone(),
                    kind: event.kind.clone(),
                    detail: event.detail.clone(),
                },
            );
            i += 1;
        }
        let failure = match &self.failure {
            Some(message) => Some(message.clone()),
            None => None,
        };
        let r = Trace { events, failure };
        assert(r@ =~= self@);
        r
    }
}

impl Default for Trace {
    fn default() -> (trace: Self)
        ensures
            trace@ == TraceView::blank(),
    {
        Self::new()
    }
}

/// A trace only grows: an event goes behind those recorded before, with its time, source, kind
/// and detail, and a failure leaves the events alone.
pub proof fn traces_only_grow(
    trace: TraceView,
    at_secs: u64,
    source: Seq<char>,
    kind: Seq<char>,
    detail: Seq<char>,
)
    ensures
        ({
            let after = trace.recorded(at_secs, source, kind, detail);
            &&& after.events.drop_last() == trace.events
            &&& after.events.last().at_secs == at_secs
            &&& after.events.last().source == source
            &&& after.events.last().kind == kind
            &&& after.events.last().detail == detail
            &&& after.failure == trace.failure
        }),
        trace.failed(detail).events == trace.events,
        trace.failed(detail).failure == Some(detail),
        TraceView::blank().events.len() == 0,
        TraceView::blank().failure is None,
{
    let after = trace.recorded(at_secs, source, kind, detail);
    assert(after.events.drop_last() =~= trace.events);
}

} // verus!
