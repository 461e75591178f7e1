//! The aggregator: it gathers the metrics of the readings it is handed into
//! the current window and, once the window has been open for the send
//! interval, closes it and reports the average of its loudest metrics.
//!
//! The aggregator reads no clock and sends nothing. Its caller hands it each
//! reading and the time, and acts on the report it gets back.

use vstd::prelude::*;
use vstd::multiset::Multiset;
use crate::metric::{checked_noise_metric, in_range, metric_of};
use crate::percentile::window_result;
use crate::window::{Window, HEAP_CAPACITY};

verus! {

/// How long a window stays open, in microseconds.
pub const SEND_INTERVAL_MICROS: u64 = 1_000_000;

/// What closing a window yields.
#[derive(Clone, Copy, Debug, PartialEq, Eq)]
pub struct WindowReport {
    /// Number of metrics the window held when it was closed.
    pub samples: usize,
    /// Whether the window had outgrown the slots reserved for it.
    pub over_capacity: bool,
    /// The average of the loudest five percent, or `None` where the window
    /// held fewer than twenty metrics: such a window is dropped unreported.
    pub result: Option<u8>,
}

/// The state of an aggregator as its contracts see it.
pub struct AggregatorView {
    /// The metrics gathered since the window was opened.
    pub metrics: Multiset<u8>,
    /// When the window was opened, in microseconds.
    pub opened_at: u64,
}

/// An aggregator with its current window.
pub struct Aggregator {
    window: Window,
    opened_at: u64,
}

impl View for Aggregator {
    type V = AggregatorView;

    closed spec fn view(&self) -> AggregatorView {
        AggregatorView { metrics: self.window@, opened_at: self.opened_at }
    }
}

/// Time passed since `opened_at`. A clock that was set back counts as no
/// time passed.
pub open spec fn elapsed(opened_at: u64, now: u64) -> nat {
    if now >= opened_at {
        (now - opened_at) as nat
    } else {
        0
    }
}

/// Whether a window opened at `opened_at` has been open for the send interval.
pub open spec fn is_due(opened_at: u64, now: u64) -> bool {
    elapsed(opened_at, now) >= SEND_INTERVAL_MICROS
}

/// A new, empty window opened at `now`.
pub open spec fn opened(now: u64) -> AggregatorView {
    AggregatorView { metrics: Multiset::empty(), opened_at: now }
}

/// The state after a reading arrived: its metric joins the window, unless the
/// reading is out of range, which leaves the state as it was.
pub open spec fn accumulated(state: AggregatorView, raw: u16) -> AggregatorView {
    if in_range(raw as int) {
        AggregatorView {
            metrics: state.metrics.insert(metric_of(raw as int) as u8),
            opened_at: state.opened_at,
        }
    } else {
        state
    }
}

/// The report on a window that held `metrics` when it was closed.
pub open spec fn report_of(metrics: Multiset<u8>) -> WindowReport {
    WindowReport {
        samples: metrics.len() as usize,
        over_capacity: metrics.len() > HEAP_CAPACITY,
        result: window_result(metrics),
    }
}

/// The state and the report after the time was checked: a window that is due
/// is reported and replaced by an empty one opened at `now`; nothing of it is
/// carried over. Otherwise nothing changes.
pub open spec fn polled(state: AggregatorView, now: u64) -> (AggregatorView, Option<WindowReport>) {
    if is_due(state.opened_at, now) {
        (opened(now), Some(report_of(state.metrics)))
    } else {
        (state, None)
    }
}

/// The state after the readings `raws` arrived one after the other.
pub open spec fn accumulated_all(state: AggregatorView, raws: Seq<u16>) -> AggregatorView
    decreases raws.len(),
{
    if raws.len() == 0 {
        state
    } else {
        accumulated(accumulated_all(state, raws.drop_last()), raws.last())
    }
}

/// The state and the reports after a run: each event is a reading and the
/// time read right after it was taken in.
pub open spec fn replayed(state: AggregatorView, events: Seq<(u16, u64)>) -> (
    AggregatorView,
    Seq<WindowReport>,
)
    decreases events.len(),
{
    if events.len() == 0 {
        (state, Seq::empty())
    } else {
        let (before, reports) = replayed(state, events.drop_last());
        let (raw, now) = events.last();
        let (after, report) = polled(accumulated(before, raw), now);
        match report {
            Some(report) => (after, reports.push(report)),
            None => (after, reports),
        }
    }
}

/// The metrics of the in-range readings among `raws`.
pub open spec fn metrics_of(raws: Seq<u16>) -> Multiset<u8>
    decreases raws.len(),
{
    if raws.len() == 0 {
        Multiset::empty()
    } else if in_range(raws.last() as int) {
        metrics_of(raws.drop_last()).insert(metric_of(raws.last() as int) as u8)
    } else {
        metrics_of(raws.drop_last())
    }
}

/// Whether every reading of `raws` is in range.
pub open spec fn all_in_range(raws: Seq<u16>) -> bool {
    forall|i: int| 0 <= i < raws.len() ==> in_range(#[trigger] raws[i] as int)
}

/// A window takes in every in-range reading it is handed, however many:
/// nothing is dropped when it outgrows the slots it reserved, and the time it
/// was opened at stays.
pub proof fn lemma_nothing_lost(state: AggregatorView, raws: Seq<u16>)
    ensures
        accumulated_all(state, raws).metrics == state.metrics.add(metrics_of(raws)),
        accumulated_all(state, raws).opened_at == state.opened_at,
        all_in_range(raws) ==> accumulated_all(state, raws).metrics.len() == state.metrics.len()
            + raws.len(),
        all_in_range(raws) ==> metrics_of(raws).len() == raws.len(),
    decreases raws.len(),
{
    if raws.len() == 0 {
        assert(state.metrics.add(Multiset::empty()) =~= state.metrics);
    } else {
        let front: Seq<u16> = raws.drop_last();
        lemma_nothing_lost(state, front);
        if all_in_range(raws) {
            assert(in_range(raws[raws.len() - 1] as int));
            assert forall|i: int| 0 <= i < front.len() implies in_range(
                #[trigger] front[i] as int,
            ) by {
                assert(front[i] == raws[i]);
            }
        }
        if in_range(raws.last() as int) {
            let metric: u8 = metric_of(raws.last() as int) as u8;
            assert(state.metrics.add(metrics_of(front)).insert(metric) =~= state.metrics.add(
                metrics_of(front).insert(metric),
            ));
        }
    }
}

/// Taking one reading out of a run takes its metric, if it had one, out of
/// the metrics of the run.
proof fn lemma_metrics_of_remove(raws: Seq<u16>, at: int)
    requires
        0 <= at < raws.len(),
    ensures
        in_range(raws[at] as int) ==> metrics_of(raws) == metrics_of(raws.remove(at)).insert(
            metric_of(raws[at] as int) as u8,
        ),
        !in_range(raws[at] as int) ==> metrics_of(raws) == metrics_of(raws.remove(at)),
    decreases raws.len(),
{
    let front: Seq<u16> = raws.drop_last();
    if at == raws.len() - 1 {
        assert(raws.remove(at) =~= front);
    } else {
        lemma_metrics_of_remove(front, at);
        let rest: Seq<u16> = raws.remove(at);
        assert(rest.drop_last() =~= front.remove(at));
        assert(rest.last() == raws.last());
        assert(front[at] == raws[at]);
        let inner: Multiset<u8> = metrics_of(front.remove(at));
        if in_range(raws[at] as int) && in_range(raws.last() as int) {
            let taken: u8 = metric_of(raws[at] as int) as u8;
            let last: u8 = metric_of(raws.last() as int) as u8;
            assert(inner.insert(taken).insert(last) =~= inner.insert(last).insert(taken));
        }
    }
}

/// The metrics of a run do not depend on the order of its readings.
pub proof fn lemma_metrics_of_permutation(a: Seq<u16>, b: Seq<u16>)
    requires
        a.to_multiset() == b.to_multiset(),
    ensures
        metrics_of(a) == metrics_of(b),
    decreases a.len(),
{
    vstd::seq_lib::to_multiset_len(a);
    vstd::seq_lib::to_multiset_len(b);
    if a.len() > 0 {
        let end: int = a.len() - 1;
        let raw: u16 = a[end];
        vstd::seq_lib::to_multiset_contains(a, raw);
        vstd::seq_lib::to_multiset_contains(b, raw);
        assert(a.contains(raw));
        let at: int = choose|at: int| 0 <= at < b.len() && b[at] == raw;
        vstd::seq_lib::to_multiset_remove(a, end);
        vstd::seq_lib::to_multiset_remove(b, at);
        assert(a.remove(end) =~= a.drop_last());
        lemma_metrics_of_permutation(a.drop_last(), b.remove(at));
        lemma_metrics_of_remove(b, at);
    }
}

/// A window is a multiset: handed the same readings in another order, it
/// holds the same metrics, and so reports the same result.
pub proof fn lemma_order_is_irrelevant(state: AggregatorView, a: Seq<u16>, b: Seq<u16>, now: u64)
    requires
        a.to_multiset() == b.to_multiset(),
    ensures
        accumulated_all(state, a) == accumulated_all(state, b),
        polled(accumulated_all(state, a), now) == polled(accumulated_all(state, b), now),
{
    lemma_nothing_lost(state, a);
    lemma_nothing_lost(state, b);
    lemma_metrics_of_permutation(a, b);
}

/// A window that is due is reported exactly once, at the poll that closes
/// it: the report counts every metric taken in, carries the capacity warning
/// if and only if there were more than `HEAP_CAPACITY` of them, and leaves an
/// empty window behind. A poll that closes nothing reports nothing.
pub proof fn lemma_overflow_warned_once(state: AggregatorView, now: u64)
    ensures
        polled(state, now).1 is Some <==> is_due(state.opened_at, now),
        polled(state, now).1 matches Some(report) ==> {
            &&& report.over_capacity <==> state.metrics.len() > HEAP_CAPACITY
            &&& report.result == window_result(state.metrics)
            &&& polled(state, now).0 == opened(now)
        },
        polled(state, now).1 is None ==> polled(state, now).0 == state,
{
}

/// Two aggregators in the same state, handed the same readings at the same
/// times, end in the same state and have given the same reports: a run is
/// decided by the metrics held, the opening time and the trace, and by
/// nothing else.
pub proof fn lemma_replay_agrees(a: Aggregator, b: Aggregator, events: Seq<(u16, u64)>)
    requires
        a@ == b@,
    ensures
        replayed(a@, events) == replayed(b@, events),
{
}

impl Aggregator {
    /// An aggregator whose first window opens at `now`.
    pub fn new(now: u64) -> (aggregator: Aggregator)
        ensures
            aggregator@ == opened(now),
    {
        Aggregator { window: Window::new(), opened_at: now }
    }

    /// Number of metrics in the current window.
    pub fn len(&self) -> (len: usize)
        ensures
            len == self@.metrics.len(),
    {
        self.window.len()
    }

    /// When the current window was opened.
    pub fn opened_at(&self) -> (at: u64)
        ensures
            at == self@.opened_at,
    {
        self.opened_at
    }

    /// Takes in one reading. Returns whether it was in range; one that is not
    /// is left out of the window.
    pub fn accumulate(&mut self, raw: u16) -> (accepted: bool)
        ensures
            accepted == in_range(raw as int),
            final(self)@ == accumulated(old(self)@, raw),
    {
        match checked_noise_metric(raw) {
            Some(metric) => {
                self.window.push(metric);
                true
            },
            None => false,
        }
    }

    /// Whether the current window has been open for the send interval.
    pub fn is_due(&self, now: u64) -> (due: bool)
        ensures
            due == is_due(self@.opened_at, now),
    {
        now >= self.opened_at && now - self.opened_at >= SEND_INTERVAL_MICROS
    }

    /// Closes the current window, whatever its age: reduces it to its report
    /// and opens an empty one at `now`.
    pub fn close(&mut self, now: u64) -> (report: WindowReport)
        ensures
            report == report_of(old(self)@.metrics),
            final(self)@ == opened(now),
    {
        let samples: usize = self.window.len();
        let over_capacity: bool = self.window.exceeds_capacity();
        let result: Option<u8> = self.window.reduce();
        self.window.clear();
        self.opened_at = now;
        WindowReport { samples, over_capacity, result }
    }

    /// Checks the time: closes the current window if it is due.
    pub fn poll(&mut self, now: u64) -> (report: Option<WindowReport>)
        ensures
            (final(self)@, report) == polled(old(self)@, now),
    {
        if self.is_due(now) {
            Some(self.close(now))
        } else {
            None
        }
    }

    /// Runs the aggregator over a recorded trace: each event is a reading and
    /// the time read right after it was taken in. Returns the reports of the
    /// windows that closed on the way, in order.
    pub fn replay(&mut self, events: &[(u16, u64)]) -> (reports: Vec<WindowReport>)
        ensures
            (final(self)@, reports@) == replayed(old(self)@, events@),
    {
        let mut reports: Vec<WindowReport> = Vec::new();
        let mut done: usize = 0;
        while done < events.len()
            invariant
                done <= events.len(),
                (self@, reports@) == replayed(old(self)@, events@.take(done as int)),
            decreases events.len() - done,
        {
            let event: (u16, u64) = events[done];
            self.accumulate(event.0);
            match self.poll(event.1) {
                Some(report) => {
                    reports.push(report);
                },
                None => {},
            }
            proof {
                assert(events@.take(done + 1).drop_last() =~= events@.take(done as int));
            }
            done = done + 1;
        }
        proof {
            assert(events@.take(events.len() as int) =~= events@);
        }
        reports
    }
}

} // verus!
