//! The pipeline driver: feeds the lines of a log, in order, through the
//! extractor, the window tracker, the event filter and the aggregator, and
//! draws the conclusion when the log ends.

use crate::clock::{elapsed, elapsed_between, span_parts, Span, Timestamp};
use crate::extract::{entry_of, parse_log_timestamp, ParsedEntry};
use crate::filter::{worker_key, worker_of};
use crate::tally::{count_in, counts_of, lists, recorded, ShareCounts, WorkerShares};
use crate::window::{Window, WindowTracker};
use vstd::prelude::*;

verus! {

/// The state of a run as plain values: the counts and the span seen.
pub struct RunState {
    pub counts: Map<Seq<char>, nat>,
    pub tracker: WindowTracker,
}

/// The shares of each worker over the span they were averaged on.
#[derive(Debug)]
pub struct Report {
    /// Each worker once, with its shares.
    pub workers: Vec<WorkerShares>,
    /// The whole seconds of the averaging span.
    pub span_secs: i64,
    /// The whole minutes of the averaging span.
    pub span_minutes: i64,
}

/// How a run ended.
#[derive(Debug)]
pub enum Outcome {
    /// The log does not span more than the window asked for: no report.
    InsufficientData {
        /// The minutes of the window asked for.
        requested_minutes: i64,
        /// The whole minutes that the log spans.
        available_minutes: i64,
    },
    /// The report.
    Reported(Report),
}

/// Why no conclusion could be drawn.
#[derive(Clone, Copy, Debug, PartialEq, Eq, Structural)]
pub enum TimeError {
    /// A timestamp lies outside the calendar, so no span can be measured.
    OutOfRange,
}

/// How a run ends, as plain values.
pub enum Conclusion {
    OutOfRange,
    InsufficientData { requested_minutes: int, available_minutes: int },
    Reported { counts: Map<Seq<char>, nat>, span_secs: int, span_minutes: int },
}

/// A span from its seconds and nanoseconds.
pub open spec fn span_from(parts: (int, int)) -> Span {
    Span { secs: parts.0 as i64, nanos: parts.1 as i32 }
}

/// A timestamp from its seconds and nanoseconds.
pub open spec fn stamp_from(parts: (int, int)) -> Timestamp {
    Timestamp { secs: parts.0 as i64, nanos: parts.1 as u32 }
}

/// The state after an entry of time `t` and text `message`: the span takes
/// note of `t` in any case; the worker that the message names gains a share
/// where `t` lies in the window.
pub open spec fn accepted(state: RunState, t: Timestamp, message: Seq<char>) -> RunState {
    let tracker = state.tracker.seen(t);
    let counts = match worker_key(message) {
        Some(w) if tracker.in_window(t) => recorded(state.counts, w),
        _ => state.counts,
    };
    RunState { counts, tracker }
}

/// The state after one more line: a line without a timestamp changes
/// nothing.
pub open spec fn fed(state: RunState, line: Seq<char>) -> RunState {
    match entry_of(line) {
        Some((stamp, message)) => accepted(state, stamp_from(stamp), message),
        None => state,
    }
}

/// The state after the lines `lines`, taken in order.
pub open spec fn fed_all(state: RunState, lines: Seq<Seq<char>>) -> RunState
    decreases lines.len(),
{
    if lines.len() == 0 {
        state
    } else {
        fed(fed_all(state, lines.drop_last()), lines.last())
    }
}

/// The conclusion of a run that ended in `state`, given the span of the log
/// (`log`, from the first timestamp to the last) and the span to average
/// over (`averaged`, from the start of the window to the last timestamp),
/// each as measured or not measurable.
pub open spec fn conclusion(
    state: RunState,
    window: Option<Window>,
    log: Option<(int, int)>,
    averaged: Option<(int, int)>,
) -> Conclusion {
    match log {
        None => Conclusion::OutOfRange,
        Some(l) => match window {
            Some(w) if span_from(l).within_minutes(w.minutes as int) => Conclusion::InsufficientData {
                requested_minutes: w.minutes as int,
                available_minutes: span_from(l).minutes(),
            },
            _ => match averaged {
                None => Conclusion::OutOfRange,
                Some(a) => Conclusion::Reported {
                    counts: state.counts,
                    span_secs: span_from(a).secs as int,
                    span_minutes: span_from(a).minutes(),
                },
            },
        },
    }
}

/// Whether `r` is the conclusion `c`.
pub open spec fn agrees(r: Result<Outcome, TimeError>, c: Conclusion) -> bool {
    match r {
        Err(e) => c is OutOfRange,
        Ok(Outcome::InsufficientData { requested_minutes, available_minutes }) => c == (
        Conclusion::InsufficientData {
            requested_minutes: requested_minutes as int,
            available_minutes: available_minutes as int,
        }),
        Ok(Outcome::Reported(report)) => c matches Conclusion::Reported {
            counts,
            span_secs,
            span_minutes,
        } && lists(report.workers@, counts) && report.span_secs == span_secs
            && report.span_minutes == span_minutes,
    }
}

/// The span that a run averages over: from the start of the window, or
/// from the first timestamp where there is no window, to the last
/// timestamp.
pub open spec fn averaging_start(tracker: WindowTracker) -> Timestamp {
    match tracker.cutoff {
        Some(c) => c,
        None => tracker.first_seen,
    }
}

/// The span of the log as `chrono` measures it: from the first timestamp
/// to the last.
pub open spec fn log_span(tracker: WindowTracker) -> Option<(int, int)> {
    elapsed_between(
        tracker.last_seen.secs as int,
        tracker.last_seen.nanos as int,
        tracker.first_seen.secs as int,
        tracker.first_seen.nanos as int,
    )
}

/// The span to average over as `chrono` measures it.
pub open spec fn averaged_span(tracker: WindowTracker) -> Option<(int, int)> {
    elapsed_between(
        tracker.last_seen.secs as int,
        tracker.last_seen.nanos as int,
        averaging_start(tracker).secs as int,
        averaging_start(tracker).nanos as int,
    )
}

/// The conclusion of a run that ended in `state`.
pub open spec fn outcome_of(state: RunState, window: Option<Window>) -> Conclusion {
    conclusion(state, window, log_span(state.tracker), averaged_span(state.tracker))
}

/// The state of a run that has read nothing yet.
pub open spec fn initial_state(window: Option<Window>, now: Timestamp) -> RunState {
    RunState {
        counts: Map::empty(),
        tracker: WindowTracker {
            first_seen: now,
            last_seen: now,
            cutoff: match window {
                Some(w) => Some(w.cutoff),
                None => None,
            },
        },
    }
}

/// The contents of a list of lines.
pub open spec fn line_views(lines: Seq<String>) -> Seq<Seq<char>> {
    Seq::new(lines.len(), |k: int| lines[k]@)
}

/// Whether two results say the same: the same error, the same minutes, or
/// the same spans and the same count for every worker.
pub open spec fn same_result(a: Result<Outcome, TimeError>, b: Result<Outcome, TimeError>) -> bool {
    match (a, b) {
        (Err(x), Err(y)) => x == y,
        (
            Ok(Outcome::InsufficientData { requested_minutes: r1, available_minutes: a1 }),
            Ok(Outcome::InsufficientData { requested_minutes: r2, available_minutes: a2 }),
        ) => r1 == r2 && a1 == a2,
        (Ok(Outcome::Reported(x)), Ok(Outcome::Reported(y))) => {
            &&& x.span_secs == y.span_secs
            &&& x.span_minutes == y.span_minutes
            &&& counts_of(x.workers@) == counts_of(y.workers@)
        },
        _ => false,
    }
}

/// A run over one log.
#[derive(Debug)]
pub struct Pipeline {
    counts: ShareCounts,
    tracker: WindowTracker,
    window: Option<Window>,
}

impl Pipeline {
    /// The state of the run.
    pub closed spec fn view(&self) -> RunState {
        RunState { counts: self.counts@, tracker: self.tracker }
    }

    /// The window that the run was started with.
    pub closed spec fn window(&self) -> Option<Window> {
        self.window
    }

    /// The number of shares counted so far.
    pub closed spec fn shares(&self) -> nat {
        self.counts.total()
    }

    /// The counts are well formed, and the tracker's cutoff is the
    /// window's.
    pub closed spec fn wf(&self) -> bool {
        &&& self.counts.wf()
        &&& self.tracker.cutoff == match self.window {
            Some(w) => Some(w.cutoff),
            None => None,
        }
    }

    /// A run that has read nothing yet, started at the time `now`.
    pub fn start(window: Option<Window>, now: Timestamp) -> (p: Pipeline)
        ensures
            p.wf(),
            p.window() == window,
            p.shares() == 0,
            p@ == initial_state(window, now),
    {
        let cutoff = match window {
            Some(w) => Some(w.cutoff),
            None => None,
        };
        Pipeline { counts: ShareCounts::new(), tracker: WindowTracker::new(now, cutoff), window }
    }

    /// Takes one entry: notes its time, and counts its share if it reports
    /// one within the window.
    pub fn accept(&mut self, entry: ParsedEntry)
        requires
            old(self).wf(),
            old(self).shares() < u64::MAX,
        ensures
            final(self).wf(),
            final(self).window() == old(self).window(),
            final(self)@ == accepted(old(self)@, entry.timestamp, entry.message@),
            old(self).shares() <= final(self).shares() <= old(self).shares() + 1,
    {
        self.tracker.observe(entry.timestamp);
        if self.tracker.is_in_window(entry.timestamp) {
            match worker_of(entry.message.as_str()) {
                Some(worker) => {
                    self.counts.record(worker);
                },
                None => {},
            }
        }
    }

    /// Takes one line of the log. A line without a timestamp is passed
    /// over.
    pub fn feed(&mut self, line: &str)
        requires
            old(self).wf(),
            old(self).shares() < u64::MAX,
        ensures
            final(self).wf(),
            final(self).window() == old(self).window(),
            final(self)@ == fed(old(self)@, line@),
            old(self).shares() <= final(self).shares() <= old(self).shares() + 1,
    {
        match parse_log_timestamp(line) {
            Some(entry) => {
                self.accept(entry);
            },
            None => {},
        }
    }

    /// The number of shares counted so far.
    pub fn shares_counted(&self) -> (n: u64)
        ensures
            n == self.shares(),
    {
        self.counts.shares_recorded()
    }

    /// The span seen so far.
    pub fn tracker(&self) -> (t: WindowTracker)
        ensures
            t == self@.tracker,
    {
        self.tracker
    }

    /// The number of shares counted for `worker` so far.
    pub fn count(&self, worker: &str) -> (n: u64)
        requires
            self.wf(),
        ensures
            n == count_in(self@.counts, worker@),
    {
        self.counts.count(worker)
    }

    /// Ends the run, given the span of the log and the span to average
    /// over, each as measured or not measurable.
    pub fn conclude(self, log: Option<Span>, averaged: Option<Span>) -> (r: Result<
        Outcome,
        TimeError,
    >)
        requires
            self.wf(),
        ensures
            agrees(r, conclusion(self@, self.window(), span_parts(log), span_parts(averaged))),
    {
        let log_span = match log {
            Some(l) => l,
            None => {
                return Err(TimeError::OutOfRange);
            },
        };
        match self.window {
            Some(w) => {
                if log_span.at_most_minutes(w.minutes) {
                    return Ok(
                        Outcome::InsufficientData {
                            requested_minutes: w.minutes,
                            available_minutes: log_span.whole_minutes(),
                        },
                    );
                }
            },
            None => {},
        }
        match averaged {
            Some(a) => Ok(
                Outcome::Reported(
                    Report {
                        workers: self.counts.into_entries(),
                        span_secs: a.secs,
                        span_minutes: a.whole_minutes(),
                    },
                ),
            ),
            None => Err(TimeError::OutOfRange),
        }
    }

    /// Ends the run: measures the span of the log and the span to average
    /// over, and concludes.
    pub fn finish(self) -> (r: Result<Outcome, TimeError>)
        requires
            self.wf(),
        ensures
            agrees(r, outcome_of(self@, self.window())),
    {
        let last = self.tracker.last_seen;
        let log = elapsed(last, self.tracker.first_seen);
        let averaged = match self.tracker.cutoff {
            Some(c) => elapsed(last, c),
            None => log,
        };
        self.conclude(log, averaged)
    }
}

/// Runs the whole pipeline over the lines of a log, in order, started at
/// the time `now`.
pub fn run(lines: &Vec<String>, window: Option<Window>, now: Timestamp) -> (r: Result<
    Outcome,
    TimeError,
>)
    ensures
        agrees(
            r,
            outcome_of(fed_all(initial_state(window, now), line_views(lines@)), window),
        ),
{
    let mut p = Pipeline::start(window, now);
    let ghost all = line_views(lines@);
    let ghost start = initial_state(window, now);
    let mut k: usize = 0;
    assert(all.take(0) =~= Seq::<Seq<char>>::empty());
    while k < lines.len()
        invariant
            k <= lines.len(),
            all == line_views(lines@),
            p.wf(),
            p.window() == window,
            p.shares() <= k,
            p@ == fed_all(start, all.take(k as int)),
        decreases lines.len() - k,
    {
        p.feed(lines[k].as_str());
        proof {
            let upto = all.take(k + 1);
            assert(upto.drop_last() =~= all.take(k as int));
            assert(upto.last() == lines@[k as int]@);
        }
        k += 1;
    }
    assert(all.take(k as int) =~= all);
    p.finish()
}

/// Two results that agree with one conclusion say the same. So two runs
/// over the same lines, with the same window and starting time, end alike:
/// the same counts and the same spans.
pub proof fn lemma_one_conclusion(
    a: Result<Outcome, TimeError>,
    b: Result<Outcome, TimeError>,
    c: Conclusion,
)
    requires
        agrees(a, c),
        agrees(b, c),
    ensures
        same_result(a, b),
{
}

/// Feeding lines one after another is feeding them all: the state after
/// `front` and then `back` is the state after both in order.
pub proof fn lemma_fed_in_parts(state: RunState, front: Seq<Seq<char>>, back: Seq<Seq<char>>)
    ensures
        fed_all(fed_all(state, front), back) == fed_all(state, front + back),
    decreases back.len(),
{
    if back.len() == 0 {
        assert(front + back =~= front);
    } else {
        lemma_fed_in_parts(state, front, back.drop_last());
        assert((front + back).drop_last() =~= front + back.drop_last());
        assert((front + back).last() == back.last());
    }
}

/// Whatever is fed, the span notes every timestamp and nothing else: the
/// first never comes after the last once it did not, the cutoff stays, and
/// a line without a timestamp changes nothing.
pub proof fn lemma_fed_span(state: RunState, line: Seq<char>)
    ensures
        fed(state, line).tracker.cutoff == state.tracker.cutoff,
        entry_of(line) is None ==> fed(state, line) == state,
        entry_of(line) matches Some((stamp, message)) ==> fed(state, line).tracker
            == state.tracker.seen(stamp_from(stamp)),
        entry_of(line) is Some ==> fed(state, line).tracker.last_seen.not_before(
            fed(state, line).tracker.first_seen,
        ),
{
}

} // verus!
