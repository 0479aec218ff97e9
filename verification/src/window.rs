//! The window tracker: the time span that the log covers, and the cutoff
//! before which entries do not count.

use crate::clock::{rewind, rewound, Timestamp};
use vstd::prelude::*;

verus! {

/// A trailing window: its length, and the moment it begins.
#[derive(Clone, Copy, Debug, PartialEq, Eq, Structural)]
pub struct Window {
    /// The length asked for, in minutes.
    pub minutes: i64,
    /// The start of the window: entries before it do not count.
    pub cutoff: Timestamp,
}

/// Why a window could not be set up.
#[derive(Clone, Copy, Debug, PartialEq, Eq, Structural)]
pub enum WindowError {
    /// The window would begin outside the calendar.
    OutOfRange,
}

/// The window of `minutes` minutes that ends at `now`, where the calendar
/// reaches that far back.
pub open spec fn window_ending(now: Timestamp, minutes: i64) -> Option<Window> {
    match rewound(now.secs as int, now.nanos as int, minutes as int) {
        Some((secs, nanos)) => Some(
            Window { minutes, cutoff: Timestamp { secs: secs as i64, nanos: nanos as u32 } },
        ),
        None => None,
    }
}

/// Makes the window from the start of its span, once that was looked up.
pub fn window_from(minutes: i64, cutoff: Option<Timestamp>) -> (r: Result<Window, WindowError>)
    ensures
        r == match cutoff {
            Some(c) => Ok::<Window, WindowError>(Window { minutes, cutoff: c }),
            None => Err(WindowError::OutOfRange),
        },
{
    match cutoff {
        Some(c) => Ok(Window { minutes, cutoff: c }),
        None => Err(WindowError::OutOfRange),
    }
}

/// Sets up the trailing window of `minutes` minutes that ends at `now`.
pub fn window_before(now: Timestamp, minutes: i64) -> (r: Result<Window, WindowError>)
    ensures
        match r {
            Ok(w) => window_ending(now, minutes) == Some(w),
            Err(e) => window_ending(now, minutes) is None && e == WindowError::OutOfRange,
        },
{
    window_from(minutes, rewind(now, minutes))
}

/// The span of time seen so far, and the cutoff if there is a window.
#[derive(Clone, Copy, Debug, PartialEq, Eq, Structural)]
pub struct WindowTracker {
    /// The earliest timestamp seen, or the starting time if that is earlier.
    pub first_seen: Timestamp,
    /// The timestamp seen last, or the starting time if none was seen.
    pub last_seen: Timestamp,
    /// Where the window begins, if there is one.
    pub cutoff: Option<Timestamp>,
}

/// The earliest of `start` and the timestamps `ts`.
pub open spec fn earliest(start: Timestamp, ts: Seq<Timestamp>) -> Timestamp
    decreases ts.len(),
{
    if ts.len() == 0 {
        start
    } else {
        earliest(start, ts.drop_last()).earlier(ts.last())
    }
}

/// The earliest of the timestamps `ts`, of which there is at least one.
pub open spec fn minimum(ts: Seq<Timestamp>) -> Timestamp
    decreases ts.len(),
{
    if ts.len() <= 1 {
        ts[0]
    } else {
        minimum(ts.drop_last()).earlier(ts.last())
    }
}

impl WindowTracker {
    /// The tracker after `t` was seen: the earlier of the two becomes the
    /// first, and `t` the last, whether or not it is the latest.
    pub open spec fn seen(self, t: Timestamp) -> WindowTracker {
        WindowTracker { first_seen: self.first_seen.earlier(t), last_seen: t, cutoff: self.cutoff }
    }

    /// The tracker after the timestamps `ts` were seen in order.
    pub open spec fn seen_all(self, ts: Seq<Timestamp>) -> WindowTracker
        decreases ts.len(),
    {
        if ts.len() == 0 {
            self
        } else {
            self.seen_all(ts.drop_last()).seen(ts.last())
        }
    }

    /// Whether `t` counts: there is no window, or `t` is not before its
    /// start.
    pub open spec fn in_window(self, t: Timestamp) -> bool {
        match self.cutoff {
            Some(c) => t.not_before(c),
            None => true,
        }
    }

    /// A tracker that has seen nothing yet: both ends of its span are `now`.
    pub fn new(now: Timestamp, cutoff: Option<Timestamp>) -> (t: WindowTracker)
        ensures
            t == (WindowTracker { first_seen: now, last_seen: now, cutoff }),
    {
        WindowTracker { first_seen: now, last_seen: now, cutoff }
    }

    /// Takes note of the timestamp of one more entry.
    pub fn observe(&mut self, t: Timestamp)
        ensures
            *final(self) == old(self).seen(t),
            final(self).last_seen.not_before(final(self).first_seen),
    {
        self.first_seen = self.first_seen.min(t);
        self.last_seen = t;
    }

    /// Tests whether an entry of time `t` counts toward the shares.
    pub fn is_in_window(&self, t: Timestamp) -> (b: bool)
        ensures
            b == self.in_window(t),
    {
        match self.cutoff {
            Some(c) => t.at_or_after(&c),
            None => true,
        }
    }
}

/// The order of timestamps is total and transitive.
pub proof fn lemma_order(a: Timestamp, b: Timestamp, c: Timestamp)
    ensures
        a.not_before(a),
        a.not_before(b) || b.not_before(a),
        a.not_before(b) && b.not_before(a) ==> a == b,
        a.not_before(b) && b.not_before(c) ==> a.not_before(c),
{
}

/// After any timestamps, seen in order from any state: the first is the
/// earliest of the earlier first and all of them, the last is the one seen
/// last and not the latest, the cutoff is as it was, and the first is not
/// after the last if it was not before.
pub proof fn lemma_seen_all(start: WindowTracker, ts: Seq<Timestamp>)
    ensures
        start.seen_all(ts).first_seen == earliest(start.first_seen, ts),
        start.seen_all(ts).last_seen == if ts.len() == 0 {
            start.last_seen
        } else {
            ts.last()
        },
        start.seen_all(ts).cutoff == start.cutoff,
        start.last_seen.not_before(start.first_seen) ==> start.seen_all(ts).last_seen.not_before(
            start.seen_all(ts).first_seen,
        ),
    decreases ts.len(),
{
    if ts.len() > 0 {
        lemma_seen_all(start, ts.drop_last());
    }
}

/// The earliest of a start and some timestamps is before none of them, and
/// is one of them or the start.
pub proof fn lemma_earliest(start: Timestamp, ts: Seq<Timestamp>)
    ensures
        start.not_before(earliest(start, ts)),
        forall|i: int| 0 <= i < ts.len() ==> ts[i].not_before(earliest(start, ts)),
        earliest(start, ts) == start || exists|i: int|
            0 <= i < ts.len() && ts[i] == earliest(start, ts),
    decreases ts.len(),
{
    if ts.len() > 0 {
        let front = ts.drop_last();
        lemma_earliest(start, front);
        let e = earliest(start, front);
        assert forall|i: int| 0 <= i < ts.len() implies ts[i].not_before(earliest(start, ts)) by {
            if i < front.len() {
                assert(front[i] == ts[i]);
            }
        }
        if earliest(start, ts) != start {
            if earliest(start, ts) == ts.last() {
                assert(ts[ts.len() - 1] == earliest(start, ts));
            } else {
                let i = choose|i: int| 0 <= i < front.len() && front[i] == e;
                assert(ts[i] == earliest(start, ts));
            }
        }
    }
}

/// Where the tracker started no earlier than some timestamp it then saw,
/// its first is the earliest of those seen and its last the one seen last.
pub proof fn lemma_first_is_minimum(start: WindowTracker, ts: Seq<Timestamp>)
    requires
        exists|i: int| 0 <= i < ts.len() && start.first_seen.not_before(ts[i]),
    ensures
        start.seen_all(ts).first_seen == minimum(ts),
        start.seen_all(ts).last_seen == ts.last(),
    decreases ts.len(),
{
    lemma_seen_all(start, ts);
    lemma_minimum_is_earliest(start.first_seen, ts);
}

/// A start that is not before every timestamp does not change which is
/// the earliest.
pub proof fn lemma_minimum_is_earliest(start: Timestamp, ts: Seq<Timestamp>)
    requires
        exists|i: int| 0 <= i < ts.len() && start.not_before(ts[i]),
    ensures
        earliest(start, ts) == minimum(ts),
    decreases ts.len(),
{
    let front = ts.drop_last();
    let w = choose|i: int| 0 <= i < ts.len() && start.not_before(ts[i]);
    if ts.len() == 1 {
        assert(front.len() == 0);
        assert(earliest(start, front) == start);
    } else if w < front.len() {
        assert(front[w] == ts[w]);
        lemma_minimum_is_earliest(start, front);
    } else {
        // The start is not before the last; the front may all be later.
        lemma_earliest(start, front);
        lemma_minimum(front);
        let e = earliest(start, front);
        let m = minimum(front);
        if e == start {
            // Every timestamp of the front is at or after the start.
            let k = choose|k: int| 0 <= k < front.len() && front[k] == m;
            assert(front[k].not_before(e));
            lemma_order(m, start, ts.last());
        } else {
            let k = choose|k: int| 0 <= k < front.len() && front[k] == e;
            assert(front[k].not_before(m));
            let j = choose|j: int| 0 <= j < front.len() && front[j] == m;
            assert(front[j].not_before(e));
            lemma_order(e, m, e);
        }
    }
}

/// The minimum of some timestamps is one of them and before none.
pub proof fn lemma_minimum(ts: Seq<Timestamp>)
    requires
        ts.len() > 0,
    ensures
        forall|i: int| 0 <= i < ts.len() ==> ts[i].not_before(minimum(ts)),
        exists|i: int| 0 <= i < ts.len() && ts[i] == minimum(ts),
    decreases ts.len(),
{
    if ts.len() == 1 {
        assert(ts[0] == minimum(ts));
    } else {
        let front = ts.drop_last();
        lemma_minimum(front);
        assert forall|i: int| 0 <= i < ts.len() implies ts[i].not_before(minimum(ts)) by {
            if i < front.len() {
                assert(front[i] == ts[i]);
            }
        }
        if minimum(ts) == ts.last() {
            assert(ts[ts.len() - 1] == minimum(ts));
        } else {
            let i = choose|i: int| 0 <= i < front.len() && front[i] == minimum(front);
            assert(ts[i] == minimum(ts));
        }
    }
}

} // verus!
