//! Points in time and the spans between them, as plain integers, with the
//! calendar work left to `chrono`.

use vstd::prelude::*;

verus! {

/// A calendar date and time of day without a time zone: whole seconds since
/// 1970-01-01 00:00:00, leap seconds not counted, and the nanoseconds since
/// the last whole second. Within a leap second `nanos` runs on past
/// 999,999,999.
#[derive(Clone, Copy, Debug, PartialEq, Eq, Structural)]
pub struct Timestamp {
    pub secs: i64,
    pub nanos: u32,
}

/// A signed length of time: whole seconds and the nanoseconds beyond them,
/// both of the same sign.
#[derive(Clone, Copy, Debug, PartialEq, Eq, Structural)]
pub struct Span {
    pub secs: i64,
    pub nanos: i32,
}

impl Span {
    /// The whole minutes in the span, rounded toward zero.
    pub open spec fn minutes(self) -> int {
        if self.secs >= 0 {
            self.secs / 60
        } else {
            -((-self.secs) / 60)
        }
    }

    /// Whether the span is no longer than `minutes` minutes.
    pub open spec fn within_minutes(self, minutes: int) -> bool {
        self.secs < minutes * 60 || (self.secs == minutes * 60 && self.nanos <= 0)
    }

    /// The whole minutes in the span, rounded toward zero.
    pub fn whole_minutes(&self) -> (m: i64)
        ensures
            m == self.minutes(),
    {
        self.secs / 60
    }

    /// Tests whether the span is no longer than `minutes` minutes.
    pub fn at_most_minutes(&self, minutes: i64) -> (b: bool)
        ensures
            b == self.within_minutes(minutes as int),
    {
        let limit: i128 = (minutes as i128) * 60;
        let secs: i128 = self.secs as i128;
        secs < limit || (secs == limit && self.nanos <= 0)
    }
}

impl Timestamp {
    /// Whether `self` is not earlier than `other`: seconds decide, then
    /// nanoseconds.
    pub open spec fn not_before(self, other: Timestamp) -> bool {
        self.secs > other.secs || (self.secs == other.secs && self.nanos >= other.nanos)
    }

    /// The earlier of two timestamps.
    pub open spec fn earlier(self, other: Timestamp) -> Timestamp {
        if other.not_before(self) {
            self
        } else {
            other
        }
    }

    /// Tests whether `self` is at or after `other`.
    pub fn at_or_after(&self, other: &Timestamp) -> (b: bool)
        ensures
            b == self.not_before(*other),
    {
        self.secs > other.secs || (self.secs == other.secs && self.nanos >= other.nanos)
    }

    /// The earlier of `self` and `other`.
    pub fn min(self, other: Timestamp) -> (t: Timestamp)
        ensures
            t == self.earlier(other),
    {
        if other.at_or_after(&self) {
            self
        } else {
            other
        }
    }
}

/// What `chrono` reads out of `text` under the strftime-like `format`: the
/// seconds and nanoseconds of the date and time, or nothing where the text
/// does not fit the format or names no real date and time.
pub uninterp spec fn stamp_of(text: Seq<char>, format: Seq<char>) -> Option<(int, int)>;

/// The time from the second point back to the first as `chrono` measures it,
/// each point given by its seconds and nanoseconds: whole seconds and
/// nanoseconds of the difference, or nothing where one of the points lies
/// outside the calendar that `chrono` covers.
pub uninterp spec fn elapsed_between(
    later_secs: int,
    later_nanos: int,
    earlier_secs: int,
    earlier_nanos: int,
) -> Option<(int, int)>;

/// The point that lies `minutes` minutes before the given one in `chrono`'s
/// reckoning, or nothing where the given point, the length or the result is
/// out of its range.
pub uninterp spec fn rewound(secs: int, nanos: int, minutes: int) -> Option<(int, int)>;

/// The seconds and nanoseconds of an optional timestamp.
pub open spec fn stamp_parts(t: Option<Timestamp>) -> Option<(int, int)> {
    match t {
        Some(t) => Some((t.secs as int, t.nanos as int)),
        None => None,
    }
}

/// The seconds and nanoseconds of an optional span.
pub open spec fn span_parts(s: Option<Span>) -> Option<(int, int)> {
    match s {
        Some(s) => Some((s.secs as int, s.nanos as int)),
        None => None,
    }
}

/// Calls `chrono::NaiveDateTime::parse_from_str` on `text` and `format`. A
/// parse error becomes `None`; a parsed value is handed back as its
/// seconds (`timestamp`) and nanoseconds (`timestamp_subsec_nanos`). The
/// outcome is a function of the two strings alone and goes by the name
/// [`stamp_of`].
#[verifier::external_body]
pub(crate) fn parse_stamp(text: &str, format: &str) -> (r: Option<Timestamp>)
    ensures
        stamp_parts(r) == stamp_of(text@, format@),
{
    match chrono::NaiveDateTime::parse_from_str(text, format) {
        Ok(t) => Some(
            Timestamp { secs: t.and_utc().timestamp(), nanos: t.and_utc().timestamp_subsec_nanos() },
        ),
        Err(_) => None,
    }
}

/// Calls `chrono::NaiveDateTime::signed_duration_since` on the two points,
/// each rebuilt by `chrono::DateTime::from_timestamp`, which refuses a point
/// outside its calendar: then the result is `None`. The difference comes
/// back as `num_seconds` and `subsec_nanos`, and goes by the name
/// [`elapsed_between`].
#[verifier::external_body]
pub(crate) fn elapsed(later: Timestamp, earlier: Timestamp) -> (r: Option<Span>)
    ensures
        span_parts(r) == elapsed_between(
            later.secs as int,
            later.nanos as int,
            earlier.secs as int,
            earlier.nanos as int,
        ),
{
    let a = chrono::DateTime::from_timestamp(later.secs, later.nanos)?.naive_utc();
    let b = chrono::DateTime::from_timestamp(earlier.secs, earlier.nanos)?.naive_utc();
    let d = a.signed_duration_since(b);
    Some(Span { secs: d.num_seconds(), nanos: d.subsec_nanos() })
}

/// Calls `chrono::NaiveDateTime::checked_sub_signed` on the point `from`,
/// rebuilt by `chrono::DateTime::from_timestamp`, and the length that
/// `chrono::TimeDelta::try_minutes` makes of `minutes`. Each of the three
/// may refuse its input: then the result is `None`. The outcome goes by the
/// name [`rewound`].
#[verifier::external_body]
pub(crate) fn rewind(from: Timestamp, minutes: i64) -> (r: Option<Timestamp>)
    ensures
        stamp_parts(r) == rewound(from.secs as int, from.nanos as int, minutes as int),
{
    let start = chrono::DateTime::from_timestamp(from.secs, from.nanos)?.naive_utc();
    let t = start.checked_sub_signed(chrono::TimeDelta::try_minutes(minutes)?)?;
    Some(Timestamp { secs: t.and_utc().timestamp(), nanos: t.and_utc().timestamp_subsec_nanos() })
}

} // verus!
