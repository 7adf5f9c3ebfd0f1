//! Instants in UTC, and what the library asks of `chrono` about them.

use vstd::prelude::*;

verus! {

/// The first second `chrono` can represent: the start of the year -262143.
pub const MIN_SECONDS: i64 = -8_334_601_228_800;

/// The last second `chrono` can represent: the end of the year 262142.
pub const MAX_SECONDS: i64 = 8_210_266_876_799;

/// Seconds in a day.
pub const SECONDS_PER_DAY: i64 = 86_400;

/// The number of 1970-01-01 when January 1 of the year 1 is day 1.
pub const UNIX_EPOCH_DAY: i32 = 719_163;

/// The number of the first representable day.
pub const MIN_DAY: i32 = -95_746_129;

/// The number of the last representable day.
pub const MAX_DAY: i32 = 95_745_399;

/// The largest whole number of seconds in a `chrono` duration, either way.
pub const MAX_DURATION_SECONDS: i64 = 9_223_372_036_854_775;

/// An instant in UTC: seconds since the Unix epoch, and nanoseconds within the second.
///
/// A nanosecond count of a thousand million or more marks a leap second, which only the last
/// second of a minute can be.
#[derive(Clone, Copy, Debug, PartialEq, Eq, Structural)]
pub struct Timestamp {
    pub secs: i64,
    pub nanos: u32,
}

impl Timestamp {
    /// Whether `chrono` can represent the instant.
    pub open spec fn wf(self) -> bool {
        &&& MIN_SECONDS <= self.secs <= MAX_SECONDS
        &&& self.nanos < 2_000_000_000
        &&& self.nanos >= 1_000_000_000 ==> self.secs as int % 60 == 59
    }

    /// Whether `self` is a later instant than `other`.
    pub open spec fn later_than(self, other: Timestamp) -> bool {
        self.secs > other.secs || (self.secs == other.secs && self.nanos > other.nanos)
    }

    /// Whether `self` is a later instant than `other`.
    pub fn is_after(&self, other: &Timestamp) -> (r: bool)
        ensures
            r == self.later_than(*other),
    {
        self.secs > other.secs || (self.secs == other.secs && self.nanos > other.nanos)
    }
}

/// The instant that `DateTime::parse_from_rfc3339` reads in a
/// text; `None` where the text is no RFC 3339 date and time.
pub uninterp spec fn rfc3339_instant(s: Seq<char>) -> Option<Timestamp>;

/// `DateTime::parse_from_rfc3339`, taken to UTC by `with_timezone`: a function of the text
/// alone. What it reads is representable.
#[verifier::external_body]
pub(crate) fn parse_rfc3339(s: &str) -> (r: Option<Timestamp>)
    ensures
        r == rfc3339_instant(s@),
        r is Some ==> r->0.wf(),
{
    let parsed = chrono::DateTime::parse_from_rfc3339(s).ok()?;
    let utc = parsed.with_timezone(&chrono::Utc);
    Some(Timestamp { secs: utc.timestamp(), nanos: utc.timestamp_subsec_nanos() })
}

/// The number of the day that `NaiveDate::parse_from_str` reads in a text under a format,
/// with January 1 of the year 1 as day 1; `None` where the text does not follow the format.
pub uninterp spec fn date_day(s: Seq<char>, format: Seq<char>) -> Option<i32>;

/// `NaiveDate::parse_from_str`, with the date given as its day number: a function of the text
/// and the format. The day is one that `chrono` can represent.
#[verifier::external_body]
pub(crate) fn parse_date(s: &str, format: &str) -> (r: Option<i32>)
    ensures
        r == date_day(s@, format@),
        r is Some ==> MIN_DAY <= r->0 <= MAX_DAY,
{
    let date = chrono::NaiveDate::parse_from_str(s, format).ok()?;
    Some(chrono::Datelike::num_days_from_ce(&date))
}

/// The first instant of a day.
pub open spec fn midnight_of(day: int) -> Timestamp {
    Timestamp { secs: ((day - UNIX_EPOCH_DAY) * SECONDS_PER_DAY) as i64, nanos: 0 }
}

/// `NaiveDate::and_hms_opt` at 00:00:00, taken as UTC by `from_utc_datetime`: the first instant
/// of the day. Every representable day has one.
#[verifier::external_body]
pub(crate) fn midnight(day: i32) -> (r: Option<Timestamp>)
    requires
        MIN_DAY <= day <= MAX_DAY,
    ensures
        r == Some(midnight_of(day as int)),
{
    let start = chrono::NaiveDate::from_num_days_from_ce_opt(day)?.and_hms_opt(0, 0, 0)?;
    let utc = chrono::TimeZone::from_utc_datetime(&chrono::Utc, &start);
    Some(Timestamp { secs: utc.timestamp(), nanos: utc.timestamp_subsec_nanos() })
}

/// The instant `secs` seconds after the Unix epoch, where it is representable.
pub open spec fn from_seconds(secs: i64) -> Option<Timestamp> {
    if MIN_SECONDS <= secs <= MAX_SECONDS {
        Some(Timestamp { secs, nanos: 0 })
    } else {
        None
    }
}

/// `Utc.timestamp_opt(secs, 0).single()`: the instant at that second; `None` exactly outside
/// the representable range.
#[verifier::external_body]
pub(crate) fn timestamp_opt(secs: i64) -> (r: Option<Timestamp>)
    ensures
        r == from_seconds(secs),
{
    let utc = chrono::TimeZone::timestamp_opt(&chrono::Utc, secs, 0).single()?;
    Some(Timestamp { secs: utc.timestamp(), nanos: utc.timestamp_subsec_nanos() })
}

/// `Utc::now`: the present instant by the system's clock, at or after the Unix epoch and
/// outside any leap second. Nothing else is known of it. There is no such instant, and `Utc::now`
/// panics, where the system's clock stands before the Unix epoch.
#[verifier::external_body]
pub(crate) fn utc_now() -> (r: Timestamp)
    ensures
        r.wf(),
        r.secs >= 0,
        r.nanos < 1_000_000_000,
{
    let now = chrono::Utc::now();
    Timestamp { secs: now.timestamp(), nanos: now.timestamp_subsec_nanos() }
}

/// Whether the system's clock can be read to show this instant: whether `Utc::now` can give it.
pub closed spec fn shown_by_clock(now: Timestamp) -> bool {
    call_ensures(utc_now, (), now)
}

/// What a reader of the clock reads.
fn reading_of<F: FnOnce() -> Timestamp>(clock: F) -> (r: Timestamp)
    requires
        call_requires(clock, ()),
    ensures
        call_ensures(clock, (), r),
{
    clock()
}

/// The present instant, as the system's clock shows it.
pub(crate) fn read_clock() -> (r: Timestamp)
    ensures
        shown_by_clock(r),
        r.wf(),
        r.secs >= 0,
        r.nanos < 1_000_000_000,
{
    reading_of(utc_now)
}

/// What the clock shows is representable, not before the Unix epoch and in no leap second.
pub proof fn law_clock_readings(now: Timestamp)
    requires
        shown_by_clock(now),
    ensures
        now.wf(),
        now.secs >= 0,
        now.nanos < 1_000_000_000,
{
}

/// Whether the instant `seconds` before `at` is representable.
pub open spec fn can_go_back(at: Timestamp, seconds: int) -> bool {
    MIN_SECONDS <= at.secs - seconds <= MAX_SECONDS
}

/// The instant `seconds` before `at`.
pub open spec fn seconds_before(at: Timestamp, seconds: int) -> Timestamp {
    Timestamp { secs: (at.secs - seconds) as i64, nanos: at.nanos }
}

/// `DateTime - TimeDelta` for a whole number of seconds and an instant outside any leap
/// second: the second moves back, the nanoseconds stay.
#[verifier::external_body]
pub(crate) fn go_back(at: Timestamp, seconds: i64) -> (r: Timestamp)
    requires
        at.wf(),
        at.nanos < 1_000_000_000,
        -MAX_DURATION_SECONDS <= seconds <= MAX_DURATION_SECONDS,
        can_go_back(at, seconds as int),
    ensures
        r == seconds_before(at, seconds as int),
{
    let from = chrono::DateTime::from_timestamp(at.secs, at.nanos).unwrap();
    let target = from - chrono::TimeDelta::seconds(seconds);
    Timestamp { secs: target.timestamp(), nanos: target.timestamp_subsec_nanos() }
}

/// The text of `ToString` for the `DateTime<Utc>` at an instant.
pub uninterp spec fn instant_text(at: Timestamp) -> Seq<char>;

/// `ToString` for `DateTime<Utc>`: a function of the instant alone.
#[verifier::external_body]
pub(crate) fn display(at: &Timestamp) -> (r: String)
    requires
        at.wf(),
    ensures
        r@ == instant_text(*at),
{
    chrono::DateTime::from_timestamp(at.secs, at.nanos).unwrap().to_string()
}

/// `TimeDelta::days`, in seconds.
#[verifier::external_body]
pub(crate) fn days(n: i64) -> (r: i64)
    requires
        -MAX_DURATION_SECONDS <= n * SECONDS_PER_DAY <= MAX_DURATION_SECONDS,
    ensures
        r == n * SECONDS_PER_DAY,
{
    chrono::TimeDelta::days(n).num_seconds()
}

/// `TimeDelta::weeks`, in seconds.
#[verifier::external_body]
pub(crate) fn weeks(n: i64) -> (r: i64)
    requires
        -MAX_DURATION_SECONDS <= n * 7 * SECONDS_PER_DAY <= MAX_DURATION_SECONDS,
    ensures
        r == n * 7 * SECONDS_PER_DAY,
{
    chrono::TimeDelta::weeks(n).num_seconds()
}

/// Of two instants one is later, or they are the same; and what is later than a later instant
/// is later.
pub proof fn law_instants_are_ordered(a: Timestamp, b: Timestamp, c: Timestamp)
    ensures
        a.later_than(b) || b.later_than(a) || a == b,
        !(a.later_than(b) && b.later_than(a)),
        a.later_than(b) && b.later_than(c) ==> a.later_than(c),
        !a.later_than(a),
{
}

} // verus!
