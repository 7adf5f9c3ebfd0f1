//! Ranges of time, and the texts that name their ends: dates, spans of time and revisions.

use crate::commit::{commit_seconds, committed_at, read_timestamp};
use crate::duration::{
    duration_reading, is_duration, natural_seconds, read_duration, DurationReading,
};
use crate::error::{outcome, ErrorView, GmapError};
use crate::text::{join2, join3};
use crate::timestamp::{
    can_go_back, date_day, display, go_back, instant_text, midnight, midnight_of, parse_date,
    parse_rfc3339, read_clock, rfc3339_instant, seconds_before, shown_by_clock, Timestamp,
    MAX_SECONDS, MIN_SECONDS,
};
use vstd::prelude::*;

verus! {

/// A range of time. An end that is absent leaves the range open on that side; an end that is
/// there belongs to the range.
#[derive(Clone, Copy, Debug, PartialEq, Eq, Structural)]
pub struct DateRange {
    pub since: Option<Timestamp>,
    pub until: Option<Timestamp>,
}

impl DateRange {
    /// Whether the range has `at` in it.
    pub open spec fn has(self, at: Timestamp) -> bool {
        &&& self.since is Some ==> !self.since->0.later_than(at)
        &&& self.until is Some ==> !at.later_than(self.until->0)
    }

    /// The range of all time.
    pub fn new() -> (r: DateRange)
        ensures
            r == (DateRange { since: None, until: None }),
    {
        DateRange { since: None, until: None }
    }

    /// The range that starts at `since`.
    pub fn with_since(self, since: Timestamp) -> (r: DateRange)
        ensures
            r == (DateRange { since: Some(since), until: self.until }),
    {
        DateRange { since: Some(since), until: self.until }
    }

    /// The range that ends at `until`.
    pub fn with_until(self, until: Timestamp) -> (r: DateRange)
        ensures
            r == (DateRange { since: self.since, until: Some(until) }),
    {
        DateRange { since: self.since, until: Some(until) }
    }

    /// Whether `at` lies in the range.
    pub fn contains(&self, at: &Timestamp) -> (r: bool)
        ensures
            r == self.has(*at),
        r <==> {
            &&& self.since is Some ==> self.since->0.secs < at.secs || (self.since->0.secs
                == at.secs && self.since->0.nanos <= at.nanos)
            &&& self.until is Some ==> at.secs < self.until->0.secs || (at.secs
                == self.until->0.secs && at.nanos <= self.until->0.nanos)
        },
    {
        if let Some(since) = self.since {
            if since.is_after(at) {
                return false;
            }
        }
        if let Some(until) = self.until {
            if at.is_after(&until) {
                return false;
            }
        }
        true
    }
}

/// What a text says when it is read as an end of a range.
#[derive(Clone, Copy, Debug, PartialEq, Eq, Structural)]
pub enum DateReading {
    /// The text names this instant.
    At(Timestamp),
    /// The text names the instant this many seconds before now.
    Ago(i64),
    /// The text names a span of time too long for a duration.
    TooLong,
    /// The text is no date: it may name a revision.
    Revision,
}

/// The reading of a text as an end of a range: as an RFC 3339 instant, else as a day, else as
/// a span of time before now.
pub open spec fn date_reading(input: Seq<char>) -> DateReading {
    if rfc3339_instant(input) is Some {
        DateReading::At(rfc3339_instant(input)->0)
    } else if date_day(input, "%Y-%m-%d"@) is Some {
        DateReading::At(midnight_of(date_day(input, "%Y-%m-%d"@)->0 as int))
    } else {
        match duration_reading(input) {
            DurationReading::Seconds(seconds) => DateReading::Ago(seconds),
            DurationReading::TooLong => DateReading::TooLong,
            DurationReading::NoDuration => DateReading::Revision,
        }
    }
}

/// Reads a text as an end of a range.
pub fn read_date(input: &str) -> (r: DateReading)
    ensures
        r == date_reading(input@),
        r is At ==> r->At_0.wf(),
        r is Ago ==> is_duration(r->Ago_0 as int),
{
    if let Some(at) = parse_rfc3339(input) {
        return DateReading::At(at);
    }
    if let Some(day) = parse_date(input, "%Y-%m-%d") {
        if let Some(at) = midnight(day) {
            return DateReading::At(at);
        }
    }
    match read_duration(input) {
        DurationReading::Seconds(seconds) => DateReading::Ago(seconds),
        DurationReading::TooLong => DateReading::TooLong,
        DurationReading::NoDuration => DateReading::Revision,
    }
}

/// What the repository says of a text taken as a revision.
#[derive(Debug)]
pub enum RevisionLookup {
    /// The text names no revision; the repository says why.
    Unknown(String),
    /// The text names an object that could not be read; the repository says why.
    Unreadable(String),
    /// The text names an object that is no commit.
    NotACommit,
    /// The text names a commit with this data.
    Commit(Vec<u8>),
}

/// When the commit that a revision names was made, or why there is no such time.
pub open spec fn revision_time(input: Seq<char>, revision: RevisionLookup) -> Result<
    Timestamp,
    ErrorView,
> {
    match revision {
        RevisionLookup::Unknown(message) => Err(
            ErrorView::Parse("Invalid commit or date '"@ + input + "': "@ + message@),
        ),
        RevisionLookup::Unreadable(message) => Err(ErrorView::Git(message@)),
        RevisionLookup::NotACommit => Err(ErrorView::Parse("Not a commit: "@ + input)),
        RevisionLookup::Commit(data) => committed_at(data@),
    }
}

/// When the commit that a revision names was made.
pub fn read_revision(input: &str, revision: &RevisionLookup) -> (r: Result<Timestamp, GmapError>)
    ensures
        outcome(r) == revision_time(input@, *revision),
        r is Ok ==> revision is Commit && commit_seconds(revision->Commit_0@) == Ok::<
            i64,
            Seq<char>,
        >(r->Ok_0.secs) && r->Ok_0.nanos == 0,
        r is Ok ==> r->Ok_0.wf(),
{
    match revision {
        RevisionLookup::Unknown(message) => {
            let what = join3("Invalid commit or date '", input, "': ");
            Err(GmapError::Parse(join2(what.as_str(), message.as_str())))
        },
        RevisionLookup::Unreadable(message) => Err(GmapError::Git(message.as_str().to_owned())),
        RevisionLookup::NotACommit => Err(GmapError::Parse(join2("Not a commit: ", input))),
        RevisionLookup::Commit(data) => read_timestamp(data.as_slice()),
    }
}

/// An end of a range as it was asked for: a text, and what the repository says of it as a
/// revision, which does not matter where the text is a date.
#[derive(Debug)]
pub struct Bound {
    pub text: String,
    pub revision: RevisionLookup,
}

impl Bound {
    /// Whether the end is representable when the clock shows `now`.
    pub open spec fn representable(self, now: Timestamp) -> bool {
        match date_reading(self.text@) {
            DateReading::TooLong => false,
            DateReading::Ago(seconds) => can_go_back(now, seconds as int),
            DateReading::At(_) | DateReading::Revision => true,
        }
    }

    /// The instant that the text names when the clock shows `now`, or the error of finding it.
    pub open spec fn instant(self, now: Timestamp) -> Result<Timestamp, ErrorView> {
        match date_reading(self.text@) {
            DateReading::At(at) => Ok(at),
            DateReading::Ago(seconds) => Ok(seconds_before(now, seconds as int)),
            DateReading::TooLong | DateReading::Revision => revision_time(
                self.text@,
                self.revision,
            ),
        }
    }
}

/// Whether the clock can show `now`.
pub open spec fn on_clock(now: Timestamp) -> bool {
    now.wf() && now.secs >= 0 && now.nanos < 1_000_000_000
}

/// The instant `seconds` before the one that the clock shows, where it is representable.
pub fn instant_ago(now: Timestamp, seconds: i64) -> (r: Option<Timestamp>)
    requires
        on_clock(now),
        is_duration(seconds as int),
    ensures
        r is Some <==> can_go_back(now, seconds as int),
        r is Some ==> r->0 == seconds_before(now, seconds as int) && r->0.wf(),
{
    if MIN_SECONDS <= now.secs - seconds && now.secs - seconds <= MAX_SECONDS {
        Some(go_back(now, seconds))
    } else {
        None
    }
}

/// The instant that a text names when the clock shows `now`: an RFC 3339 date and time, a day,
/// a span of time before now, or else the time of the commit that it names. `None` where it
/// names an instant that cannot be represented.
pub fn parse_commit_or_date(bound: &Bound, now: Timestamp) -> (r: Option<
    Result<Timestamp, GmapError>,
>)
    requires
        on_clock(now),
    ensures
        r is Some <==> bound.representable(now),
        r is Some ==> outcome(r->0) == bound.instant(now),
        r is Some && r->0 is Ok ==> r->0->Ok_0.wf(),
        date_reading(bound.text@) is Revision && r is Some && r->0 is Ok ==> {
            &&& bound.revision is Commit
            &&& commit_seconds(bound.revision->Commit_0@) == Ok::<i64, Seq<char>>(
                r->0->Ok_0.secs,
            )
            &&& r->0->Ok_0.nanos == 0
        },
{
    match read_date(bound.text.as_str()) {
        DateReading::At(at) => Some(Ok(at)),
        DateReading::Ago(seconds) => match instant_ago(now, seconds) {
            Some(at) => Some(Ok(at)),
            None => None,
        },
        DateReading::TooLong => None,
        DateReading::Revision => Some(read_revision(bound.text.as_str(), &bound.revision)),
    }
}

/// The instant that an end of a range names when the clock shows `now`, where the range has
/// that end.
pub open spec fn end_instant(bound: Option<Bound>, now: Timestamp) -> Result<
    Option<Timestamp>,
    ErrorView,
> {
    match bound {
        Some(b) => match b.instant(now) {
            Ok(at) => Ok(Some(at)),
            Err(e) => Err(e),
        },
        None => Ok(None),
    }
}

/// The range between two instants, which must not be the wrong way round.
pub open spec fn ordered_range(since: Option<Timestamp>, until: Option<Timestamp>) -> Result<
    DateRange,
    ErrorView,
> {
    if since is Some && until is Some && since->0.later_than(until->0) {
        Err(
            ErrorView::InvalidDate(
                "Invalid range: since ("@ + instant_text(since->0) + ") is after until ("@
                    + instant_text(until->0) + ")"@,
            ),
        )
    } else {
        Ok(DateRange { since, until })
    }
}

/// The range between two ends, when the clock shows `since_now` for the first of them and
/// `until_now` for the second. An error in the first end hides one in the second.
pub open spec fn range_between(
    since: Option<Bound>,
    until: Option<Bound>,
    since_now: Timestamp,
    until_now: Timestamp,
) -> Result<DateRange, ErrorView> {
    match end_instant(since, since_now) {
        Err(e) => Err(e),
        Ok(since_at) => match end_instant(until, until_now) {
            Err(e) => Err(e),
            Ok(until_at) => ordered_range(since_at, until_at),
        },
    }
}

/// Whether the ends of a range are representable, as far as they are looked at.
pub open spec fn ends_representable(
    since: Option<Bound>,
    until: Option<Bound>,
    since_now: Timestamp,
    until_now: Timestamp,
) -> bool {
    &&& since is Some ==> since->0.representable(since_now)
    &&& end_instant(since, since_now) is Ok && until is Some ==> until->0.representable(until_now)
}

/// The range between two instants.
pub fn order_range(since: Option<Timestamp>, until: Option<Timestamp>) -> (r: Result<
    DateRange,
    GmapError,
>)
    requires
        since is Some ==> since->0.wf(),
        until is Some ==> until->0.wf(),
    ensures
        outcome(r) == ordered_range(since, until),
{
    let mut range = DateRange::new();
    if let Some(s) = since {
        if let Some(u) = until {
            if s.is_after(&u) {
                let since_text = display(&s);
                let until_text = display(&u);
                let what = join3(
                    "Invalid range: since (",
                    since_text.as_str(),
                    ") is after until (",
                );
                return Err(GmapError::InvalidDate(join3(what.as_str(), until_text.as_str(), ")")));
            }
        }
    }
    if let Some(s) = since {
        range = range.with_since(s);
    }
    if let Some(u) = until {
        range = range.with_until(u);
    }
    Ok(range)
}

/// The instant that an end of a range names when the clock shows `now`, where the range has
/// that end; `None` where it names one that cannot be represented.
fn parse_end(bound: &Option<Bound>, now: Timestamp) -> (r: Option<
    Result<Option<Timestamp>, GmapError>,
>)
    requires
        on_clock(now),
    ensures
        r is Some <==> (bound is Some ==> bound->0.representable(now)),
        r is Some ==> outcome(r->0) == end_instant(*bound, now),
        r is Some && r->0 is Ok && r->0->Ok_0 is Some ==> r->0->Ok_0->0.wf(),
{
    match bound {
        Some(bound) => match parse_commit_or_date(bound, now) {
            Some(Ok(at)) => Some(Ok(Some(at))),
            Some(Err(e)) => Some(Err(e)),
            None => None,
        },
        None => Some(Ok(None)),
    }
}

/// The range between two ends, when the clock shows `since_now` for the first of them and
/// `until_now` for the second; `None` where an end names an instant that cannot be represented.
pub fn resolve_range_at(
    since: &Option<Bound>,
    until: &Option<Bound>,
    since_now: Timestamp,
    until_now: Timestamp,
) -> (r: Option<Result<DateRange, GmapError>>)
    requires
        on_clock(since_now),
        on_clock(until_now),
    ensures
        r is Some <==> ends_representable(*since, *until, since_now, until_now),
        r is Some ==> outcome(r->0) == range_between(*since, *until, since_now, until_now),
{
    let since_at = match parse_end(since, since_now) {
        Some(Ok(at)) => at,
        Some(Err(e)) => return Some(Err(e)),
        None => return None,
    };
    let until_at = match parse_end(until, until_now) {
        Some(Ok(at)) => at,
        Some(Err(e)) => return Some(Err(e)),
        None => return None,
    };
    Some(order_range(since_at, until_at))
}

/// Whether an end of a range names an instant when the clock shows `now`, or is absent: whether
/// the other end matters.
pub fn is_settled(bound: &Option<Bound>, now: Timestamp) -> (r: bool)
    requires
        on_clock(now),
    ensures
        r == (end_instant(*bound, now) is Ok && (bound is Some ==> bound->0.representable(now))),
{
    match parse_end(bound, now) {
        Some(Ok(_)) => true,
        _ => false,
    }
}

/// The present instant by the clock for an end that is counted back from now. For any other end
/// the clock is not read, and the Unix epoch stands for it.
pub(crate) fn clock_for(bound: &Option<Bound>) -> (r: Timestamp)
    ensures
        on_clock(r),
        bound is Some && date_reading(bound->0.text@) is Ago ==> shown_by_clock(r),
        !(bound is Some && date_reading(bound->0.text@) is Ago) ==> r == (Timestamp {
            secs: 0,
            nanos: 0,
        }),
{
    if let Some(bound) = bound {
        if let DateReading::Ago(_) = read_date(bound.text.as_str()) {
            return read_clock();
        }
    }
    Timestamp { secs: 0, nanos: 0 }
}

/// A range that was resolved is the right way round, and has its ends in it.
pub proof fn law_resolved_range_has_its_ends(
    since: Option<Bound>,
    until: Option<Bound>,
    since_now: Timestamp,
    until_now: Timestamp,
)
    requires
        range_between(since, until, since_now, until_now) is Ok,
    ensures
        ({
            let range = range_between(since, until, since_now, until_now)->Ok_0;
            &&& since is Some <==> range.since is Some
            &&& until is Some <==> range.until is Some
            &&& range.since is Some ==> range.has(range.since->0)
            &&& range.until is Some ==> range.has(range.until->0)
        }),
{
}

/// Where no end of a range is counted back from now, the range does not depend on the clock.
pub proof fn law_dates_need_no_clock(
    since: Option<Bound>,
    until: Option<Bound>,
    since_now: Timestamp,
    until_now: Timestamp,
    other_since_now: Timestamp,
    other_until_now: Timestamp,
)
    requires
        since is Some ==> !(date_reading(since->0.text@) is Ago),
        until is Some ==> !(date_reading(until->0.text@) is Ago),
    ensures
        range_between(since, until, since_now, until_now) == range_between(
            since,
            until,
            other_since_now,
            other_until_now,
        ),
        ends_representable(since, until, since_now, until_now) == ends_representable(
            since,
            until,
            other_since_now,
            other_until_now,
        ),
{
}

/// A text that is a date is not taken for a revision: what the repository says of it does not
/// matter.
pub proof fn law_dates_need_no_repository(a: Bound, b: Bound, now: Timestamp)
    requires
        a.text@ == b.text@,
        a.representable(now),
        !(date_reading(a.text@) is Revision),
    ensures
        a.instant(now) == b.instant(now),
        a.instant(now) is Ok,
{
}

/// A text that is no date and names a span of time names the instant that long before now,
/// where there is one, whatever the repository says of it.
pub proof fn law_spans_are_counted_back(bound: Bound, now: Timestamp)
    requires
        rfc3339_instant(bound.text@) is None,
        date_day(bound.text@, "%Y-%m-%d"@) is None,
        natural_seconds(bound.text@) is Some,
        is_duration(natural_seconds(bound.text@)->0),
        can_go_back(now, natural_seconds(bound.text@)->0),
    ensures
        bound.representable(now),
        bound.instant(now) == Ok::<Timestamp, ErrorView>(
            seconds_before(now, natural_seconds(bound.text@)->0),
        ),
{
}

/// An instant in a range is in every range that reaches at least as far both ways.
pub proof fn law_wider_range_has_more(range: DateRange, wider: DateRange, at: Timestamp)
    requires
        range.has(at),
        wider.since is Some ==> range.since is Some && !wider.since->0.later_than(range.since->0),
        wider.until is Some ==> range.until is Some && !range.until->0.later_than(wider.until->0),
    ensures
        wider.has(at),
{
}

} // verus!
