//! Spans of time, instants and ranges.

use chrono::{DateTime, Datelike, NaiveDate, TimeDelta, Utc};
use gmap::duration::{
    parse_natural_duration, read_duration, read_span, DurationReading, DurationUnit,
};
use gmap::range::{
    instant_ago, is_settled, order_range, parse_commit_or_date, read_date, read_revision,
    resolve_range_at, Bound, DateReading, DateRange, RevisionLookup,
};
use gmap::timestamp::{
    Timestamp, MAX_DAY, MAX_DURATION_SECONDS, MAX_SECONDS, MIN_DAY, MIN_SECONDS, UNIX_EPOCH_DAY,
};
use gmap::{GitRepo, GmapError};

const DAY: i64 = 86_400;

fn at(secs: i64) -> Timestamp {
    Timestamp { secs, nanos: 0 }
}

fn now() -> Timestamp {
    Timestamp { secs: 1_700_000_000, nanos: 250 }
}

fn unknown() -> RevisionLookup {
    RevisionLookup::Unknown("nothing by that name".to_string())
}

fn bound(text: &str) -> Option<Bound> {
    Some(Bound { text: text.to_string(), revision: unknown() })
}

fn repo() -> GitRepo<String> {
    GitRepo::open(Some("/work".to_string()), "/work/.git".to_string())
}

#[test]
fn limits_are_those_of_chrono() {
    assert_eq!(DateTime::<Utc>::MIN_UTC.timestamp(), MIN_SECONDS);
    assert_eq!(DateTime::<Utc>::MAX_UTC.timestamp(), MAX_SECONDS);
    assert_eq!(NaiveDate::MIN.num_days_from_ce(), MIN_DAY);
    assert_eq!(NaiveDate::MAX.num_days_from_ce(), MAX_DAY);
    assert_eq!(NaiveDate::from_ymd_opt(1970, 1, 1).unwrap().num_days_from_ce(), UNIX_EPOCH_DAY);
    assert_eq!(TimeDelta::MAX.num_seconds(), MAX_DURATION_SECONDS);
    assert_eq!(TimeDelta::MIN.num_seconds(), -MAX_DURATION_SECONDS);
}

#[test]
fn counted_spans() {
    assert_eq!(parse_natural_duration("2 weeks ago"), Some(14 * DAY));
    assert_eq!(parse_natural_duration("1 week ago"), Some(7 * DAY));
    assert_eq!(parse_natural_duration("3 days ago"), Some(3 * DAY));
    assert_eq!(parse_natural_duration("1 day ago"), Some(DAY));
    assert_eq!(parse_natural_duration("3 months ago"), Some(90 * DAY));
    assert_eq!(parse_natural_duration("1 month ago"), Some(30 * DAY));
    assert_eq!(parse_natural_duration("-5 days ago"), Some(-5 * DAY));
    assert_eq!(parse_natural_duration("+4 days ago"), Some(4 * DAY));
    assert_eq!(parse_natural_duration("007 days ago"), Some(7 * DAY));
}

#[test]
fn words_for_spans() {
    assert_eq!(parse_natural_duration("yesterday"), Some(DAY));
    assert_eq!(parse_natural_duration("today"), Some(0));
    assert_eq!(parse_natural_duration("now"), Some(0));
    assert_eq!(parse_natural_duration("last week"), Some(7 * DAY));
    assert_eq!(parse_natural_duration("last month"), Some(30 * DAY));
}

#[test]
fn case_and_white_space_do_not_matter() {
    assert_eq!(parse_natural_duration("\t Yesterday \n"), Some(DAY));
    assert_eq!(parse_natural_duration("\u{3000}2 WEEKS Ago\u{a0}"), Some(14 * DAY));
    assert_eq!(parse_natural_duration("  12   days ago"), Some(12 * DAY));
    assert_eq!(parse_natural_duration("2 wee\u{212a}s ago"), Some(14 * DAY));
    assert_eq!(parse_natural_duration("2 WEE\u{212a}S AGO"), Some(14 * DAY));
    for text in ["3 days ago", "last Month", "2 wee\u{212a}s ago", "\u{3a3} days ago", "v1"] {
        let seconds = parse_natural_duration(text);
        assert_eq!(parse_natural_duration(&text.to_ascii_uppercase()), seconds);
        assert_eq!(parse_natural_duration(&text.to_ascii_lowercase()), seconds);
        assert_eq!(parse_natural_duration(&format!("\t {} \n", text)), seconds);
    }
}

#[test]
fn what_is_no_span() {
    assert_eq!(parse_natural_duration(""), None);
    assert_eq!(parse_natural_duration("days ago"), None);
    assert_eq!(parse_natural_duration(" days ago"), None);
    assert_eq!(parse_natural_duration("two days ago"), None);
    assert_eq!(parse_natural_duration("1.5 days ago"), None);
    assert_eq!(parse_natural_duration("2 years ago"), None);
    assert_eq!(parse_natural_duration("2  daysago"), None);
    assert_eq!(parse_natural_duration("+ days ago"), None);
    assert_eq!(parse_natural_duration("9223372036854775808 days ago"), None);
    assert_eq!(parse_natural_duration("v1.0"), None);
}

#[test]
fn spans_of_normalised_texts() {
    assert_eq!(read_span("4 weeks ago"), Some((4, DurationUnit::Week)));
    assert_eq!(read_span("4 week ago"), Some((4, DurationUnit::Week)));
    assert_eq!(read_span("last month"), Some((1, DurationUnit::Month)));
    assert_eq!(read_span("Last month"), None);
}

#[test]
fn spans_that_are_too_long() {
    assert_eq!(
        read_duration("106751991167 days ago"),
        DurationReading::Seconds(106_751_991_167 * DAY)
    );
    assert_eq!(read_duration("106751991168 days ago"), DurationReading::TooLong);
    assert_eq!(
        read_duration("-15250284452 weeks ago"),
        DurationReading::Seconds(-15_250_284_452 * 7 * DAY)
    );
    assert_eq!(read_duration("-15250284453 weeks ago"), DurationReading::TooLong);
    assert_eq!(
        read_duration("3558399705 months ago"),
        DurationReading::Seconds(3_558_399_705 * 30 * DAY)
    );
    assert_eq!(read_duration("3558399706 months ago"), DurationReading::TooLong);
    assert_eq!(read_duration("9223372036854775807 months ago"), DurationReading::TooLong);
    assert_eq!(read_duration("main"), DurationReading::NoDuration);
}

#[test]
fn instants_in_rfc3339() {
    assert_eq!(read_date("1970-01-01T00:00:00Z"), DateReading::At(at(0)));
    assert_eq!(read_date("2024-01-15T10:30:00+02:00"), DateReading::At(at(1_705_307_400)));
    assert_eq!(
        read_date("2024-01-15T08:30:00.000000007Z"),
        DateReading::At(Timestamp { secs: 1_705_307_400, nanos: 7 })
    );
    assert_eq!(
        read_date("2016-12-31T23:59:60Z"),
        DateReading::At(Timestamp { secs: 1_483_228_799, nanos: 1_000_000_000 })
    );
}

#[test]
fn days() {
    assert_eq!(read_date("1970-01-01"), DateReading::At(at(0)));
    assert_eq!(read_date("1970-01-02"), DateReading::At(at(DAY)));
    assert_eq!(read_date("2024-02-29"), DateReading::At(at(1_709_164_800)));
    assert_eq!(read_date("2023-02-29"), DateReading::Revision);
    assert_eq!(read_date("-262143-01-01"), DateReading::At(at(MIN_SECONDS)));
    assert_eq!(read_date("+262142-12-31"), DateReading::At(at(MAX_SECONDS - DAY + 1)));
    assert_eq!(read_date("+262143-01-01"), DateReading::Revision);
}

#[test]
fn other_readings() {
    assert_eq!(read_date("2 weeks ago"), DateReading::Ago(14 * DAY));
    assert_eq!(read_date("106751991168 days ago"), DateReading::TooLong);
    assert_eq!(read_date("HEAD~3"), DateReading::Revision);
}

#[test]
fn instants_are_ordered() {
    let early = Timestamp { secs: 5, nanos: 9 };
    let late = Timestamp { secs: 6, nanos: 0 };
    assert!(late.is_after(&early));
    assert!(!early.is_after(&late));
    assert!(!early.is_after(&early));
    assert!(Timestamp { secs: 5, nanos: 10 }.is_after(&early));
}

#[test]
fn ranges_have_their_ends() {
    let all = DateRange::new();
    assert!(all.contains(&at(MIN_SECONDS)) && all.contains(&at(MAX_SECONDS)));
    let range = all.with_since(at(10)).with_until(at(20));
    assert_eq!(range, DateRange { since: Some(at(10)), until: Some(at(20)) });
    assert!(!range.contains(&at(9)));
    assert!(range.contains(&at(10)));
    assert!(range.contains(&at(20)));
    assert!(!range.contains(&Timestamp { secs: 20, nanos: 1 }));
    assert!(all.with_since(at(10)).contains(&at(21)));
    assert!(all.with_until(at(20)).contains(&at(9)));
}

#[test]
fn wider_ranges_have_more() {
    let range = DateRange::new().with_since(at(10)).with_until(at(20));
    let wider = DateRange::new().with_since(at(5)).with_until(at(25));
    for secs in 10..=20 {
        assert!(range.contains(&at(secs)) && wider.contains(&at(secs)));
    }
    assert!(!range.contains(&at(7)) && wider.contains(&at(7)));
}

#[test]
fn ends_are_counted_back_from_the_clock() {
    let since = Bound { text: "1 day ago".to_string(), revision: unknown() };
    assert_eq!(
        parse_commit_or_date(&since, now()),
        Some(Ok(Timestamp { secs: 1_700_000_000 - DAY, nanos: 250 }))
    );
    let future = Bound { text: "-2 days ago".to_string(), revision: unknown() };
    assert_eq!(
        parse_commit_or_date(&future, now()),
        Some(Ok(Timestamp { secs: 1_700_000_000 + 2 * DAY, nanos: 250 }))
    );
    let weeks = Bound { text: "2 weeks ago".to_string(), revision: unknown() };
    assert_eq!(
        parse_commit_or_date(&weeks, now()),
        Some(Ok(Timestamp { secs: 1_700_000_000 - 14 * DAY, nanos: 250 }))
    );
    assert_eq!(instant_ago(now(), 3), Some(Timestamp { secs: 1_699_999_997, nanos: 250 }));
    assert_eq!(instant_ago(now(), MAX_DURATION_SECONDS), None);
    assert_eq!(instant_ago(now(), -MAX_DURATION_SECONDS), None);
}

#[test]
fn the_clock_is_read() {
    let before = Utc::now().timestamp();
    let got = repo().resolve_range(bound("2 weeks ago"), bound("yesterday")).unwrap().unwrap();
    let after = Utc::now().timestamp();
    let (since, until) = (got.since.unwrap(), got.until.unwrap());
    assert!(before - 14 * DAY <= since.secs && since.secs <= after - 14 * DAY);
    assert!(before - DAY <= until.secs && until.secs <= after - DAY);
}

#[test]
fn ends_that_cannot_be_represented() {
    let read = |text: &str| parse_commit_or_date(&bound(text).unwrap(), now());
    assert_eq!(read("100000000000 days ago"), None);
    assert_eq!(read("106751991168 days ago"), None);
    assert_eq!(repo().resolve_range(bound("100000000000 days ago"), None), None);
    assert_eq!(repo().resolve_range(None, bound("-100000000000 days ago")), None);
    // The last representable second, counted from the clock.
    let days = (now().secs - MIN_SECONDS) / DAY;
    assert!(read(&format!("{} days ago", days)).is_some());
    assert!(read(&format!("{} days ago", days + 1)).is_none());
}

#[test]
fn ranges_from_dates() {
    assert_eq!(repo().resolve_range(None, None), Some(Ok(DateRange::new())));
    assert_eq!(
        repo().resolve_range(bound("2024-01-01"), bound("2024-01-15T10:30:00+02:00")),
        Some(Ok(DateRange { since: Some(at(1_704_067_200)), until: Some(at(1_705_307_400)) }))
    );
    assert_eq!(
        repo().resolve_range(bound("2024-01-01"), None),
        Some(Ok(DateRange { since: Some(at(1_704_067_200)), until: None }))
    );
    assert_eq!(
        repo().resolve_range(None, bound("2024-01-01")),
        Some(Ok(DateRange { since: None, until: Some(at(1_704_067_200)) }))
    );
    assert_eq!(
        repo().resolve_range(bound("2024-01-01"), bound("2024-01-01")),
        Some(Ok(DateRange { since: Some(at(1_704_067_200)), until: Some(at(1_704_067_200)) }))
    );
}

#[test]
fn ranges_from_the_clock() {
    let later = Timestamp { secs: 1_700_000_100, nanos: 0 };
    assert_eq!(
        resolve_range_at(&bound("2 weeks ago"), &bound("now"), now(), later),
        Some(Ok(DateRange {
            since: Some(Timestamp { secs: 1_700_000_000 - 14 * DAY, nanos: 250 }),
            until: Some(later),
        }))
    );
}

#[test]
fn ranges_the_wrong_way_round() {
    let text = "Invalid range: since (2024-01-02 00:00:00 UTC) is after until \
                (2024-01-01 00:00:00 UTC)";
    assert_eq!(
        repo().resolve_range(bound("2024-01-02"), bound("2024-01-01")),
        Some(Err(GmapError::InvalidDate(text.to_string())))
    );
    assert_eq!(
        order_range(Some(Timestamp { secs: 0, nanos: 500_000_000 }), Some(at(0))),
        Err(GmapError::InvalidDate(
            "Invalid range: since (1970-01-01 00:00:00.500 UTC) is after until \
             (1970-01-01 00:00:00 UTC)"
                .to_string()
        ))
    );
}

#[test]
fn revisions_that_are_not_found() {
    assert_eq!(
        read_revision("nope", &unknown()),
        Err(GmapError::Parse("Invalid commit or date 'nope': nothing by that name".to_string()))
    );
    assert_eq!(
        read_revision("v1", &RevisionLookup::Unreadable("broken".to_string())),
        Err(GmapError::Git("broken".to_string()))
    );
    assert_eq!(
        read_revision("v1", &RevisionLookup::NotACommit),
        Err(GmapError::Parse("Not a commit: v1".to_string()))
    );
}

#[test]
fn the_first_wrong_end_is_reported() {
    let until = Some(Bound { text: "tree".to_string(), revision: RevisionLookup::NotACommit });
    assert_eq!(
        repo().resolve_range(bound("nope"), until),
        Some(Err(GmapError::Parse(
            "Invalid commit or date 'nope': nothing by that name".to_string()
        )))
    );
    let until = Some(Bound { text: "tree".to_string(), revision: RevisionLookup::NotACommit });
    assert_eq!(
        repo().resolve_range(bound("2024-01-01"), until),
        Some(Err(GmapError::Parse("Not a commit: tree".to_string())))
    );
    assert_eq!(
        repo().resolve_range(bound("nope"), bound("106751991168 days ago")),
        Some(Err(GmapError::Parse(
            "Invalid commit or date 'nope': nothing by that name".to_string()
        )))
    );
}

#[test]
fn dates_need_no_clock_and_no_repository() {
    let other = Timestamp { secs: 5, nanos: 6 };
    let range = |clock| resolve_range_at(&bound("2024-01-01"), &bound("2024-02-01"), clock, clock);
    assert_eq!(range(now()), range(other));
    let date = |revision| Bound { text: "2024-01-01".to_string(), revision };
    assert_eq!(
        parse_commit_or_date(&date(RevisionLookup::NotACommit), now()),
        parse_commit_or_date(&date(unknown()), other)
    );
}

#[test]
fn the_second_end_matters_where_the_first_is_settled() {
    assert!(is_settled(&None, now()));
    assert!(is_settled(&bound("2024-01-01"), now()));
    assert!(is_settled(&bound("yesterday"), now()));
    assert!(!is_settled(&bound("nope"), now()));
    assert!(!is_settled(&bound("100000000000 days ago"), now()));
}
