//! Spans of time in everyday words, such as "2 weeks ago".

use crate::text::{
    all_ascii, ascii_lower, ascii_lowered, ascii_upper, ascii_uppered, before_suffix, ends_with,
    i64_text, is_white_space, lemma_trimmed_around, lemma_trimmed_mapped, lowercase, parse_i64,
    same_text, strip_suffix, trimmed,
};
use crate::timestamp::{days, weeks, MAX_DURATION_SECONDS, SECONDS_PER_DAY};
use vstd::prelude::*;

verus! {

/// The units in which a span is counted.
#[derive(Clone, Copy, Debug, PartialEq, Eq, Structural)]
pub enum DurationUnit {
    Day,
    Week,
    /// Thirty days.
    Month,
}

/// The count in front of `suffix`, with white space around it allowed.
pub open spec fn counted(text: Seq<char>, suffix: Seq<char>) -> Option<i64> {
    if ends_with(text, suffix) {
        i64_text(trimmed(before_suffix(text, suffix)))
    } else {
        None
    }
}

/// The span of time that a normalised text names: a count and its unit.
pub open spec fn relative_span(text: Seq<char>) -> Option<(i64, DurationUnit)> {
    if counted(text, " days ago"@) is Some {
        Some((counted(text, " days ago"@)->0, DurationUnit::Day))
    } else if counted(text, " day ago"@) is Some {
        Some((counted(text, " day ago"@)->0, DurationUnit::Day))
    } else if counted(text, " weeks ago"@) is Some {
        Some((counted(text, " weeks ago"@)->0, DurationUnit::Week))
    } else if counted(text, " week ago"@) is Some {
        Some((counted(text, " week ago"@)->0, DurationUnit::Week))
    } else if counted(text, " months ago"@) is Some {
        Some((counted(text, " months ago"@)->0, DurationUnit::Month))
    } else if counted(text, " month ago"@) is Some {
        Some((counted(text, " month ago"@)->0, DurationUnit::Month))
    } else if text == "yesterday"@ {
        Some((1, DurationUnit::Day))
    } else if text == "today"@ || text == "now"@ {
        Some((0, DurationUnit::Day))
    } else if text == "last week"@ {
        Some((1, DurationUnit::Week))
    } else if text == "last month"@ {
        Some((1, DurationUnit::Month))
    } else {
        None
    }
}

/// The form in which a text is compared: without white space around it, in lower case.
pub open spec fn normalized(input: Seq<char>) -> Seq<char> {
    lowercase(trimmed(input))
}

/// The length in seconds of a span.
pub open spec fn span_seconds(span: (i64, DurationUnit)) -> int {
    match span.1 {
        DurationUnit::Day => span.0 * SECONDS_PER_DAY,
        DurationUnit::Week => span.0 * 7 * SECONDS_PER_DAY,
        DurationUnit::Month => span.0 * 30 * SECONDS_PER_DAY,
    }
}

/// The length in seconds of the span that `input` names, where it names one.
pub open spec fn natural_seconds(input: Seq<char>) -> Option<int> {
    match relative_span(normalized(input)) {
        Some(span) => Some(span_seconds(span)),
        None => None,
    }
}

/// Whether a number of seconds is the length of a `chrono` duration.
pub open spec fn is_duration(seconds: int) -> bool {
    -MAX_DURATION_SECONDS <= seconds <= MAX_DURATION_SECONDS
}

/// The count in front of `suffix`.
fn count_before(text: &str, suffix: &str) -> (r: Option<i64>)
    ensures
        r == counted(text@, suffix@),
{
    match strip_suffix(text, suffix) {
        Some(s) => parse_i64(s.trim()),
        None => None,
    }
}

/// The span that a normalised text names.
pub fn read_span(text: &str) -> (r: Option<(i64, DurationUnit)>)
    ensures
        r == relative_span(text@),
{
    if let Some(n) = count_before(text, " days ago") {
        return Some((n, DurationUnit::Day));
    }
    if let Some(n) = count_before(text, " day ago") {
        return Some((n, DurationUnit::Day));
    }
    if let Some(n) = count_before(text, " weeks ago") {
        return Some((n, DurationUnit::Week));
    }
    if let Some(n) = count_before(text, " week ago") {
        return Some((n, DurationUnit::Week));
    }
    if let Some(n) = count_before(text, " months ago") {
        return Some((n, DurationUnit::Month));
    }
    if let Some(n) = count_before(text, " month ago") {
        return Some((n, DurationUnit::Month));
    }
    if same_text(text, "yesterday") {
        Some((1, DurationUnit::Day))
    } else if same_text(text, "today") || same_text(text, "now") {
        Some((0, DurationUnit::Day))
    } else if same_text(text, "last week") {
        Some((1, DurationUnit::Week))
    } else if same_text(text, "last month") {
        Some((1, DurationUnit::Month))
    } else {
        None
    }
}

/// The length in seconds of the span of time that `input` names: a count with "days ago",
/// "weeks ago" or "months ago" (or their singular), or one of "yesterday", "today", "now",
/// "last week" and "last month". The case of letters and surrounding white space do not matter.
pub fn parse_natural_duration(input: &str) -> (r: Option<i64>)
    requires
        natural_seconds(input@) is Some ==> is_duration(natural_seconds(input@)->0),
    ensures
        r is Some <==> natural_seconds(input@) is Some,
        r is Some ==> r->0 == natural_seconds(input@)->0,
        natural_seconds(ascii_lowered(input@)) == natural_seconds(input@),
        natural_seconds(ascii_uppered(input@)) == natural_seconds(input@),
        all_ascii(trimmed(input@)) ==> normalized(input@) == ascii_lowered(trimmed(input@)),
{
    let text = input.trim().to_lowercase();
    proof {
        lemma_trimmed_mapped(input@, |c: char| ascii_lower(c));
        lemma_trimmed_mapped(input@, |c: char| ascii_upper(c));
    }
    match read_span(text.as_str()) {
        Some((n, DurationUnit::Day)) => Some(days(n)),
        Some((n, DurationUnit::Week)) => Some(weeks(n)),
        Some((n, DurationUnit::Month)) => Some(days(n * 30)),
        None => None,
    }
}

/// What a text says when it is read as a span of time.
#[derive(Clone, Copy, Debug, PartialEq, Eq, Structural)]
pub enum DurationReading {
    /// The text names no span of time.
    NoDuration,
    /// The text names a span of this many seconds.
    Seconds(i64),
    /// The text names a span too long for a duration.
    TooLong,
}

/// The reading of a text as a span of time.
pub open spec fn duration_reading(input: Seq<char>) -> DurationReading {
    match natural_seconds(input) {
        Some(s) => if is_duration(s) {
            DurationReading::Seconds(s as i64)
        } else {
            DurationReading::TooLong
        },
        None => DurationReading::NoDuration,
    }
}

/// Reads a text as a span of time, and tells a span that is too long from a text that names
/// none.
pub fn read_duration(input: &str) -> (r: DurationReading)
    ensures
        r == duration_reading(input@),
        natural_seconds(ascii_lowered(input@)) == natural_seconds(input@),
        natural_seconds(ascii_uppered(input@)) == natural_seconds(input@),
        all_ascii(trimmed(input@)) ==> normalized(input@) == ascii_lowered(trimmed(input@)),
{
    let text = input.trim().to_lowercase();
    proof {
        lemma_trimmed_mapped(input@, |c: char| ascii_lower(c));
        lemma_trimmed_mapped(input@, |c: char| ascii_upper(c));
    }
    let fits = match read_span(text.as_str()) {
        Some((n, DurationUnit::Day)) => -106_751_991_167 <= n && n <= 106_751_991_167,
        Some((n, DurationUnit::Week)) => -15_250_284_452 <= n && n <= 15_250_284_452,
        Some((n, DurationUnit::Month)) => -3_558_399_705 <= n && n <= 3_558_399_705,
        None => true,
    };
    if !fits {
        return DurationReading::TooLong;
    }
    match parse_natural_duration(input) {
        Some(seconds) => DurationReading::Seconds(seconds),
        None => DurationReading::NoDuration,
    }
}

/// A count with a unit names a span of that many units, in the singular as in the plural. A
/// week is seven days and a month is thirty.
pub proof fn law_counted_spans(count: Seq<char>)
    requires
        i64_text(trimmed(count)) is Some,
    ensures
        ({
            let n = i64_text(trimmed(count))->0;
            &&& relative_span(count + " days ago"@) == Some((n, DurationUnit::Day))
            &&& relative_span(count + " day ago"@) == Some((n, DurationUnit::Day))
            &&& relative_span(count + " weeks ago"@) == Some((n, DurationUnit::Week))
            &&& relative_span(count + " week ago"@) == Some((n, DurationUnit::Week))
            &&& relative_span(count + " months ago"@) == Some((n, DurationUnit::Month))
            &&& relative_span(count + " month ago"@) == Some((n, DurationUnit::Month))
            &&& span_seconds((n, DurationUnit::Week)) == 7 * span_seconds((n, DurationUnit::Day))
            &&& span_seconds((n, DurationUnit::Month)) == 30 * span_seconds((n, DurationUnit::Day))
        }),
{
    reveal_strlit(" days ago");
    reveal_strlit(" day ago");
    reveal_strlit(" weeks ago");
    reveal_strlit(" week ago");
    reveal_strlit(" months ago");
    reveal_strlit(" month ago");
    lemma_counted(count, " days ago"@);
    lemma_counted(count, " day ago"@);
    lemma_counted(count, " weeks ago"@);
    lemma_counted(count, " week ago"@);
    lemma_counted(count, " months ago"@);
    lemma_counted(count, " month ago"@);
    lemma_other_ending(count + " day ago"@, " days ago"@);
    lemma_other_ending(count + " weeks ago"@, " days ago"@);
    lemma_other_ending(count + " weeks ago"@, " day ago"@);
    lemma_other_ending(count + " week ago"@, " days ago"@);
    lemma_other_ending(count + " week ago"@, " day ago"@);
    lemma_other_ending(count + " week ago"@, " weeks ago"@);
    lemma_other_ending(count + " months ago"@, " days ago"@);
    lemma_other_ending(count + " months ago"@, " day ago"@);
    lemma_other_ending(count + " months ago"@, " weeks ago"@);
    lemma_other_ending(count + " months ago"@, " week ago"@);
    lemma_other_ending(count + " month ago"@, " days ago"@);
    lemma_other_ending(count + " month ago"@, " day ago"@);
    lemma_other_ending(count + " month ago"@, " weeks ago"@);
    lemma_other_ending(count + " month ago"@, " week ago"@);
    lemma_other_ending(count + " month ago"@, " months ago"@);
}

proof fn lemma_counted(count: Seq<char>, suffix: Seq<char>)
    ensures
        counted(count + suffix, suffix) == i64_text(trimmed(count)),
{
    let text = count + suffix;
    assert(text.subrange(text.len() - suffix.len(), text.len() as int) == suffix);
    assert(before_suffix(text, suffix) == count);
}

/// Texts that differ in the fifth or sixth character from the end end differently.
proof fn lemma_other_ending(text: Seq<char>, suffix: Seq<char>)
    requires
        text.len() >= 6,
        suffix.len() >= 6,
        text[text.len() - 6] != suffix[suffix.len() - 6] || text[text.len() - 5]
            != suffix[suffix.len() - 5],
    ensures
        !ends_with(text, suffix),
{
    if ends_with(text, suffix) {
        let tail = text.subrange(text.len() - suffix.len(), text.len() as int);
        assert(tail[suffix.len() - 6] == text[text.len() - 6]);
        assert(tail[suffix.len() - 5] == text[text.len() - 5]);
    }
}

/// White space around a text does not change the span of time that it names.
pub proof fn law_white_space_does_not_matter(before: Seq<char>, input: Seq<char>, after: Seq<char>)
    requires
        forall|i: int| 0 <= i < before.len() ==> is_white_space(#[trigger] before[i]),
        forall|i: int| 0 <= i < after.len() ==> is_white_space(#[trigger] after[i]),
    ensures
        natural_seconds(before + input + after) == natural_seconds(input),
{
    lemma_trimmed_around(before, input, after);
}

} // verus!
