//! Dates and points in time, as the calendar library reads and writes them.

use crate::data::Timestamp;
use crate::text::decimal;
use vstd::prelude::*;

verus! {

/// The first second of the earliest day that has a date.
pub const EARLIEST_SECOND: i64 = -8_334_601_228_800;

/// The last second of the latest day that has a date.
pub const LATEST_SECOND: i64 = 8_210_266_876_799;

/// Whether a second falls on a day that has a date.
pub open spec fn has_date(secs: int) -> bool {
    EARLIEST_SECOND <= secs <= LATEST_SECOND
}

/// The point in time that `secs` whole seconds since the epoch stand for.
pub open spec fn instant_of(secs: i64) -> Option<Timestamp> {
    if has_date(secs as int) {
        Some(Timestamp { secs, nanos: 0 })
    } else {
        None
    }
}

/// Calls `chrono::DateTime::from_timestamp` without nanoseconds: a point in time for the
/// seconds of the days from the first of January -262143 to the last of December 262142, and
/// none for the others.
#[verifier::external_body]
pub(crate) fn instant_at(secs: i64) -> (r: Option<Timestamp>)
    ensures
        r == instant_of(secs),
{
    let at = chrono::DateTime::from_timestamp(secs, 0)?;
    Some(Timestamp { secs: at.timestamp(), nanos: at.timestamp_subsec_nanos() })
}

/// The midnight, in UTC, that begins the day which `chrono::NaiveDate::parse_from_str` reads
/// from a text by a format.
pub uninterp spec fn parsed_midnight(text: Seq<char>, format: Seq<char>) -> Option<Timestamp>;

/// Calls `chrono::NaiveDate::parse_from_str` and takes the midnight that begins the day. The
/// result is a function of the two texts.
#[verifier::external_body]
pub(crate) fn parse_midnight(text: &str, format: &str) -> (r: Option<Timestamp>)
    ensures
        r == parsed_midnight(text@, format@),
{
    let day = chrono::NaiveDate::parse_from_str(text, format).ok()?;
    let at = day.and_hms_opt(0, 0, 0)?.and_utc();
    Some(Timestamp { secs: at.timestamp(), nanos: at.timestamp_subsec_nanos() })
}

/// The point in time that `chrono::DateTime::parse_from_rfc3339` reads from a text.
pub uninterp spec fn parsed_rfc3339(text: Seq<char>) -> Option<Timestamp>;

/// Calls `chrono::DateTime::parse_from_rfc3339`. The result is a function of the text.
#[verifier::external_body]
pub(crate) fn parse_rfc3339(text: &str) -> (r: Option<Timestamp>)
    ensures
        r == parsed_rfc3339(text@),
{
    let at = chrono::DateTime::parse_from_rfc3339(text).ok()?;
    Some(Timestamp { secs: at.timestamp(), nanos: at.timestamp_subsec_nanos() })
}

/// The date, in UTC, of a second that has one, as `chrono` writes it by a format.
pub uninterp spec fn utc_date(secs: i64, format: Seq<char>) -> Seq<char>;

/// Calls `chrono::DateTime::format` for a second that has a date. A format that `chrono` cannot
/// write by makes it panic, so that only the one for a year, a month and a day is taken. The
/// result is a function of the second and the format.
#[verifier::external_body]
pub(crate) fn date_text(secs: i64, format: &str) -> (r: String)
    requires
        has_date(secs as int),
        format@ == "%Y-%m-%d"@,
    ensures
        r@ == utc_date(secs, format@),
{
    let at = chrono::DateTime::from_timestamp(secs, 0).unwrap_or_default();
    at.format(format).to_string()
}

/// The most seconds, forwards or backwards, that the calendar library takes for a span.
pub const LONGEST_SPAN: i64 = 9_223_372_036_854_775;

/// How many whole units a number of seconds holds, two at least, and the unit's name.
pub open spec fn rough_units(secs: int, unit: int, name: Seq<char>) -> Seq<char> {
    decimal((if secs / unit < 2 { 2 } else { secs / unit }) as nat) + name
}

/// How a number of seconds is roughly worded.
pub open spec fn rough_span(secs: int) -> Seq<char> {
    let hour: int = 3600;
    let day: int = 24 * hour;
    if secs > 547 * day {
        rough_units(secs, 365 * day, " years"@)
    } else if secs > 345 * day {
        "a year"@
    } else if secs > 45 * day {
        rough_units(secs, 30 * day, " months"@)
    } else if secs > 29 * day {
        "a month"@
    } else if secs > 10 * day + 12 * hour {
        rough_units(secs, 7 * day, " weeks"@)
    } else if secs > 6 * day + 12 * hour {
        "a week"@
    } else if secs > 36 * hour {
        rough_units(secs, day, " days"@)
    } else if secs > 22 * hour {
        "a day"@
    } else if secs > 90 * 60 {
        rough_units(secs, hour, " hours"@)
    } else if secs > 45 * 60 {
        "an hour"@
    } else if secs > 90 {
        rough_units(secs, 60, " minutes"@)
    } else if secs > 45 {
        "a minute"@
    } else if secs > 10 {
        decimal(secs as nat) + " seconds"@
    } else {
        "now"@
    }
}

/// How a span of seconds, whichever way it goes, is roughly worded as past.
pub open spec fn rough_age(secs: i64) -> Seq<char> {
    rough_span(if secs < 0 { -secs } else { secs as int }) + " ago"@
}

/// Calls `chrono_humanize::HumanTime::to_text_en` for a span of whole seconds, with rough
/// accuracy and in the past tense: the largest unit that fits, of which there are so many, one
/// or at least two, by the thresholds of [`rough_span`]; then `ago`.
#[verifier::external_body]
pub(crate) fn rough_age_text(secs: i64) -> (r: String)
    requires
        -LONGEST_SPAN <= secs <= LONGEST_SPAN,
    ensures
        r@ == rough_age(secs),
{
    let span = chrono_humanize::HumanTime::from(chrono::TimeDelta::seconds(secs));
    span.to_text_en(chrono_humanize::Accuracy::Rough, chrono_humanize::Tense::Past)
}

} // verus!
