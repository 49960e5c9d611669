//! Points in time as people read them.
use chrono::{DateTime, Utc};
use vstd::prelude::*;
use vstd::string::*;

use crate::number::{decimal, decimal_text};

verus! {

/// A point in time, in seconds since the start of 1970 UTC, written by a pattern; `None` where
/// it lies outside the calendar.
pub uninterp spec fn utc_format(seconds: int, pattern: Seq<char>) -> Option<Seq<char>>;

/// The patterns that are used here.
pub open spec fn known_pattern(pattern: Seq<char>) -> bool {
    ||| pattern == "%Y-%m-%d"@
    ||| pattern == "%Y-%m-%d %H:%M UTC"@
    ||| pattern == "%Y-%m-%d %H:%M:%S UTC"@
}

/// `chrono::DateTime::from_timestamp`, written with `format`. Only patterns that `format`
/// knows are given to it, for it fails on others. What the text is, is left to the name.
#[verifier::external_body]
pub(crate) fn utc_text(seconds: i64, pattern: &str) -> (r: Option<String>)
    requires
        known_pattern(pattern@),
    ensures
        match r {
            Some(text) => utc_format(seconds as int, pattern@) == Some(text@),
            None => utc_format(seconds as int, pattern@) is None,
        },
{
    DateTime::<Utc>::from_timestamp(seconds, 0).map(|time| time.format(pattern).to_string())
}

/// The signed number that has the same 64 bits.
pub open spec fn as_signed(value: u64) -> int {
    if value <= i64::MAX {
        value as int
    } else {
        value - 0x1_0000_0000_0000_0000
    }
}

/// The text for a point in time that may not be known.
pub open spec fn date_or_unknown(date: Option<Seq<char>>) -> Seq<char> {
    match date {
        Some(text) => text,
        None => "unknown"@,
    }
}

/// The day of a point in time, or that it is not known.
pub open spec fn timestamp_text(timestamp: Option<u64>) -> Seq<char> {
    match timestamp {
        Some(value) => date_or_unknown(utc_format(as_signed(value), "%Y-%m-%d"@)),
        None => "unknown"@,
    }
}

/// The text for a point in time that may not be known.
pub fn or_unknown(date: Option<String>) -> (r: String)
    ensures
        r@ == date_or_unknown(
            match date {
                Some(text) => Some(text@),
                None => None,
            },
        ),
{
    match date {
        Some(text) => text,
        None => "unknown".to_owned(),
    }
}

/// The day of a point in time.
pub fn format_timestamp(timestamp: Option<u64>) -> (r: String)
    ensures
        r@ == timestamp_text(timestamp),
{
    match timestamp {
        None => "unknown".to_owned(),
        Some(value) => {
            let seconds: i64 = if value <= i64::MAX as u64 {
                value as i64
            } else {
                -((u64::MAX - value) as i64) - 1
            };
            or_unknown(utc_text(seconds, "%Y-%m-%d"))
        },
    }
}

/// A duration in days, hours and minutes.
pub open spec fn duration_text(seconds: nat) -> Seq<char> {
    decimal(seconds / 86400) + "d "@ + decimal(seconds % 86400 / 3600) + "h "@ + decimal(
        seconds % 3600 / 60,
    ) + "m"@
}

pub fn format_duration(seconds: u64) -> (r: String)
    ensures
        r@ == duration_text(seconds as nat),
{
    let days: u64 = seconds / 86400;
    let hours: u64 = seconds % 86400 / 3600;
    let minutes: u64 = seconds % 3600 / 60;
    decimal_text(days).concat("d ").concat(decimal_text(hours).as_str()).concat("h ").concat(
        decimal_text(minutes).as_str(),
    ).concat("m")
}

// ---------------------------------------------------------------------------------------
// Laws
// ---------------------------------------------------------------------------------------


/// The days, hours and minutes of a duration make it up again, to the minute; hours stay below a
/// day and minutes below an hour.
pub proof fn duration_adds_up(seconds: nat) -> (r: (nat, nat, nat))
    ensures
        duration_text(seconds) == decimal(r.0) + "d "@ + decimal(r.1) + "h "@ + decimal(r.2) + "m"@,
        r.0 * 86_400 + r.1 * 3_600 + r.2 * 60 <= seconds < r.0 * 86_400 + r.1 * 3_600 + r.2 * 60
            + 60,
        r.1 < 24,
        r.2 < 60,
{
    (seconds / 86400, seconds % 86400 / 3600, seconds % 3600 / 60)
}

/// A point in time that is not known is called so, and one that is known is written as its day.
pub proof fn unknown_times_are_called_so(value: u64)
    ensures
        timestamp_text(None) == "unknown"@,
        value <= i64::MAX ==> match utc_format(value as int, "%Y-%m-%d"@) {
            Some(day) => timestamp_text(Some(value)) == day,
            None => timestamp_text(Some(value)) == "unknown"@,
        },
{
}

} // verus!
