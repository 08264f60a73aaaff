//! Timestamp conversions between request strings, epoch milliseconds and
//! response labels.
//!
//! The calendar arithmetic itself is done by the `chrono` crate behind
//! trusted wrappers; everything downstream works on plain integer
//! milliseconds. The parse and format results depend on the input alone,
//! so each is given an uninterpreted name that the wrappers' contracts
//! and their callers share.

use vstd::prelude::*;
use crate::geo::tmod;

verus! {

/// What `chrono` yields for a date-and-time string parsed as a UTC
/// timestamp, in milliseconds since the epoch; `None` where the string
/// does not parse.
pub uninterp spec fn datetime_parse_millis(s: Seq<char>) -> Option<i64>;

/// Whether `chrono` accepts a string as an RFC 3339 date-and-time value.
pub uninterp spec fn rfc3339_valid(s: Seq<char>) -> bool;

/// The label `chrono` renders for a UTC timestamp given as whole seconds
/// and a nanosecond part, in the fixed format `%Y-%m-%dT%H:%M:%SZ`;
/// `None` where the timestamp is out of chrono's range.
pub uninterp spec fn utc_label(secs: int, nanos: int) -> Option<Seq<char>>;

/// Parse a date-and-time string to epoch milliseconds.
///
/// Relies on `str::parse::<chrono::DateTime<chrono::Utc>>` (a relaxed
/// RFC 3339 grammar) and `chrono::DateTime::timestamp_millis`; the result
/// is a function of the string alone.
#[verifier::external_body]
pub fn string2bsondate(date_str: &str) -> (r: Option<i64>)
    ensures
        r == datetime_parse_millis(date_str@),
{
    date_str.parse::<chrono::DateTime<chrono::Utc>>().ok().map(|dt| dt.timestamp_millis())
}

/// Check a string against the RFC 3339 date-and-time grammar.
///
/// Relies on `chrono::DateTime::parse_from_rfc3339`: acceptance is a
/// function of the string alone.
#[verifier::external_body]
pub(crate) fn rfc3339_parses(date_str: &str) -> (r: bool)
    ensures
        r == rfc3339_valid(date_str@),
{
    chrono::DateTime::parse_from_rfc3339(date_str).is_ok()
}

/// Render a UTC timestamp as a `%Y-%m-%dT%H:%M:%SZ` label.
///
/// Relies on `chrono::DateTime::<chrono::Utc>::from_timestamp` (documented
/// to return `None` exactly on an out-of-range number of seconds or an
/// invalid nanosecond part) and on `chrono::DateTime::format`; the result
/// is a function of the two arguments alone.
#[verifier::external_body]
fn format_utc(secs: i64, nanos: u32) -> (r: Option<String>)
    ensures
        r is Some <==> utc_label(secs as int, nanos as int) is Some,
        r is Some ==> r->Some_0@ == utc_label(secs as int, nanos as int)->Some_0,
{
    chrono::DateTime::<chrono::Utc>::from_timestamp(secs, nanos).map(
        |dt| dt.format("%Y-%m-%dT%H:%M:%SZ").to_string(),
    )
}

/// The whole-second part of an epoch-millisecond timestamp, with the
/// truncating division the service inherited.
pub open spec fn label_secs(millis: int) -> int {
    if millis >= 0 {
        millis / 1000
    } else {
        -((-millis) / 1000)
    }
}

/// The nanosecond part handed to the renderer for an epoch-millisecond
/// timestamp; negative inputs only reach it when they are whole seconds.
pub open spec fn label_nanos(millis: int) -> int {
    if millis >= 0 {
        (millis % 1000) * 1_000_000
    } else {
        0
    }
}

/// The label this library gives an epoch-millisecond timestamp: the
/// rendered UTC label, or the fixed fallback text where the timestamp is
/// out of the renderer's range.
pub open spec fn date_label(millis: int) -> Seq<char> {
    match utc_label(label_secs(millis), label_nanos(millis)) {
        Some(l) => l,
        None => "Invalid timestamp"@,
    }
}

/// Render an epoch-millisecond timestamp as a `%Y-%m-%dT%H:%M:%SZ` label,
/// falling back to a fixed text for timestamps out of the renderer's
/// range. A negative timestamp must be a whole number of seconds.
pub fn bsondate2string(millis: i64) -> (r: String)
    requires
        millis >= 0 || tmod(millis as int, 1000) == 0,
    ensures
        r@ == date_label(millis as int),
{
    let secs: i64;
    let nanos: u32;
    if millis >= 0 {
        secs = ((millis as u64) / 1000) as i64;
        nanos = (((millis as u64) % 1000) as u32) * 1_000_000;
    } else {
        secs = -((((-millis) as u64) / 1000) as i64);
        nanos = 0;
        proof {
            assert((-millis) as u64 / 1000 <= (-millis) as u64) by (nonlinear_arith)
                requires
                    millis < 0,
            ;
        }
    }
    match format_utc(secs, nanos) {
        Some(s) => s,
        None => {
            let fallback = "Invalid timestamp";
            fallback.to_owned()
        },
    }
}

} // verus!
