//! Instants as milliseconds since the Unix epoch. The tracker only ever
//! compares instants and renders them for the store; chrono supplies the
//! wall clock and the RFC 3339 text form behind trusted wrappers.

use vstd::prelude::*;
use crate::errors::ParseError;
use crate::text::free_of;
use chrono::TimeZone;

verus! {

/// The largest instant the store handles: the last millisecond of year
/// 9999 UTC, so the rendered date always has a four-digit year.
pub const MAX_TIMESTAMP_MS: i64 = 253402300799999;

/// A completed pomodoro still counts as consecutive while the elapsed whole
/// minutes since the previous one are at most 40.
pub const RECENT_WINDOW_MS: i64 = 41 * 60000;

/// The instant, in milliseconds since the epoch, that a date field holds;
/// nothing when the text is not a readable date.
pub uninterp spec fn rfc3339_value(s: Seq<char>) -> Option<i64>;

/// Relies on chrono's `DateTime<Local>` parser (`str::parse`): the instant
/// it reads depends on the text alone, since the text carries its own
/// offset.
#[verifier::external_body]
pub(crate) fn parse_timestamp(s: &str) -> (r: Option<i64>)
    ensures
        r == rfc3339_value(s@),
{
    match s.parse::<chrono::DateTime<chrono::Local>>() {
        Ok(dt) => Some(dt.timestamp_millis()),
        Err(_) => None,
    }
}

/// Relies on chrono's `TimeZone::timestamp_millis_opt` and
/// `DateTime::to_rfc3339`: an in-range instant renders as an RFC 3339
/// string (digits and `-+:.T`, never `;` or a line break) that chrono's own
/// `DateTime` parser reads back as the same instant. The text is rendered
/// in UTC: its offset label, `+00:00`, is exact, where a local zone's
/// offset can carry seconds that the minute-precision label would lose,
/// shifting the instant read back.
#[verifier::external_body]
pub(crate) fn format_timestamp(ms: i64) -> (r: String)
    requires
        0 <= ms <= MAX_TIMESTAMP_MS,
    ensures
        rfc3339_value(r@) == Some(ms),
        r@.len() > 0,
        free_of(r@, ';'),
        free_of(r@, '\n'),
{
    chrono::Utc.timestamp_millis_opt(ms).unwrap().to_rfc3339()
}

/// Relies on chrono's `Local::now` for the wall clock; nothing is promised
/// of the value.
#[verifier::external_body]
fn now_millis() -> i64 {
    chrono::Local::now().timestamp_millis()
}

/// The wall clock, clamped into the range the store handles.
pub fn current_timestamp() -> (r: i64)
    ensures
        0 <= r <= MAX_TIMESTAMP_MS,
{
    let t = now_millis();
    if t < 0 {
        0
    } else if t > MAX_TIMESTAMP_MS {
        MAX_TIMESTAMP_MS
    } else {
        t
    }
}

/// An optional date field of the store: empty means absent; anything else
/// must be a readable date.
pub open spec fn date_field(s: Seq<char>) -> Result<Option<i64>, ParseError> {
    if s.len() == 0 {
        Ok(None)
    } else {
        match rfc3339_value(s) {
            Some(t) => Ok(Some(t)),
            None => Err(ParseError::BadDate),
        }
    }
}

/// Parses an optional date field; an empty field is an absent date, a
/// malformed non-empty field is a fatal store error.
pub fn parse_maybe_local_date(s: &str) -> (r: Result<Option<i64>, ParseError>)
    ensures
        r == date_field(s@),
{
    if s.unicode_len() == 0 {
        Ok(None)
    } else {
        match parse_timestamp(s) {
            Some(t) => Ok(Some(t)),
            None => Err(ParseError::BadDate),
        }
    }
}

/// The last pomodoro is recent enough at `now` for the streak to continue.
pub open spec fn is_recent_at(last: Option<i64>, now: i64) -> bool {
    match last {
        None => false,
        Some(t) => now - t < RECENT_WINDOW_MS,
    }
}

/// Elapsed whole minutes from `from` to `to`, truncated towards zero.
pub open spec fn minutes_between(from: int, to: int) -> int {
    if to >= from {
        (to - from) / 60000
    } else {
        -((from - to) / 60000)
    }
}

/// Elapsed whole minutes from `from` to `to`; mirrors `minutes_between`.
pub fn elapsed_minutes(from: i64, to: i64) -> (r: i64)
    requires
        0 <= from <= MAX_TIMESTAMP_MS,
        0 <= to <= MAX_TIMESTAMP_MS,
    ensures
        r == minutes_between(from as int, to as int),
{
    if to >= from {
        let d: u64 = (to - from) as u64;
        (d / 60000) as i64
    } else {
        let d: u64 = (from - to) as u64;
        -((d / 60000) as i64)
    }
}

} // verus!
