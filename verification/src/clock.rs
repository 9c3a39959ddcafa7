//! Timestamps as whole seconds since the Unix epoch (UTC), read from and
//! written to the EVE log formats through `chrono`.

use chrono::{DateTime, NaiveDate, NaiveDateTime, NaiveTime, Utc};
use vstd::prelude::*;

verus! {

/// Seconds of `-262143-01-01T00:00:00Z`, chrono's earliest date-time.
pub const MIN_TS: i64 = -8_334_601_315_200;

/// Seconds of `+262142-12-31T23:59:59Z`, chrono's latest whole second.
pub const MAX_TS: i64 = 8_210_266_876_799;

/// A whole second that `chrono::DateTime<Utc>` can hold.
pub open spec fn valid_ts(t: int) -> bool {
    MIN_TS <= t <= MAX_TS
}

/// What `NaiveDateTime::parse_from_str(s, fmt)` yields, read as UTC seconds.
pub uninterp spec fn naive_date_time(s: Seq<char>, fmt: Seq<char>) -> Option<i64>;

/// What `NaiveDate::parse_from_str(s, fmt)` yields, as the UTC seconds of
/// that day's midnight.
pub uninterp spec fn naive_date(s: Seq<char>, fmt: Seq<char>) -> Option<i64>;

/// What `DateTime::<Utc>::from_timestamp(t, 0)` rendered by `to_rfc3339` yields.
pub uninterp spec fn rfc3339_text(t: i64) -> Option<Seq<char>>;

/// The chat and gamelog stamp format.
pub open spec fn eve_seconds(s: Seq<char>) -> Option<i64> {
    naive_date_time(s, "%Y.%m.%d %H:%M:%S"@)
}

/// The wallet journal stamp format.
pub open spec fn eve_minutes(s: Seq<char>) -> Option<i64> {
    naive_date_time(s, "%Y.%m.%d %H:%M"@)
}

/// Calls `chrono::NaiveDateTime::parse_from_str(s, fmt)` and reads the result
/// as UTC seconds. The contract names the result and states chrono's
/// documented date range; which texts parse is left to chrono.
#[verifier::external_body]
pub(crate) fn parse_date_time(s: &str, fmt: &str) -> (r: Option<i64>)
    ensures
        r == naive_date_time(s@, fmt@),
        r matches Some(t) ==> valid_ts(t as int),
{
    NaiveDateTime::parse_from_str(s, fmt).ok().map(|n| n.and_utc().timestamp())
}

/// Calls `chrono::NaiveDate::parse_from_str(s, fmt)` and reads the day as the
/// UTC seconds of its midnight. The contract names the result and states
/// chrono's documented date range.
#[verifier::external_body]
pub(crate) fn parse_date(s: &str, fmt: &str) -> (r: Option<i64>)
    ensures
        r == naive_date(s@, fmt@),
        r matches Some(t) ==> valid_ts(t as int),
{
    NaiveDate::parse_from_str(s, fmt).ok().map(|d| d.and_time(NaiveTime::MIN).and_utc().timestamp())
}

/// Parses a chat or gamelog stamp (`%Y.%m.%d %H:%M:%S`).
pub fn parse_eve_seconds(s: &str) -> (r: Option<i64>)
    ensures
        r == eve_seconds(s@),
        r matches Some(t) ==> valid_ts(t as int),
{
    parse_date_time(s, "%Y.%m.%d %H:%M:%S")
}

/// Parses a wallet journal stamp (`%Y.%m.%d %H:%M`).
pub fn parse_eve_minutes(s: &str) -> (r: Option<i64>)
    ensures
        r == eve_minutes(s@),
        r matches Some(t) ==> valid_ts(t as int),
{
    parse_date_time(s, "%Y.%m.%d %H:%M")
}

/// Calls `chrono::DateTime::<Utc>::from_timestamp(t, 0)` and, when `t` is in
/// range, `to_rfc3339` on it. The contract names the result and states that
/// `from_timestamp` is `None` exactly out of chrono's range.
#[verifier::external_body]
pub(crate) fn rfc3339_of(t: i64) -> (r: Option<String>)
    ensures
        r matches Some(x) ==> rfc3339_text(t) == Some(x@),
        r is None ==> rfc3339_text(t) is None,
        r is Some <==> valid_ts(t as int),
{
    DateTime::<Utc>::from_timestamp(t, 0).map(|d| d.to_rfc3339())
}

} // verus!
