//! Trusted readings of the clock and the local calendar, through chrono.
//!
//! Everything here depends on the wall clock or the machine's time zone,
//! so the contracts state only what holds of every outcome; verified
//! callers take these plain values and do the rest.

use crate::date::{days_in_month_spec, Date};
use chrono::Datelike;
use vstd::prelude::*;

verus! {

/// Names the outcome of `chrono::DateTime::parse_from_rfc3339`: whether
/// the text is a well-formed RFC 3339 timestamp.  Success is a function
/// of the text alone.
pub uninterp spec fn rfc3339_ok(s: Seq<char>) -> bool;

/// Relies on `chrono::Local::now` and `Datelike`'s accessors on
/// `NaiveDate`: what chrono returns is a real calendar date.
#[verifier::external_body]
fn today_parts() -> (r: (i32, u8, u8))
    ensures
        1 <= r.1 <= 12,
        1 <= r.2 <= days_in_month_spec(r.0 as int, r.1 as int),
{
    let d = chrono::Local::now().date_naive();
    (d.year(), d.month() as u8, d.day() as u8)
}

/// The current date in the local time zone, clamped to the supported
/// year range.
pub fn today() -> (d: Date)
    ensures
        d.wf(),
{
    let p = today_parts();
    match Date::from_ymd(p.0, p.1, p.2) {
        Some(d) => d,
        None => Date { year: 2000, month: 1, day: 1 },
    }
}

/// Relies on `chrono::Utc::now`, `DateTime::timestamp_millis`,
/// `DateTime::to_rfc3339` and `with_timezone(&Local)`: the first string
/// is the decimal milliseconds since the epoch, the second the RFC 3339
/// text of the same instant (which chrono's own parser accepts back),
/// the third its local-time rendering.  chrono renders years outside
/// 0..=9999 with an explicit sign, which its parser rejects, so the
/// parse-back clause assumes the system clock stands in those years —
/// the same assumption the fixed `YYYY-MM-DD` file naming makes.
#[verifier::external_body]
pub fn now_stamp() -> (r: (String, String, String))
    ensures
        r.0@.len() > 0,
        rfc3339_ok(r.1@),
{
    let now = chrono::Utc::now();
    let local = now.with_timezone(&chrono::Local);
    (format!("{}", now.timestamp_millis()), now.to_rfc3339(), local.to_rfc3339())
}

/// Relies on `chrono::NaiveDate::from_ymd_opt`, `NaiveDate::and_time`
/// with the time of `chrono::Local::now`, `and_local_timezone(..).single()`,
/// `timestamp_millis` and `to_rfc3339`: when the local time zone gives the
/// combined instant a single meaning, the result is its stamp, as in
/// [`now_stamp`].  `None` comes from a date chrono cannot hold, or from
/// a local time the zone skips or repeats.  Years are restricted to the
/// range chrono's parser reads back (it rejects the signed form
/// `to_rfc3339` writes outside 0..=9999).
#[verifier::external_body]
pub fn stamp_for_date_parts(y: i32, m: u8, d: u8) -> (r: Option<(String, String, String)>)
    requires
        1 <= y <= 9999,
    ensures
        r matches Some(p) ==> p.0@.len() > 0 && rfc3339_ok(p.1@),
{
    let nd = chrono::NaiveDate::from_ymd_opt(y, m as u32, d as u32)?;
    let now = chrono::Local::now();
    let dt = nd.and_time(now.time()).and_local_timezone(chrono::Local).single()?;
    Some((format!("{}", dt.timestamp_millis()), dt.to_rfc3339(), dt.to_rfc3339()))
}

/// Relies on `chrono::DateTime::parse_from_rfc3339` (see [`rfc3339_ok`])
/// and on `with_timezone(&Local)` with `date_naive`: the parts returned
/// are the local calendar date of the parsed instant, a real calendar
/// date.
#[verifier::external_body]
fn local_date_parts_of_rfc3339(s: &str) -> (r: Option<(i32, u8, u8)>)
    ensures
        r is Some <==> rfc3339_ok(s@),
        r matches Some(p) ==> 1 <= p.1 <= 12 && 1 <= p.2 <= days_in_month_spec(
            p.0 as int,
            p.1 as int,
        ),
{
    match chrono::DateTime::parse_from_rfc3339(s) {
        Ok(dt) => {
            let d = dt.with_timezone(&chrono::Local).date_naive();
            Some((d.year(), d.month() as u8, d.day() as u8))
        }
        Err(_) => None,
    }
}

/// The local calendar date an entry with this `created_at` text belongs
/// to.  `None` when the text is not RFC 3339, or when the date falls
/// outside the supported year range.
pub fn partition_date_of(created_at: &str) -> (r: Option<Date>)
    ensures
        r matches Some(d) ==> d.wf() && rfc3339_ok(created_at@),
        !rfc3339_ok(created_at@) ==> r is None,
{
    match local_date_parts_of_rfc3339(created_at) {
        Some(p) => Date::from_ymd(p.0, p.1, p.2),
        None => None,
    }
}

} // verus!
