//! Calendar views of commit times, through the `chrono` crate.
//!
//! Which day, month or hour a Unix time falls in is `chrono`'s business; the
//! library names those results (`utc_*` and `shifted_hour` below) and builds
//! its keys and labels from them.
use chrono::{DateTime, Datelike, Duration, Timelike, Utc};
use vstd::prelude::*;
use crate::text::{decimal, decimal_exec, extend, opt_view};

verus! {

/// The UTC year and month (1 to 12) of the instant `seconds` after the Unix
/// epoch, `None` outside the range `chrono` represents.
pub uninterp spec fn utc_year_month(seconds: int) -> Option<(int, nat)>;

/// The UTC weekday of the instant, counted from Monday as 0.
pub uninterp spec fn utc_weekday(seconds: int) -> Option<nat>;

/// The hour (0 to 23) on the UTC clock of the instant moved by `offset_minutes`.
pub uninterp spec fn shifted_hour(seconds: int, offset_minutes: int) -> Option<nat>;

/// The UTC date and time of the instant as `%Y-%m-%d %H:%M`.
pub uninterp spec fn utc_minute_text(seconds: int) -> Option<Seq<char>>;

/// The UTC date of the instant as `%Y-%m-%d`.
pub uninterp spec fn utc_day_text(seconds: int) -> Option<Seq<char>>;

/// Trusted: `chrono::DateTime::<Utc>::from_timestamp(seconds, 0)`, then
/// `Datelike::year` and `Datelike::month` (documented as 1 to 12).
#[verifier::external_body]
pub(crate) fn year_month(seconds: i64) -> (r: Option<(i32, u32)>)
    ensures
        r matches Some(ym) ==> utc_year_month(seconds as int) == Some((ym.0 as int, ym.1 as nat)) && 1 <= ym.1
            <= 12,
        r is None ==> utc_year_month(seconds as int) is None,
{
    match DateTime::<Utc>::from_timestamp(seconds, 0) {
        Some(dt) => Some((dt.year(), dt.month())),
        None => None,
    }
}

/// Trusted: `chrono::DateTime::<Utc>::from_timestamp(seconds, 0)`, then
/// `weekday().num_days_from_monday()` (Monday is 0, so below 7).
#[verifier::external_body]
pub(crate) fn weekday(seconds: i64) -> (r: Option<u32>)
    ensures
        r matches Some(d) ==> utc_weekday(seconds as int) == Some(d as nat) && d < 7,
        r is None ==> utc_weekday(seconds as int) is None,
{
    match DateTime::<Utc>::from_timestamp(seconds, 0) {
        Some(dt) => Some(dt.weekday().num_days_from_monday()),
        None => None,
    }
}

/// Trusted: `chrono::DateTime::<Utc>::from_timestamp(seconds, 0)`, its
/// `naive_utc()` moved by `Duration::minutes(offset)` with
/// `checked_add_signed`, then `Timelike::hour` (documented as 0 to 23).
/// `None` also where the move leaves `chrono`'s range.
#[verifier::external_body]
pub(crate) fn hour_at(seconds: i64, offset_minutes: i32) -> (r: Option<u32>)
    ensures
        r matches Some(h) ==> shifted_hour(seconds as int, offset_minutes as int) == Some(h as nat) && h < 24,
        r is None ==> shifted_hour(seconds as int, offset_minutes as int) is None,
{
    match DateTime::<Utc>::from_timestamp(seconds, 0) {
        Some(dt) => match dt.naive_utc().checked_add_signed(Duration::minutes(offset_minutes as i64)) {
            Some(t) => Some(t.hour()),
            None => None,
        },
        None => None,
    }
}

/// Trusted: `chrono::DateTime::<Utc>::from_timestamp(seconds, 0)`, then its
/// `naive_utc()` formatted with `%Y-%m-%d %H:%M`.
#[verifier::external_body]
pub(crate) fn minute_text(seconds: i64) -> (r: Option<String>)
    ensures
        opt_view(r) == utc_minute_text(seconds as int),
{
    match DateTime::<Utc>::from_timestamp(seconds, 0) {
        Some(dt) => Some(dt.naive_utc().format("%Y-%m-%d %H:%M").to_string()),
        None => None,
    }
}

/// Trusted: `chrono::DateTime::<Utc>::from_timestamp(seconds, 0)`, then its
/// `naive_utc()` formatted with `%Y-%m-%d`.
#[verifier::external_body]
pub(crate) fn day_text(seconds: i64) -> (r: Option<String>)
    ensures
        opt_view(r) == utc_day_text(seconds as int),
{
    match DateTime::<Utc>::from_timestamp(seconds, 0) {
        Some(dt) => Some(dt.naive_utc().format("%Y-%m-%d").to_string()),
        None => None,
    }
}

/// A month number written with two digits.
pub open spec fn two_digits(m: nat) -> Seq<char> {
    if m < 10 {
        seq!['0'] + decimal(m)
    } else {
        decimal(m)
    }
}

/// A year as `{}` writes an integer.
pub open spec fn year_text(y: int) -> Seq<char> {
    if y < 0 {
        seq!['-'] + decimal((-y) as nat)
    } else {
        decimal(y as nat)
    }
}

/// The `YYYY-MM` key of a month.
pub open spec fn month_key_text(y: int, m: nat) -> Seq<char> {
    year_text(y) + seq!['-'] + two_digits(m)
}

/// The month key of the instant.
pub open spec fn month_key(seconds: int) -> Option<Seq<char>> {
    match utc_year_month(seconds) {
        Some(ym) => Some(month_key_text(ym.0, ym.1)),
        None => None,
    }
}

/// The month key of the instant (`None` outside `chrono`'s range).
pub fn month_key_of(seconds: i64) -> (r: Option<String>)
    ensures
        opt_view(r) == month_key(seconds as int),
{
    match year_month(seconds) {
        Some((y, m)) => {
            let mut v: Vec<char> = Vec::new();
            if y < 0 {
                v.push('-');
                let a: i64 = -(y as i64);
                let d = decimal_exec(a as usize);
                extend(&mut v, &d);
            } else {
                let d = decimal_exec(y as usize);
                extend(&mut v, &d);
            }
            v.push('-');
            if m < 10 {
                v.push('0');
            }
            let d = decimal_exec(m as usize);
            extend(&mut v, &d);
            proof {
                assert(v@ =~= month_key_text(y as int, m as nat));
            }
            Some(crate::text::string_of(&v))
        },
        None => None,
    }
}

} // verus!
