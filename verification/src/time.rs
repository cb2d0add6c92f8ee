//! Points in time (UTC) and the calendar, computed by chrono.
use vstd::prelude::*;

use chrono::{DateTime, Datelike, NaiveDate, TimeZone, Utc};

use crate::text::{parse_i32, parse_u32, spec_i32_result, spec_u32_result, IntParseError};

verus! {

/// A point in time in UTC: seconds and nanoseconds since 1970-01-01 00:00:00
/// UTC, as chrono's `DateTime<Utc>` holds it.
#[derive(Clone, Copy, Debug, PartialEq, Eq, Structural)]
pub struct Moment {
    pub secs: i64,
    pub nanos: u32,
}

/// The first year chrono's dates reach.
pub open spec fn min_year() -> int {
    -262143
}

/// The last year chrono's dates reach.
pub open spec fn max_year() -> int {
    262142
}

/// A leap year of the proleptic Gregorian calendar.
pub open spec fn is_leap_year(y: int) -> bool {
    (y % 4 == 0 && y % 100 != 0) || y % 400 == 0
}

/// The number of days of month `m` (1..=12) in year `y`.
pub open spec fn days_in_month(y: int, m: int) -> int {
    if m == 2 {
        if is_leap_year(y) {
            29
        } else {
            28
        }
    } else if m == 4 || m == 6 || m == 9 || m == 11 {
        30
    } else {
        31
    }
}

/// A day that exists in the calendar and in chrono's range of years.
pub open spec fn valid_calendar_date(y: int, m: int, d: int) -> bool {
    &&& min_year() <= y <= max_year()
    &&& 1 <= m <= 12
    &&& 1 <= d <= days_in_month(y, m)
}

/// A time of day without leap second.
pub open spec fn valid_time_of_day(h: int, mi: int, s: int) -> bool {
    0 <= h < 24 && 0 <= mi < 60 && 0 <= s < 60
}

/// The number of days of year `y`.
pub open spec fn days_in_year(y: int) -> int {
    if is_leap_year(y) {
        366
    } else {
        365
    }
}

/// How many leap years come before year `y`, up to a constant: the count
/// changes by one from `y` to `y + 1` exactly when `y` is a leap year.
pub open spec fn leap_years_before(y: int) -> int {
    (y - 1) / 4 - (y - 1) / 100 + (y - 1) / 400
}

/// The days from 1970-01-01 to the first of January of year `y` (negative
/// before 1970).
pub open spec fn days_before_year(y: int) -> int {
    365 * (y - 1970) + leap_years_before(y) - leap_years_before(1970)
}

/// The days of year `y` before the first of month `m` (1..=12).
pub open spec fn days_before_month(y: int, m: int) -> int {
    let common: int = if m <= 1 {
        0
    } else if m == 2 {
        31
    } else if m == 3 {
        59
    } else if m == 4 {
        90
    } else if m == 5 {
        120
    } else if m == 6 {
        151
    } else if m == 7 {
        181
    } else if m == 8 {
        212
    } else if m == 9 {
        243
    } else if m == 10 {
        273
    } else if m == 11 {
        304
    } else {
        334
    };
    if m > 2 && is_leap_year(y) {
        common + 1
    } else {
        common
    }
}

/// The day number of `y-m-d` in the proleptic Gregorian calendar, counted
/// from 1970-01-01 (day 0).
pub open spec fn days_from_epoch(y: int, m: int, d: int) -> int {
    days_before_year(y) + days_before_month(y, m) + d - 1
}

/// The UNIX timestamp of the UTC time `year-month-day hour:min:sec`: whole
/// days since 1970-01-01 times 86400, plus the seconds of the day. This is
/// chrono's `timestamp` of that time (no leap seconds are counted).
pub open spec fn utc_timestamp(year: i32, month: u32, day: u32, hour: u32, min: u32, sec: u32) -> i64 {
    (days_from_epoch(year as int, month as int, day as int) * 86400 + hour * 3600 + min * 60
        + sec) as i64
}

/// A fraction of a second that chrono's `NaiveTime` takes at second `sod` of
/// the day: below one second, or below two in the last second of a minute
/// (a leap second).
pub open spec fn valid_fraction(sod: int, nanos: int) -> bool {
    nanos < 1_000_000_000 || (nanos < 2_000_000_000 && sod % 60 == 59)
}

/// The calendar date (year, month, day) in UTC of the UNIX timestamp
/// `secs`/`nanos`, or `None` where chrono has no `DateTime` for it: the day
/// `secs` falls on (rounding down) must be in chrono's calendar, and the
/// fraction valid at that second of the day.
pub open spec fn utc_calendar(secs: i64, nanos: u32) -> Option<(i32, u32, u32)> {
    let day = (secs as int) / 86400;
    if valid_fraction((secs as int) % 86400, nanos as int) && exists|y: int, m: int, d: int|
        valid_calendar_date(y, m, d) && #[trigger] days_from_epoch(y, m, d) == day {
        let (y, m, d) = choose|y: int, m: int, d: int|
            valid_calendar_date(y, m, d) && #[trigger] days_from_epoch(y, m, d) == day;
        Some((y as i32, m as u32, d as u32))
    } else {
        None
    }
}

/// From one first of January to the next there are as many days as the year has.
pub proof fn lemma_year_step(y: int)
    ensures
        days_before_year(y + 1) == days_before_year(y) + days_in_year(y),
{
}

/// The first of January of a later year comes no earlier than the end of an
/// earlier one.
pub proof fn lemma_years_ordered(y1: int, y2: int)
    requires
        y1 < y2,
    ensures
        days_before_year(y1) + days_in_year(y1) <= days_before_year(y2),
    decreases y2 - y1,
{
    lemma_year_step(y1);
    if y1 + 1 < y2 {
        lemma_years_ordered(y1 + 1, y2);
        lemma_year_step(y1 + 1);
    }
}

/// The days of a year before a valid day of it are fewer than the year has.
pub proof fn lemma_day_of_year_bounds(y: int, m: int, d: int)
    requires
        valid_calendar_date(y, m, d),
    ensures
        0 <= days_before_month(y, m) + d - 1 < days_in_year(y),
{
}

/// Within a year, a later month starts after every day of an earlier one.
pub proof fn lemma_months_ordered(y: int, m1: int, d1: int, m2: int, d2: int)
    requires
        valid_calendar_date(y, m1, d1),
        valid_calendar_date(y, m2, d2),
        m1 < m2,
    ensures
        days_before_month(y, m1) + d1 < days_before_month(y, m2) + d2,
{
}

/// Two valid days with the same day number are the same day.
pub proof fn lemma_days_from_epoch_injective(y1: int, m1: int, d1: int, y2: int, m2: int, d2: int)
    requires
        valid_calendar_date(y1, m1, d1),
        valid_calendar_date(y2, m2, d2),
        days_from_epoch(y1, m1, d1) == days_from_epoch(y2, m2, d2),
    ensures
        y1 == y2 && m1 == m2 && d1 == d2,
{
    lemma_day_of_year_bounds(y1, m1, d1);
    lemma_day_of_year_bounds(y2, m2, d2);
    if y1 < y2 {
        lemma_years_ordered(y1, y2);
    } else if y2 < y1 {
        lemma_years_ordered(y2, y1);
    } else if m1 < m2 {
        lemma_months_ordered(y1, m1, d1, m2, d2);
    } else if m2 < m1 {
        lemma_months_ordered(y1, m2, d2, m1, d1);
    }
}

/// The day numbers of chrono's calendar stay well inside what a timestamp holds.
pub proof fn lemma_days_from_epoch_bounds(y: int, m: int, d: int)
    requires
        valid_calendar_date(y, m, d),
    ensures
        -100_000_000 < days_from_epoch(y, m, d) < 100_000_000,
{
    lemma_day_of_year_bounds(y, m, d);
}

/// The calendar day of a moment made for a valid day and time of day is that
/// day: reading a timestamp back gives the date it was made from.
pub proof fn law_utc_timestamp_reads_back(year: i32, month: u32, day: u32, hour: u32, min: u32, sec: u32)
    requires
        valid_calendar_date(year as int, month as int, day as int),
        valid_time_of_day(hour as int, min as int, sec as int),
    ensures
        utc_calendar(utc_timestamp(year, month, day, hour, min, sec), 0) == Some((year, month, day)),
        (utc_timestamp(year, month, day, hour, min, sec) as int) % 86400 == hour * 3600 + min * 60
            + sec,
{
    let days = days_from_epoch(year as int, month as int, day as int);
    let sod = hour * 3600 + min * 60 + sec;
    lemma_days_from_epoch_bounds(year as int, month as int, day as int);
    let t = utc_timestamp(year, month, day, hour, min, sec);
    assert(t as int == days * 86400 + sod);
    vstd::arithmetic::div_mod::lemma_fundamental_div_mod_converse(t as int, 86400, days, sod);
    assert(valid_calendar_date(year as int, month as int, day as int) && days_from_epoch(
        year as int,
        month as int,
        day as int,
    ) == days);
    let (y, m, d) = choose|y: int, m: int, d: int|
        valid_calendar_date(y, m, d) && #[trigger] days_from_epoch(y, m, d) == days;
    lemma_days_from_epoch_injective(y, m, d, year as int, month as int, day as int);
}

/// The (year, month, day) of the date that chrono reads from `text` in the
/// format `%Y-%m-%d`, or the message of the parse error it reports.
pub uninterp spec fn chrono_ymd_parse(text: Seq<char>) -> Result<(i32, u32, u32), Seq<char>>;

/// The UTC moment `year-month-day hour:min:sec`, made by chrono's
/// `Utc.with_ymd_and_hms`. Chrono answers a single time exactly when the date
/// exists in its calendar and the time of day exists; for UTC the offset is
/// zero, so there is never an ambiguous or skipped time. The moment has no
/// fraction of a second, and its `timestamp` counts the whole days since
/// 1970-01-01 and the seconds of the day (`utc_timestamp`).
#[verifier::external_body]
pub fn utc_at(year: i32, month: u32, day: u32, hour: u32, min: u32, sec: u32) -> (r: Option<Moment>)
    ensures
        r.is_some() == (valid_calendar_date(year as int, month as int, day as int)
            && valid_time_of_day(hour as int, min as int, sec as int)),
        r.is_some() ==> r.unwrap().secs == utc_timestamp(year, month, day, hour, min, sec),
        r.is_some() ==> r.unwrap().nanos == 0,
{
    match Utc.with_ymd_and_hms(year, month, day, hour, min, sec) {
        chrono::LocalResult::Single(dt) => Some(
            Moment { secs: dt.timestamp(), nanos: dt.timestamp_subsec_nanos() },
        ),
        _ => None,
    }
}

/// The calendar date in UTC of a moment, through chrono's
/// `DateTime::from_timestamp` and its `year`, `month` and `day`: `None` where
/// the fraction is not one a `NaiveTime` takes or the day falls outside
/// chrono's calendar, else the day the timestamp falls on.
#[verifier::external_body]
pub fn calendar_of(m: Moment) -> (r: Option<(i32, u32, u32)>)
    ensures
        r == utc_calendar(m.secs, m.nanos),
{
    match DateTime::from_timestamp(m.secs, m.nanos) {
        Some(dt) => Some((dt.year(), dt.month(), dt.day())),
        None => None,
    }
}

/// The current time, from chrono's `Utc::now`: whatever the system clock says,
/// of which only this is stated: the fraction is below one second (it comes
/// from a `Duration`), and the moment is a `DateTime` chrono made, so it has a
/// calendar date (`from_timestamp` round-trips with `timestamp`).
#[verifier::external_body]
pub fn utc_now() -> (r: Moment)
    ensures
        r.nanos < 1_000_000_000,
        utc_calendar(r.secs, r.nanos).is_some(),
{
    let dt = Utc::now();
    Moment { secs: dt.timestamp(), nanos: dt.timestamp_subsec_nanos() }
}

/// The year, month and day of the date that chrono's
/// `NaiveDate::parse_from_str(text, "%Y-%m-%d")` reads, or the message its
/// `ParseError` displays. A `NaiveDate` always holds an existing day in
/// chrono's range, so a date that comes back is a valid calendar date.
#[verifier::external_body]
pub fn parse_iso_date(text: &str) -> (r: Result<(i32, u32, u32), String>)
    ensures
        match (r, chrono_ymd_parse(text@)) {
            (Ok(x), Ok(y)) => x == y,
            (Err(m), Err(t)) => m@ == t,
            _ => false,
        },
        r.is_ok() ==> valid_calendar_date(r.unwrap().0 as int, r.unwrap().1 as int, r.unwrap().2 as int),
{
    match NaiveDate::parse_from_str(text, "%Y-%m-%d") {
        Ok(nd) => Ok((nd.year(), nd.month(), nd.day())),
        Err(e) => Err(e.to_string()),
    }
}

/// The year number of chrono's `year_ce().1`: the year itself from year 1
/// on, and `1 - year` for the years before it.
pub open spec fn ce_year(year: int) -> int {
    if year >= 1 {
        year
    } else {
        1 - year
    }
}

/// Why an expiration date typed by a user was refused.
#[derive(Debug, PartialEq, Eq)]
pub enum ExpiryError {
    /// The text is not a date in the form `YYYY-MM-DD`; chrono's message.
    Unparsable(String),
    /// The date does not exist at 20:00 UTC in chrono's calendar.
    InvalidDate,
}

/// The view of an expiry outcome: the moment's seconds, the parse message, or
/// `None` for an invalid date.
pub open spec fn spec_expiry_from_parsed(parsed: Result<(i32, u32, u32), Seq<char>>) -> Result<
    i64,
    Option<Seq<char>>,
> {
    match parsed {
        Err(m) => Err(Some(m)),
        Ok((y, m, d)) => if valid_calendar_date(ce_year(y as int), m as int, d as int) {
            Ok(utc_timestamp(ce_year(y as int) as i32, m, d, 20, 0, 0))
        } else {
            Err(None)
        },
    }
}

/// Whether an expiry outcome is the one the spec describes.
pub open spec fn expiry_matches(r: Result<Moment, ExpiryError>, s: Result<i64, Option<Seq<char>>>) -> bool {
    match (r, s) {
        (Ok(t), Ok(secs)) => t.secs == secs && t.nanos == 0,
        (Err(ExpiryError::Unparsable(m)), Err(Some(t))) => m@ == t,
        (Err(ExpiryError::InvalidDate), Err(None)) => true,
        _ => false,
    }
}

/// The expiration moment of a parsed date: 20:00 UTC on that day, the year
/// taken as its `year_ce` number (so a year before 1 turns into `1 - year`).
pub fn expiry_from_parsed(parsed: Result<(i32, u32, u32), String>) -> (r: Result<Moment, ExpiryError>)
    requires
        parsed.is_ok() ==> valid_calendar_date(parsed.unwrap().0 as int, parsed.unwrap().1 as int, parsed.unwrap().2 as int),
    ensures
        expiry_matches(
            r,
            spec_expiry_from_parsed(
                match parsed {
                    Ok(x) => Ok(x),
                    Err(m) => Err(m@),
                },
            ),
        ),
{
    match parsed {
        Err(m) => Err(ExpiryError::Unparsable(m)),
        Ok((y, m, d)) => {
            let ce: i32 = if y >= 1 {
                y
            } else {
                1 - y
            };
            match utc_at(ce, m, d, 20, 0, 0) {
                Some(t) => Ok(t),
                None => Err(ExpiryError::InvalidDate),
            }
        },
    }
}

/// The expiration moment for a date typed as `YYYY-MM-DD`: 20:00 UTC on that day.
pub fn expiry_from_text(text: &str) -> (r: Result<Moment, ExpiryError>)
    ensures
        expiry_matches(r, spec_expiry_from_parsed(chrono_ymd_parse(text@))),
{
    let parsed = parse_iso_date(text);
    expiry_from_parsed(parsed)
}

/// Why a new opening date was refused.
#[derive(Clone, Copy, Debug, PartialEq, Eq, Structural)]
pub enum DateEditError {
    /// A field is not a number of its type (`i32` year, `u32` month and day):
    /// the first such field's error.
    InvalidNumber(IntParseError),
    /// The resulting day does not exist in chrono's calendar.
    InvalidDate,
}

/// The new value of one date field: the typed text parsed, or the current value
/// where nothing was typed.
pub open spec fn field_or<T>(
    typed: Option<Seq<char>>,
    parse: spec_fn(Seq<char>) -> Result<T, IntParseError>,
    current: T,
) -> Result<T, IntParseError> {
    match typed {
        Some(t) => parse(t),
        None => Ok(current),
    }
}

/// The outcome of editing an opening date whose current day is `current`:
/// `Ok(None)` when no field was typed, `Ok(Some(secs))` for 17:00 UTC on the
/// edited day, or the error (of the year, then the month, then the day).
pub open spec fn spec_edited_date(
    current: (i32, u32, u32),
    year: Option<Seq<char>>,
    month: Option<Seq<char>>,
    day: Option<Seq<char>>,
) -> Result<Option<i64>, DateEditError> {
    let y = field_or(year, |t: Seq<char>| spec_i32_result(t), current.0);
    let m = field_or(month, |t: Seq<char>| spec_u32_result(t), current.1);
    let d = field_or(day, |t: Seq<char>| spec_u32_result(t), current.2);
    match (y, m, d) {
        (Err(e), _, _) => Err(DateEditError::InvalidNumber(e)),
        (Ok(_), Err(e), _) => Err(DateEditError::InvalidNumber(e)),
        (Ok(_), Ok(_), Err(e)) => Err(DateEditError::InvalidNumber(e)),
        (Ok(yv), Ok(mv), Ok(dv)) => if year is None && month is None && day is None {
            Ok(None)
        } else if valid_calendar_date(yv as int, mv as int, dv as int) {
            Ok(Some(utc_timestamp(yv, mv, dv, 17, 0, 0)))
        } else {
            Err(DateEditError::InvalidDate)
        },
    }
}

/// The view of an optional typed field.
pub open spec fn opt_text(s: Option<String>) -> Option<Seq<char>> {
    match s {
        Some(t) => Some(t@),
        None => None,
    }
}

/// Edits a day: each typed field replaces the current year, month or day;
/// when at least one was typed the result is 17:00 UTC on the new day.
pub fn edited_date(
    current: (i32, u32, u32),
    year: Option<String>,
    month: Option<String>,
    day: Option<String>,
) -> (r: Result<Option<Moment>, DateEditError>)
    ensures
        match (r, spec_edited_date(current, opt_text(year), opt_text(month), opt_text(day))) {
            (Ok(None), Ok(None)) => true,
            (Ok(Some(t)), Ok(Some(secs))) => t.secs == secs && t.nanos == 0,
            (Err(e), Err(f)) => e == f,
            _ => false,
        },
{
    let (mut cur_year, mut cur_month, mut cur_day) = current;
    let mut updated_fields = false;
    let ghost ty = opt_text(year);
    let ghost tm = opt_text(month);
    let ghost td = opt_text(day);
    if let Some(y) = year {
        match parse_i32(y.as_str()) {
            Ok(v) => cur_year = v,
            Err(e) => return Err(DateEditError::InvalidNumber(e)),
        }
        updated_fields = true;
    }
    if let Some(m) = month {
        match parse_u32(m.as_str()) {
            Ok(v) => cur_month = v,
            Err(e) => return Err(DateEditError::InvalidNumber(e)),
        }
        updated_fields = true;
    }
    if let Some(d) = day {
        match parse_u32(d.as_str()) {
            Ok(v) => cur_day = v,
            Err(e) => return Err(DateEditError::InvalidNumber(e)),
        }
        updated_fields = true;
    }
    if updated_fields {
        match utc_at(cur_year, cur_month, cur_day, 17, 0, 0) {
            Some(t) => Ok(Some(t)),
            None => Err(DateEditError::InvalidDate),
        }
    } else {
        Ok(None)
    }
}

} // verus!
