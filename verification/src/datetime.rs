//! The computations of the `datetime` module: reading a date-time in one of the
//! accepted forms, its ISO 8601 text, and its calendar fields.

use vstd::prelude::*;
use crate::calendar_date::{civil_from_days, days_from_civil, leap_years_through, valid_date, is_leap_year};
use crate::text::{decimal, push_decimal, push_str_chars, str_chars, str_eq, string_of, trim, trim_str, zero_pad};
use std::fmt::Write;
use chrono::{DateTime, Datelike, NaiveDate, NaiveDateTime, NaiveTime, TimeZone, Utc};

verus! {

// ── Instants ─────────────────────────────────────────────────────────

/// A point of time in UTC: whole seconds since 1970-01-01T00:00:00Z and the
/// nanoseconds within the second (1_000_000_000 and more during a leap second).
#[derive(Debug, Clone, Copy, PartialEq, Eq, Structural)]
pub struct UtcInstant {
    pub secs: i64,
    pub nanos: u32,
}

/// The first year that chrono's dates reach.
pub open spec fn min_year() -> int {
    -262143
}

/// The last year that chrono's dates reach.
pub open spec fn max_year() -> int {
    262142
}

/// What `DateTime::parse_from_rfc3339` gives for a text, as seconds and
/// nanoseconds of the instant in UTC.
pub uninterp spec fn rfc3339_instant(s: Seq<char>) -> Option<(int, int)>;

/// What `DateTime::parse_from_rfc2822` gives for a text, as seconds and
/// nanoseconds of the instant in UTC.
pub uninterp spec fn rfc2822_instant(s: Seq<char>) -> Option<(int, int)>;

/// What `NaiveDateTime::parse_from_str` gives for a text and a format, as
/// seconds and nanoseconds of that date and time taken in UTC.
pub uninterp spec fn naive_datetime_instant(s: Seq<char>, fmt: Seq<char>) -> Option<(int, int)>;

/// What `NaiveDate::parse_from_str` gives for a text and a format, as year,
/// month and day.
pub uninterp spec fn naive_date_parts(s: Seq<char>, fmt: Seq<char>) -> Option<(int, int, int)>;

/// `DateTime::parse_from_rfc3339` from chrono, converted to UTC; named by
/// `rfc3339_instant`. Chrono's dates lie within about 262,000 years of the
/// common era, so the seconds are below 9 * 10^12 in size, and the
/// nanoseconds (a leap second included) below 2 * 10^9.
#[verifier::external_body]
pub(crate) fn parse_rfc3339(s: &str) -> (r: Option<(i64, u32)>)
    ensures
        match rfc3339_instant(s@) {
            Some((a, b)) => r == Some((a as i64, b as u32)) && a == a as i64 && b == b as u32,
            None => r is None,
        },
        r matches Some((a, b)) ==> -9_000_000_000_000 <= a <= 9_000_000_000_000 && b < 2_000_000_000,
{
    DateTime::parse_from_rfc3339(s).ok().map(|dt| {
        let u = dt.with_timezone(&Utc);
        (u.timestamp(), u.timestamp_subsec_nanos())
    })
}

/// `DateTime::parse_from_rfc2822` from chrono, converted to UTC; named by
/// `rfc2822_instant`.
#[verifier::external_body]
fn parse_rfc2822(s: &str) -> (r: Option<(i64, u32)>)
    ensures
        match rfc2822_instant(s@) {
            Some((a, b)) => r == Some((a as i64, b as u32)) && a == a as i64 && b == b as u32,
            None => r is None,
        },
{
    DateTime::parse_from_rfc2822(s).ok().map(|dt| {
        let u = dt.with_timezone(&Utc);
        (u.timestamp(), u.timestamp_subsec_nanos())
    })
}

/// `NaiveDateTime::parse_from_str` from chrono, taken in UTC; named by
/// `naive_datetime_instant`.
#[verifier::external_body]
fn parse_naive_datetime(s: &str, fmt: &str) -> (r: Option<(i64, u32)>)
    ensures
        match naive_datetime_instant(s@, fmt@) {
            Some((a, b)) => r == Some((a as i64, b as u32)) && a == a as i64 && b == b as u32,
            None => r is None,
        },
{
    NaiveDateTime::parse_from_str(s, fmt).ok().map(|ndt| {
        let u = Utc.from_utc_datetime(&ndt);
        (u.timestamp(), u.timestamp_subsec_nanos())
    })
}

/// `NaiveDate::parse_from_str` from chrono; named by `naive_date_parts`. A
/// `NaiveDate` is a valid date of the years chrono supports.
#[verifier::external_body]
fn parse_naive_date(s: &str, fmt: &str) -> (r: Option<(i32, u32, u32)>)
    ensures
        match naive_date_parts(s@, fmt@) {
            Some((y, m, d)) => r == Some((y as i32, m as u32, d as u32)) && valid_date(y, m, d)
                && min_year() <= y <= max_year(),
            None => r is None,
        },
{
    NaiveDate::parse_from_str(s, fmt).ok().map(|d| (d.year(), d.month(), d.day()))
}

/// The instant of midnight UTC at the start of a date.
pub open spec fn midnight(y: int, m: int, d: int) -> (int, int) {
    (days_from_civil(y, m, d) * 86400, 0)
}

fn floor_div(a: i64, b: i64) -> (r: i64)
    requires
        b > 0,
    ensures
        r == a as int / b as int,
{
    assert(i64::MIN <= a as int / b as int <= i64::MAX) by (nonlinear_arith)
        requires
            b > 0,
            i64::MIN <= a <= i64::MAX,
    {
        if a >= 0 {
            assert(0 <= a as int / b as int <= a);
        } else {
            assert(a <= a as int / b as int <= 0);
        }
    }
    a.checked_div_euclid(b).unwrap()
}

/// The day number of a valid date of the years chrono supports.
fn days_from_civil_exec(y: i32, m: u32, d: u32) -> (r: i64)
    requires
        valid_date(y as int, m as int, d as int),
        min_year() <= y <= max_year(),
    ensures
        r == days_from_civil(y as int, m as int, d as int),
{
    let y = y as i64;
    let l1 = floor_div(y - 1, 4) - floor_div(y - 1, 100) + floor_div(y - 1, 400);
    let l0: i64 = 477;
    assert(leap_years_through(1969) == 477);
    let common: i64 = if m == 1 {
        0
    } else if m == 2 {
        31
    } else if m == 3 {
        59
    } else if m == 4 {
        90
    } else if m == 5 {
        120
    } else if m == 6 {
        151
    } else if m == 7 {
        181
    } else if m == 8 {
        212
    } else if m == 9 {
        243
    } else if m == 10 {
        273
    } else if m == 11 {
        304
    } else {
        334
    };
    let leap = floor_div(y, 4) * 4 == y && (floor_div(y, 100) * 100 != y || floor_div(y, 400) * 400 == y);
    assert(leap == is_leap_year(y as int));
    let extra: i64 = if m > 2 && leap {
        1
    } else {
        0
    };
    365 * (y - 1970) + (l1 - l0) + common + extra + d as i64 - 1
}

fn midnight_exec(y: i32, m: u32, d: u32) -> (r: UtcInstant)
    requires
        valid_date(y as int, m as int, d as int),
        min_year() <= y <= max_year(),
    ensures
        (r.secs as int, r.nanos as int) == midnight(y as int, m as int, d as int),
{
    let days = days_from_civil_exec(y, m, d);
    proof {
        lemma_days_bounds(y as int, m as int, d as int);
    }
    UtcInstant { secs: days * 86400, nanos: 0 }
}

proof fn lemma_days_bounds(y: int, m: int, d: int)
    requires
        valid_date(y, m, d),
        min_year() <= y <= max_year(),
    ensures
        -100_000_000 <= days_from_civil(y, m, d) <= 100_000_000,
{
}

// ── Reading ──────────────────────────────────────────────────────────

/// The error for a text that no accepted form reads.
pub open spec fn parse_error(t: Seq<char>) -> Seq<char> {
    "datetime.parse: could not parse '"@ + t
        + "' — try providing an explicit format string"@
}

/// The instant of a date-only reading.
pub open spec fn date_reading(p: Option<(int, int, int)>) -> Option<(int, int)> {
    match p {
        Some((y, m, d)) => Some(midnight(y, m, d)),
        None => None,
    }
}

/// The first of the readings that succeeds, tried in order.
pub open spec fn first_reading(rs: Seq<Option<(int, int)>>) -> Option<(int, int)>
    decreases rs.len(),
{
    if rs.len() == 0 {
        None
    } else if rs[0] is Some {
        rs[0]
    } else {
        first_reading(rs.drop_first())
    }
}

/// The readings of a trimmed text that `parse_datetime` tries, in order:
/// RFC 3339, date and time with `T` or a space (with or without fractional
/// seconds, taken in UTC), a date (`Y-m-d`, `m/d/Y`, `d.m.Y`, or a month name
/// as in `March 10, 2026`, at midnight UTC), and RFC 2822.
pub open spec fn readings(t: Seq<char>) -> Seq<Option<(int, int)>> {
    seq![
        rfc3339_instant(t),
        naive_datetime_instant(t, "%Y-%m-%dT%H:%M:%S"@),
        naive_datetime_instant(t, "%Y-%m-%dT%H:%M:%S%.f"@),
        naive_datetime_instant(t, "%Y-%m-%d %H:%M:%S"@),
        naive_datetime_instant(t, "%Y-%m-%d %H:%M:%S%.f"@),
        date_reading(naive_date_parts(t, "%Y-%m-%d"@)),
        date_reading(naive_date_parts(t, "%m/%d/%Y"@)),
        date_reading(naive_date_parts(t, "%d.%m.%Y"@)),
        date_reading(naive_date_parts(t, "%B %d, %Y"@)),
        rfc2822_instant(t),
    ]
}

/// A date written with slashes reads month first, then day, then year (as
/// `03/04/2024` is the fourth of March), at midnight UTC, whenever the forms
/// tried before it (RFC 3339, the date-and-time forms, year-month-day) do
/// not read the text.
pub proof fn law_slash_dates_are_month_first(s: Seq<char>, y: int, m: int, d: int)
    requires
        rfc3339_instant(trim(s)) is None,
        naive_datetime_instant(trim(s), "%Y-%m-%dT%H:%M:%S"@) is None,
        naive_datetime_instant(trim(s), "%Y-%m-%dT%H:%M:%S%.f"@) is None,
        naive_datetime_instant(trim(s), "%Y-%m-%d %H:%M:%S"@) is None,
        naive_datetime_instant(trim(s), "%Y-%m-%d %H:%M:%S%.f"@) is None,
        naive_date_parts(trim(s), "%Y-%m-%d"@) is None,
        naive_date_parts(trim(s), "%m/%d/%Y"@) == Some((y, m, d)),
    ensures
        parse_datetime_spec(s) == Ok::<(int, int), Seq<char>>((days_from_civil(y, m, d) * 86400, 0)),
{
    reveal_with_fuel(first_reading, 8);
}

/// A text that RFC 3339 reads is read that way, before any other form.
pub proof fn law_rfc3339_read_first(s: Seq<char>)
    requires
        rfc3339_instant(trim(s)) is Some,
    ensures
        parse_datetime_spec(s) == Ok::<(int, int), Seq<char>>(rfc3339_instant(trim(s))->0),
{
}

/// A date written year-month-day reads as that date at midnight UTC whenever
/// RFC 3339 and the date-and-time forms do not read the text.
pub proof fn law_iso_dates_read_at_midnight(s: Seq<char>, y: int, m: int, d: int)
    requires
        rfc3339_instant(trim(s)) is None,
        naive_datetime_instant(trim(s), "%Y-%m-%dT%H:%M:%S"@) is None,
        naive_datetime_instant(trim(s), "%Y-%m-%dT%H:%M:%S%.f"@) is None,
        naive_datetime_instant(trim(s), "%Y-%m-%d %H:%M:%S"@) is None,
        naive_datetime_instant(trim(s), "%Y-%m-%d %H:%M:%S%.f"@) is None,
        naive_date_parts(trim(s), "%Y-%m-%d"@) == Some((y, m, d)),
    ensures
        parse_datetime_spec(s) == Ok::<(int, int), Seq<char>>((days_from_civil(y, m, d) * 86400, 0)),
{
    reveal_with_fuel(first_reading, 7);
}

/// A date written with dots reads day first, then month, then year (as
/// `04.03.2024` is the fourth of March), at midnight UTC, whenever the forms
/// tried before it do not read the text.
pub proof fn law_dotted_dates_are_day_first(s: Seq<char>, y: int, m: int, d: int)
    requires
        rfc3339_instant(trim(s)) is None,
        naive_datetime_instant(trim(s), "%Y-%m-%dT%H:%M:%S"@) is None,
        naive_datetime_instant(trim(s), "%Y-%m-%dT%H:%M:%S%.f"@) is None,
        naive_datetime_instant(trim(s), "%Y-%m-%d %H:%M:%S"@) is None,
        naive_datetime_instant(trim(s), "%Y-%m-%d %H:%M:%S%.f"@) is None,
        naive_date_parts(trim(s), "%Y-%m-%d"@) is None,
        naive_date_parts(trim(s), "%m/%d/%Y"@) is None,
        naive_date_parts(trim(s), "%d.%m.%Y"@) == Some((y, m, d)),
    ensures
        parse_datetime_spec(s) == Ok::<(int, int), Seq<char>>((days_from_civil(y, m, d) * 86400, 0)),
{
    reveal_with_fuel(first_reading, 9);
}

/// What `parse_datetime` returns for a text.
pub open spec fn parse_datetime_spec(s: Seq<char>) -> Result<(int, int), Seq<char>> {
    let t = trim(s);
    match first_reading(readings(t)) {
        Some(i) => Ok(i),
        None => Err(parse_error(t)),
    }
}

/// The view of a parse result.
pub open spec fn instant_result(r: Result<UtcInstant, String>) -> Result<(int, int), Seq<char>> {
    match r {
        Ok(i) => Ok((i.secs as int, i.nanos as int)),
        Err(e) => Err(e@),
    }
}

fn instant_of(p: (i64, u32)) -> (r: UtcInstant)
    ensures
        r.secs == p.0 && r.nanos == p.1,
{
    UtcInstant { secs: p.0, nanos: p.1 }
}

/// Read a date-time in one of the accepted forms (see `readings`); the text is
/// trimmed first.
pub fn parse_datetime(s: &str) -> (r: Result<UtcInstant, String>)
    ensures
        instant_result(r) == parse_datetime_spec(s@),
{
    let tv = trim_str(s);
    let t = string_of(&tv);
    let ts = t.as_str();
    let ghost rs = readings(ts@);
    reveal_with_fuel(first_reading, 11);
    if let Some(p) = parse_rfc3339(ts) {
        return Ok(instant_of(p));
    }
    if let Some(p) = parse_naive_datetime(ts, "%Y-%m-%dT%H:%M:%S") {
        return Ok(instant_of(p));
    }
    if let Some(p) = parse_naive_datetime(ts, "%Y-%m-%dT%H:%M:%S%.f") {
        return Ok(instant_of(p));
    }
    if let Some(p) = parse_naive_datetime(ts, "%Y-%m-%d %H:%M:%S") {
        return Ok(instant_of(p));
    }
    if let Some(p) = parse_naive_datetime(ts, "%Y-%m-%d %H:%M:%S%.f") {
        return Ok(instant_of(p));
    }
    if let Some((y, m, d)) = parse_naive_date(ts, "%Y-%m-%d") {
        return Ok(midnight_exec(y, m, d));
    }
    if let Some((y, m, d)) = parse_naive_date(ts, "%m/%d/%Y") {
        return Ok(midnight_exec(y, m, d));
    }
    if let Some((y, m, d)) = parse_naive_date(ts, "%d.%m.%Y") {
        return Ok(midnight_exec(y, m, d));
    }
    if let Some((y, m, d)) = parse_naive_date(ts, "%B %d, %Y") {
        return Ok(midnight_exec(y, m, d));
    }
    if let Some(p) = parse_rfc2822(ts) {
        return Ok(instant_of(p));
    }
    let mut e = str_chars("datetime.parse: could not parse '");
    push_str_chars(&mut e, ts);
    push_str_chars(&mut e, "' — try providing an explicit format string");
    Err(string_of(&e))
}

/// What `parse_datetime_with_fmt` returns for a text and a format: the text
/// (trimmed) read as a date and time in UTC, else as a date at midnight UTC,
/// else the error.
pub open spec fn parse_with_format_spec(s: Seq<char>, fmt: Seq<char>) -> Result<(int, int), Seq<char>> {
    let t = trim(s);
    match naive_datetime_instant(t, fmt) {
        Some(i) => Ok(i),
        None => match date_reading(naive_date_parts(t, fmt)) {
            Some(i) => Ok(i),
            None => Err("datetime.parse: could not parse '"@ + t + "' with format '"@ + fmt + "'"@),
        },
    }
}

/// Read a date-time with an explicit chrono format.
pub fn parse_datetime_with_fmt(s: &str, fmt: &str) -> (r: Result<UtcInstant, String>)
    ensures
        instant_result(r) == parse_with_format_spec(s@, fmt@),
{
    let tv = trim_str(s);
    let t = string_of(&tv);
    let ts = t.as_str();
    if let Some(p) = parse_naive_datetime(ts, fmt) {
        return Ok(instant_of(p));
    }
    if let Some((y, m, d)) = parse_naive_date(ts, fmt) {
        return Ok(midnight_exec(y, m, d));
    }
    let mut e = str_chars("datetime.parse: could not parse '");
    push_str_chars(&mut e, ts);
    push_str_chars(&mut e, "' with format '");
    push_str_chars(&mut e, fmt);
    push_str_chars(&mut e, "'");
    Err(string_of(&e))
}

// ── Fields and text ──────────────────────────────────────────────────

/// The day number of an instant.
pub open spec fn day_of(i: UtcInstant) -> int {
    i.secs as int / 86400
}

/// The seconds of an instant within its day.
pub open spec fn second_of_day(i: UtcInstant) -> int {
    i.secs as int % 86400
}

/// Whether `(y, m, d)` is the date of the instant.
pub open spec fn is_date_of(i: UtcInstant, y: int, m: int, d: int) -> bool {
    valid_date(y, m, d) && days_from_civil(y, m, d) == day_of(i)
}

/// The date `(year, month, day)` of an instant.
pub fn date_of(i: UtcInstant) -> (r: (i64, u64, u64))
    ensures
        is_date_of(i, r.0 as int, r.1 as int, r.2 as int),
{
    let days = floor_div(i.secs, 86400);
    civil_from_days(days)
}

/// The day of the week of an instant, Monday being 0 (chrono's
/// `weekday().num_days_from_monday()`: the epoch fell on a Thursday).
pub fn weekday(i: UtcInstant) -> (r: u32)
    ensures
        r as int == (day_of(i) + 3) % 7,
{
    let days = floor_div(i.secs, 86400);
    let k = floor_div(days + 3, 7);
    (days + 3 - k * 7) as u32
}

/// The hour, minute and second of an instant (a leap second shows as second 59).
pub fn time_of(i: UtcInstant) -> (r: (u32, u32, u32))
    ensures
        r.0 as int == second_of_day(i) / 3600,
        r.1 as int == second_of_day(i) % 3600 / 60,
        r.2 as int == second_of_day(i) % 60,
{
    let s = i.secs.checked_rem_euclid(86400).unwrap();
    ((s / 3600) as u32, (s % 3600 / 60) as u32, (s % 60) as u32)
}

/// A year as chrono's `%Y` prints it: four digits within 0..=9999, otherwise
/// a sign and at least four digits.
pub open spec fn chrono_year_text(y: int) -> Seq<char> {
    if 0 <= y <= 9999 {
        zero_pad(decimal(y as nat), 4)
    } else if y > 9999 {
        seq!['+'] + decimal(y as nat)
    } else {
        seq!['-'] + zero_pad(decimal((-y) as nat), 4)
    }
}

/// Two digits.
pub open spec fn two_digits(n: int) -> Seq<char> {
    zero_pad(decimal(n as nat), 2)
}

/// The ISO 8601 text `YYYY-MM-DDTHH:MM:SSZ` of an instant in the date
/// `(y, m, d)`; a leap second shows as second 60.
pub open spec fn iso_text(i: UtcInstant, y: int, m: int, d: int) -> Seq<char> {
    let s = second_of_day(i);
    chrono_year_text(y) + "-"@ + two_digits(m) + "-"@ + two_digits(d) + "T"@ + two_digits(s / 3600)
        + ":"@ + two_digits(s % 3600 / 60) + ":"@ + two_digits(
        s % 60 + if i.nanos >= 1_000_000_000 {
            1int
        } else {
            0int
        },
    ) + "Z"@
}

/// Whether chrono represents the instant: its date lies in chrono's years,
/// and nanoseconds of 1_000_000_000 or more (a leap second) come only in the
/// last second of a minute.
pub open spec fn chrono_instant(i: UtcInstant) -> bool {
    &&& secs_in_range(i.secs as int)
    &&& i.nanos < 2_000_000_000
    &&& i.nanos >= 1_000_000_000 ==> second_of_day(i) % 60 == 59
}

/// `DateTime::from_timestamp` and `format("%Y-%m-%dT%H:%M:%SZ")` from chrono:
/// `None` for an instant chrono does not represent (see `chrono_instant`),
/// else the text of the instant in its proleptic Gregorian date (a year
/// outside 0..=9999 with a sign and more digits, a leap second as second 60).
#[verifier::external_body]
fn chrono_iso(i: UtcInstant) -> (r: Option<String>)
    ensures
        match r {
            Some(s) => chrono_instant(i) && exists|y: int, m: int, d: int|
                #[trigger] is_date_of(i, y, m, d) && s@ == iso_text(i, y, m, d),
            None => !chrono_instant(i),
        },
{
    DateTime::<Utc>::from_timestamp(i.secs, i.nanos).map(|dt| dt.format("%Y-%m-%dT%H:%M:%SZ").to_string())
}

/// Whether chrono represents the instant; see `chrono_instant`.
pub fn is_chrono_instant(i: UtcInstant) -> (r: bool)
    ensures
        r == chrono_instant(i),
{
    chrono_iso(i).is_some()
}

/// The ISO 8601 text `YYYY-MM-DDTHH:MM:SSZ` of an instant (chrono's format
/// `%Y-%m-%dT%H:%M:%SZ`).
pub fn to_iso(i: UtcInstant) -> (r: String)
    requires
        chrono_instant(i),
    ensures
        exists|y: int, m: int, d: int| #[trigger] is_date_of(i, y, m, d) && r@ == iso_text(i, y, m, d),
{
    match chrono_iso(i) {
        Some(s) => s,
        None => {
            proof {
                assert(false);
            }
            String::new()
        },
    }
}

// ── Making a date ────────────────────────────────────────────────────

/// `NaiveDate::from_ymd_opt` from chrono, at midnight UTC
/// (`and_time(NaiveTime::MIN).and_utc().timestamp()`): the seconds since the
/// epoch of a valid date in the years chrono supports, else `None`.
#[verifier::external_body]
fn chrono_date_midnight(year: i32, month: u32, day: u32) -> (r: Option<i64>)
    ensures
        match r {
            Some(s) => valid_date(year as int, month as int, day as int) && min_year() <= year <= max_year()
                && s == days_from_civil(year as int, month as int, day as int) * 86400,
            None => !(valid_date(year as int, month as int, day as int) && min_year() <= year
                <= max_year()),
        },
{
    NaiveDate::from_ymd_opt(year, month, day).map(|d| d.and_time(NaiveTime::MIN).and_utc().timestamp())
}

proof fn lemma_midnight_in_range(y: int, m: int, d: int)
    requires
        valid_date(y, m, d),
        min_year() <= y <= max_year(),
    ensures
        secs_in_range(days_from_civil(y, m, d) * 86400),
{
    assert(leap_years_through(-262144) == -63570);
    assert(leap_years_through(262141) == 63569);
    assert(leap_years_through(1969) == 477);
    assert(is_leap_year(262142) == false);
    assert(min_instant_secs() == -8334601228800);
    assert(max_instant_secs() == 8210266876799);
}

/// What `datetime.date` returns: the ISO text of midnight UTC of a valid date
/// of the years chrono supports, or the error.
pub fn date_iso(year: i32, month: u32, day: u32) -> (r: Result<String, String>)
    ensures
        (valid_date(year as int, month as int, day as int) && min_year() <= year <= max_year())
            ==> (r matches Ok(s) && s@ == iso_text(
            UtcInstant {
                secs: (days_from_civil(year as int, month as int, day as int) * 86400) as i64,
                nanos: 0,
            },
            year as int,
            month as int,
            day as int,
        )),
        !(valid_date(year as int, month as int, day as int) && min_year() <= year <= max_year())
            ==> (r matches Err(e) && e@ == "datetime.date: invalid date "@ + int_text(year as int)
            + "-"@ + decimal(month as nat) + "-"@ + decimal(day as nat)),
{
    match chrono_date_midnight(year, month, day) {
        Some(secs) => {
            let inst = UtcInstant { secs, nanos: 0 };
            proof {
                lemma_midnight_in_range(year as int, month as int, day as int);
            }
            let text = to_iso(inst);
            proof {
                let (y, m, d) = choose|y: int, m: int, d: int|
                    #[trigger] is_date_of(inst, y, m, d) && text@ == iso_text(inst, y, m, d);
                assert(is_date_of(inst, year as int, month as int, day as int));
                crate::calendar_date::law_days_from_civil_injective(
                    y,
                    m,
                    d,
                    year as int,
                    month as int,
                    day as int,
                );
            }
            return Ok(text);
        },
        None => {},
    }
    let mut e = str_chars("datetime.date: invalid date ");
    if year < 0 {
        e.push('-');
        push_decimal(&mut e, (-(year as i64)) as u64);
    } else {
        push_decimal(&mut e, year as u64);
    }
    push_str_chars(&mut e, "-");
    push_decimal(&mut e, month as u64);
    push_str_chars(&mut e, "-");
    push_decimal(&mut e, day as u64);
    Err(string_of(&e))
}

/// The decimal text of an integer, with `-` before a negative one.
pub open spec fn int_text(n: int) -> Seq<char> {
    if n >= 0 {
        decimal(n as nat)
    } else {
        seq!['-'] + decimal((-n) as nat)
    }
}

// ── Arithmetic and formatting ────────────────────────────────────────

/// The first second of chrono's range, -262143-01-01T00:00:00Z.
pub open spec fn min_instant_secs() -> int {
    days_from_civil(min_year(), 1, 1) * 86400
}

/// The last second of chrono's range, +262142-12-31T23:59:59Z.
pub open spec fn max_instant_secs() -> int {
    days_from_civil(max_year(), 12, 31) * 86400 + 86399
}

/// Whether an instant's second lies in chrono's range.
pub open spec fn secs_in_range(secs: int) -> bool {
    min_instant_secs() <= secs <= max_instant_secs()
}

/// The whole seconds of a duration of days, hours, minutes and seconds.
pub open spec fn duration_secs(days: int, hours: int, minutes: int, seconds: int) -> int {
    86400 * days + 3600 * hours + 60 * minutes + seconds
}

/// The seconds and nanoseconds of `i` moved by `total` whole seconds, as
/// chrono adds a duration: an instant inside a leap second leaves it (to the
/// next second forward, to the same second of the minute backward).
pub open spec fn moved_by(i: UtcInstant, total: int) -> (int, int) {
    if i.nanos >= 1_000_000_000 && total > 0 {
        (i.secs + total, i.nanos - 1_000_000_000)
    } else if i.nanos >= 1_000_000_000 && total < 0 {
        (i.secs + 1 + total, i.nanos - 1_000_000_000)
    } else {
        (i.secs + total, i.nanos as int)
    }
}

/// Adding a duration to an instant outside a leap second moves it by exactly
/// 86400 seconds a day, 3600 an hour and 60 a minute, whatever the signs,
/// and keeps its nanoseconds.
pub proof fn law_add_moves_by_duration(i: UtcInstant, days: int, hours: int, minutes: int, seconds: int)
    requires
        i.nanos < 1_000_000_000,
    ensures
        moved_by(i, duration_secs(days, hours, minutes, seconds)) == (
            i.secs + 86400 * days + 3600 * hours + 60 * minutes + seconds,
            i.nanos as int,
        ),
{
}

/// Adding a duration and then its negation gives back an instant outside a
/// leap second (when the first sum stays in chrono's range), and adding `-d`
/// days lands `2 * 86400 * d` seconds before adding `d` days.
pub proof fn law_add_then_subtract(i: UtcInstant, days: int, hours: int, minutes: int, seconds: int)
    requires
        i.nanos < 1_000_000_000,
        secs_in_range(i.secs + duration_secs(days, hours, minutes, seconds)),
    ensures
        ({
            let (s, n) = moved_by(i, duration_secs(days, hours, minutes, seconds));
            moved_by(
                UtcInstant { secs: s as i64, nanos: n as u32 },
                duration_secs(-days, -hours, -minutes, -seconds),
            ) == (i.secs as int, i.nanos as int)
        }),
        moved_by(i, duration_secs(-days, 0, 0, 0)).0 + 172800 * days == moved_by(
            i,
            duration_secs(days, 0, 0, 0),
        ).0,
{
    assert(leap_years_through(-262144) == -63570);
    assert(leap_years_through(262141) == 63569);
    assert(leap_years_through(1969) == 477);
    assert(is_leap_year(262142) == false);
    assert(min_instant_secs() == -8334601228800);
    assert(max_instant_secs() == 8210266876799);
    assert(duration_secs(-days, 0, 0, 0) == -86400 * days);
    assert(duration_secs(days, 0, 0, 0) == 86400 * days);
    assert(moved_by(i, -86400 * days) == (i.secs - 86400 * days, i.nanos as int));
    assert(moved_by(i, 86400 * days) == (i.secs + 86400 * days, i.nanos as int));
    assert(moved_by(i, duration_secs(-days, 0, 0, 0)).0 == i.secs - 86400 * days);
    assert(moved_by(i, duration_secs(days, 0, 0, 0)).0 == i.secs + 86400 * days);
}

/// Chrono's range of instants runs from -262143-01-01T00:00:00Z, which is
/// -8334601228800 seconds from the epoch, to +262142-12-31T23:59:59Z, which
/// is 8210266876799 seconds from it; `datetime.add` succeeds exactly inside.
pub proof fn law_chrono_range(secs: int)
    ensures
        secs_in_range(secs) <==> -8334601228800 <= secs <= 8210266876799,
{
    assert(leap_years_through(-262144) == -63570);
    assert(leap_years_through(262141) == 63569);
    assert(leap_years_through(1969) == 477);
    assert(is_leap_year(262142) == false);
    assert(min_instant_secs() == -8334601228800);
    assert(max_instant_secs() == 8210266876799);
}

/// `datetime.add`: the instant `i` moved by a duration of days, hours,
/// minutes and seconds, or an error when the result leaves chrono's range.
/// What chrono's `DateTime + TimeDelta` does on an instant is stated whole by
/// `moved_by` and `secs_in_range`; this computes it on the plain fields.
pub fn datetime_add(i: UtcInstant, days: i64, hours: i64, minutes: i64, seconds: i64) -> (r: Result<UtcInstant, String>)
    ensures
        ({
            let (s, n) = moved_by(i, duration_secs(days as int, hours as int, minutes as int, seconds as int));
            &&& secs_in_range(s) ==> r == Ok::<UtcInstant, String>(UtcInstant { secs: s as i64, nanos: n as u32 })
            &&& !secs_in_range(s) ==> (r matches Err(e) && e@ == "datetime.add: result out of range"@)
        }),
{
    assert(leap_years_through(-262144) == -63570);
    assert(leap_years_through(262141) == 63569);
    assert(leap_years_through(1969) == 477);
    assert(is_leap_year(262142) == false);
    assert(min_instant_secs() == -8334601228800);
    assert(max_instant_secs() == 8210266876799);
    let total: i128 = 86400 * (days as i128) + 3600 * (hours as i128) + 60 * (minutes as i128)
        + seconds as i128;
    let (s, n): (i128, u32) = if i.nanos >= 1_000_000_000 && total > 0 {
        (i.secs as i128 + total, i.nanos - 1_000_000_000)
    } else if i.nanos >= 1_000_000_000 && total < 0 {
        (i.secs as i128 + 1 + total, i.nanos - 1_000_000_000)
    } else {
        (i.secs as i128 + total, i.nanos)
    };
    if -8334601228800 <= s && s <= 8210266876799 {
        Ok(UtcInstant { secs: s as i64, nanos: n })
    } else {
        Err(string_of(&str_chars("datetime.add: result out of range")))
    }
}

/// What chrono's `DateTime::format` writes for the instant of `secs` and
/// `nanos` with the strftime pattern `fmt`, or `None` when that instant is not
/// one chrono represents or the pattern is not one it can write.
pub uninterp spec fn chrono_formatted(secs: int, nanos: int, fmt: Seq<char>) -> Option<Seq<char>>;

/// `DateTime::from_timestamp` and `DateTime::format` from chrono, written with
/// `write!` so that a pattern chrono cannot write gives `None` rather than a
/// panic; named by `chrono_formatted`.
#[verifier::external_body]
fn chrono_format(secs: i64, nanos: u32, fmt: &str) -> (r: Option<String>)
    ensures
        match r {
            Some(t) => chrono_formatted(secs as int, nanos as int, fmt@) == Some(t@),
            None => chrono_formatted(secs as int, nanos as int, fmt@) is None,
        },
{
    let dt = DateTime::from_timestamp(secs, nanos)?;
    let mut out = String::new();
    match write!(out, "{}", dt.format(fmt)) {
        Ok(()) => Some(out),
        Err(_) => None,
    }
}

/// `datetime.format`: the text of an instant in the strftime pattern `fmt`, or
/// the error for a pattern (or instant) chrono cannot write.
pub fn format_datetime(i: UtcInstant, fmt: &str) -> (r: Result<String, String>)
    ensures
        match chrono_formatted(i.secs as int, i.nanos as int, fmt@) {
            Some(t) => r matches Ok(s) && s@ == t,
            None => r matches Err(e) && e@ == "datetime.format: cannot format with '"@ + fmt@ + "'"@,
        },
{
    match chrono_format(i.secs, i.nanos, fmt) {
        Some(t) => Ok(t),
        None => {
            let mut e = str_chars("datetime.format: cannot format with '");
            push_str_chars(&mut e, fmt);
            push_str_chars(&mut e, "'");
            Err(string_of(&e))
        },
    }
}

/// The nanoseconds from `b` to `a`, as chrono counts them: a leap second
/// counts once when the two instants lie at different seconds of the day.
pub open spec fn elapsed_nanos(a: UtcInstant, b: UtcInstant) -> int {
    let leap: int = if second_of_day(a) > second_of_day(b) && b.nanos
        >= 1_000_000_000 {
        1
    } else if second_of_day(a) < second_of_day(b) && a.nanos
        >= 1_000_000_000 {
        -1
    } else {
        0
    };
    (a.secs - b.secs + leap) * 1_000_000_000 + a.nanos - b.nanos
}

/// Whole seconds in a count of nanoseconds, rounded toward zero.
pub open spec fn whole_seconds(nanos: int) -> int {
    if nanos >= 0 {
        nanos / 1_000_000_000
    } else {
        -((-nanos) / 1_000_000_000)
    }
}

/// The whole seconds from `b` to `a` (negative when `a` comes first), the
/// number that `datetime.diff` converts into its unit. What chrono's
/// `(a - b).num_seconds()` gives is stated whole by `elapsed_nanos` and
/// `whole_seconds`; this computes it on the plain fields.
pub fn diff_seconds(a: UtcInstant, b: UtcInstant) -> (r: i128)
    ensures
        r == whole_seconds(elapsed_nanos(a, b)),
{
    // A multiple of 86400 above 2^63, so that every shifted second is positive.
    let shift: i128 = 86400 * 106_751_991_167_301;
    let day_a: i128 = (a.secs as i128 + shift) % 86400;
    let day_b: i128 = (b.secs as i128 + shift) % 86400;
    proof {
        vstd::arithmetic::div_mod::lemma_mod_multiples_vanish(106_751_991_167_301, a.secs as int, 86400);
        vstd::arithmetic::div_mod::lemma_mod_multiples_vanish(106_751_991_167_301, b.secs as int, 86400);
        assert(day_a == second_of_day(a));
        assert(day_b == second_of_day(b));
    }
    let leap: i128 = if day_a > day_b && b.nanos >= 1_000_000_000 {
        1
    } else if day_a < day_b && a.nanos >= 1_000_000_000 {
        -1
    } else {
        0
    };
    let total: i128 = (a.secs as i128 - b.secs as i128 + leap) * 1_000_000_000 + a.nanos as i128
        - b.nanos as i128;
    assert(total == elapsed_nanos(a, b));
    if total >= 0 {
        let q: u128 = (total as u128) / 1_000_000_000;
        q as i128
    } else {
        let q: u128 = ((-total) as u128) / 1_000_000_000;
        -(q as i128)
    }
}

/// The units of `datetime.diff`.
#[derive(Debug, Clone, Copy, PartialEq, Eq, Structural)]
pub enum DiffUnit {
    Seconds,
    Minutes,
    Hours,
    Days,
}

/// The unit a name stands for (`seconds` or `s`, `minutes` or `m`, `hours`
/// or `h`, `days` or `d`).
pub open spec fn diff_unit_of(name: Seq<char>) -> Option<DiffUnit> {
    if name == "seconds"@ || name == "s"@ {
        Some(DiffUnit::Seconds)
    } else if name == "minutes"@ || name == "m"@ {
        Some(DiffUnit::Minutes)
    } else if name == "hours"@ || name == "h"@ {
        Some(DiffUnit::Hours)
    } else if name == "days"@ || name == "d"@ {
        Some(DiffUnit::Days)
    } else {
        None
    }
}

/// The unit of `datetime.diff` named `name`, or the error for an unknown one.
pub fn parse_diff_unit(name: &str) -> (r: Result<DiffUnit, String>)
    ensures
        match diff_unit_of(name@) {
            Some(u) => r == Ok::<DiffUnit, String>(u),
            None => r matches Err(e) && e@ == "datetime.diff: unknown unit '"@ + name@
                + "' — use 'seconds', 'minutes', 'hours', or 'days'"@,
        },
{
    if str_eq(name, "seconds") || str_eq(name, "s") {
        Ok(DiffUnit::Seconds)
    } else if str_eq(name, "minutes") || str_eq(name, "m") {
        Ok(DiffUnit::Minutes)
    } else if str_eq(name, "hours") || str_eq(name, "h") {
        Ok(DiffUnit::Hours)
    } else if str_eq(name, "days") || str_eq(name, "d") {
        Ok(DiffUnit::Days)
    } else {
        let mut e = str_chars("datetime.diff: unknown unit '");
        push_str_chars(&mut e, name);
        push_str_chars(&mut e, "' — use 'seconds', 'minutes', 'hours', or 'days'");
        Err(string_of(&e))
    }
}

} // verus!
