//! Civil dates of the proleptic Gregorian calendar, counted in days from
//! 1970-01-01, and their `YYYY-MM-DD` text.

use vstd::prelude::*;
use crate::text::{decimal, push_decimal, push_zero_padded, push_str_chars, string_of, zero_pad};

verus! {

// ── The calendar ─────────────────────────────────────────────────────

/// Whether `y` is a leap year of the proleptic Gregorian calendar.
pub open spec fn is_leap_year(y: int) -> bool {
    y % 4 == 0 && (y % 100 != 0 || y % 400 == 0)
}

/// The number of days of month `m` (1 = January) of year `y`.
pub open spec fn month_length(y: int, m: int) -> int {
    if m == 2 {
        if is_leap_year(y) {
            29
        } else {
            28
        }
    } else if m == 4 || m == 6 || m == 9 || m == 11 {
        30
    } else {
        31
    }
}

/// Whether `(y, m, d)` names a day of the calendar.
pub open spec fn valid_date(y: int, m: int, d: int) -> bool {
    1 <= m <= 12 && 1 <= d <= month_length(y, m)
}

/// The number of days of year `y` in the months before month `m`.
pub open spec fn days_before_month(y: int, m: int) -> int {
    let common: int = if m <= 1 {
        0
    } else if m == 2 {
        31
    } else if m == 3 {
        59
    } else if m == 4 {
        90
    } else if m == 5 {
        120
    } else if m == 6 {
        151
    } else if m == 7 {
        181
    } else if m == 8 {
        212
    } else if m == 9 {
        243
    } else if m == 10 {
        273
    } else if m == 11 {
        304
    } else {
        334
    };
    common + if m > 2 && is_leap_year(y) {
        1int
    } else {
        0int
    }
}

/// The number of leap years among the years `1..=n` (for `n >= 0`); for all
/// `a <= b`, `leap_years_through(b) - leap_years_through(a)` counts the leap
/// years among `a+1..=b`.
pub open spec fn leap_years_through(n: int) -> int {
    n / 4 - n / 100 + n / 400
}

/// The day number of the date `(y, m, d)`, counted from 1970-01-01 (day 0).
pub open spec fn days_from_civil(y: int, m: int, d: int) -> int {
    365 * (y - 1970) + (leap_years_through(y - 1) - leap_years_through(1969)) + days_before_month(
        y,
        m,
    ) + d - 1
}

// ── Laws of the calendar ─────────────────────────────────────────────

/// Each year adds one leap year to the count exactly when it is a leap year.
#[verifier::spinoff_prover]
pub proof fn lemma_leap_years_step(n: int)
    ensures
        leap_years_through(n) - leap_years_through(n - 1) == if is_leap_year(n) {
            1int
        } else {
            0int
        },
{
    assert(n / 4 - (n - 1) / 4 == if n % 4 == 0 {
        1int
    } else {
        0int
    });
    assert(n / 100 - (n - 1) / 100 == if n % 100 == 0 {
        1int
    } else {
        0int
    });
    assert(n / 400 - (n - 1) / 400 == if n % 400 == 0 {
        1int
    } else {
        0int
    });
    if n % 100 == 0 {
        assert(n % 4 == 0);
    }
    if n % 400 == 0 {
        assert(n % 100 == 0);
    }
}

/// Day 0 is 1970-01-01.
pub proof fn law_epoch_is_day_zero()
    ensures
        valid_date(1970, 1, 1),
        days_from_civil(1970, 1, 1) == 0,
{
}

/// The next day of a date that is not the last of its month is one day later.
pub proof fn law_next_day_in_month(y: int, m: int, d: int)
    requires
        valid_date(y, m, d),
        d < month_length(y, m),
    ensures
        valid_date(y, m, d + 1),
        days_from_civil(y, m, d + 1) == days_from_civil(y, m, d) + 1,
{
}

/// The first day of a month follows the last day of the month before it.
pub proof fn law_next_month(y: int, m: int)
    requires
        1 <= m < 12,
    ensures
        days_from_civil(y, m + 1, 1) == days_from_civil(y, m, month_length(y, m)) + 1,
{
}

/// January 1 follows December 31 of the year before.
pub proof fn law_next_year(y: int)
    ensures
        days_from_civil(y + 1, 1, 1) == days_from_civil(y, 12, 31) + 1,
{
    lemma_leap_years_step(y);
}

proof fn lemma_year_start_grows(y1: int, y2: int)
    requires
        y1 <= y2,
    ensures
        days_from_civil(y2, 1, 1) - days_from_civil(y1, 1, 1) >= 365 * (y2 - y1),
    decreases y2 - y1,
{
    if y1 < y2 {
        lemma_year_start_grows(y1, y2 - 1);
        lemma_leap_years_step(y2 - 1);
    }
}

proof fn lemma_day_of_year_bounds(y: int, m: int, d: int)
    requires
        valid_date(y, m, d),
    ensures
        days_from_civil(y, 1, 1) <= days_from_civil(y, m, d) <= days_from_civil(y, 1, 1) + 364
            + if is_leap_year(y) {
            1int
        } else {
            0int
        },
{
}

/// Two valid dates with the same day number are the same date.
pub proof fn law_days_from_civil_injective(y1: int, m1: int, d1: int, y2: int, m2: int, d2: int)
    requires
        valid_date(y1, m1, d1),
        valid_date(y2, m2, d2),
        days_from_civil(y1, m1, d1) == days_from_civil(y2, m2, d2),
    ensures
        y1 == y2 && m1 == m2 && d1 == d2,
{
    lemma_day_of_year_bounds(y1, m1, d1);
    lemma_day_of_year_bounds(y2, m2, d2);
    if y1 < y2 {
        lemma_year_start_grows(y1 + 1, y2);
        law_next_year(y1);
        assert(false);
    } else if y2 < y1 {
        lemma_year_start_grows(y2 + 1, y1);
        law_next_year(y2);
        assert(false);
    }
}

// ── From a day number to a date ──────────────────────────────────────

/// Days of the year (counted from March 1) before the month with March-based index `mp`.
spec fn march_days_before(mp: int) -> int {
    (153 * mp + 2) / 5
}

/// The year within a 400-year era (years starting on March 1) and the day
/// within that year, for the day `doe` of the era, as the algorithm computes them.
proof fn lemma_year_of_era(doe: int)
    requires
        0 <= doe < 146097,
    ensures
        ({
            let yoe = (doe - doe / 1460 + doe / 36524 - doe / 146096) / 365;
            let doy = doe - (365 * yoe + yoe / 4 - yoe / 100);
            &&& 0 <= yoe <= 399
            &&& 0 <= doy <= 365
            &&& doy == 365 ==> is_leap_year(yoe + 1)
        }),
{
    let c: int = if doe / 36524 < 3 {
        doe / 36524
    } else {
        3
    };
    let r1 = doe - 36524 * c;
    assert(0 <= c <= 3);
    assert(0 <= r1 <= 36524);
    assert(c < 3 ==> r1 < 36524);
    let q = r1 / 1461;
    let r2 = r1 - 1461 * q;
    assert(0 <= q <= 24 && 0 <= r2 <= 1460);
    let a: int = if r2 / 365 < 3 {
        r2 / 365
    } else {
        3
    };
    let r3 = r2 - 365 * a;
    assert(0 <= a <= 3 && 0 <= r3 <= 365);
    assert(r3 == 365 ==> a == 3 && r2 == 1460);
    assert(doe == 36524 * c + 1461 * q + 365 * a + r3);
    let full = doe == 146096;
    assert(full <==> (c == 3 && q == 24 && a == 3 && r3 == 365));
    assert(doe / 146096 == if full {
        1int
    } else {
        0int
    });
    assert(doe / 36524 == c + if full {
        1int
    } else {
        0int
    });
    let t = 24 * c + q + 365 * a + r3;
    let e1: int = if t >= 1460 {
        1
    } else {
        0
    };
    assert(0 <= t < 2920);
    assert(doe == 1460 * (25 * c + q) + t);
    assert(doe / 1460 == 25 * c + q + e1);
    assert(e1 == 1 ==> a == 3 && r3 >= 269);
    assert(r3 == 365 ==> e1 == 1);
    let yoe = 100 * c + 4 * q + a;
    assert(doe - doe / 1460 + doe / 36524 - doe / 146096 == 365 * yoe + (r3 - e1));
    assert(0 <= r3 - e1 <= 364);
    assert((doe - doe / 1460 + doe / 36524 - doe / 146096) / 365 == yoe);
    assert(yoe / 4 == 25 * c + q);
    assert(yoe / 100 == c);
    assert(doe - (365 * yoe + yoe / 4 - yoe / 100) == r3);
    if r3 == 365 {
        if q == 24 {
            assert(c == 3);
            assert(yoe + 1 == 400);
        } else {
            assert((yoe + 1) % 4 == 0);
            assert((yoe + 1) % 100 == 4 * q + 4);
        }
    }
}

/// The month (March-based index `mp`) and its first day for a day of a March-based year.
proof fn lemma_month_of_year(doy: int)
    requires
        0 <= doy <= 365,
    ensures
        ({
            let mp = (5 * doy + 2) / 153;
            &&& 0 <= mp <= 11
            &&& march_days_before(mp) <= doy < march_days_before(mp + 1)
        }),
{
    let mp = (5 * doy + 2) / 153;
    assert(153 * mp <= 5 * doy + 2 < 153 * mp + 153);
    assert(0 <= mp <= 11);
    assert((153 * mp + 2) / 5 <= (5 * doy + 4) / 5);
    assert((5 * doy + 4) / 5 == doy);
    assert(5 * doy <= 153 * mp + 150);
    assert(doy <= (153 * mp + 150) / 5);
    assert((153 * (mp + 1) + 2) / 5 == (153 * mp + 150) / 5 + 1);
}

proof fn lemma_leap_year_period(n: int, k: int)
    ensures
        is_leap_year(n + 400 * k) == is_leap_year(n),
{
    assert((n + 400 * k) % 4 == n % 4);
    assert((n + 400 * k) % 100 == n % 100);
    assert((n + 400 * k) % 400 == n % 400);
}

/// The algorithm's steps, from a day number to a date, meet the calendar.
proof fn lemma_civil_from_days(
    days: int,
    era: int,
    doe: int,
    yoe: int,
    doy: int,
    mp: int,
    d: int,
    m: int,
    y: int,
)
    requires
        era == (days + 719468) / 146097,
        doe == days + 719468 - era * 146097,
        yoe == (doe - doe / 1460 + doe / 36524 - doe / 146096) / 365,
        doy == doe - (365 * yoe + yoe / 4 - yoe / 100),
        mp == (5 * doy + 2) / 153,
        d == doy - (153 * mp + 2) / 5 + 1,
        m == if mp < 10 {
            mp + 3
        } else {
            mp - 9
        },
        y == if m <= 2 {
            yoe + era * 400 + 1
        } else {
            yoe + era * 400
        },
    ensures
        valid_date(y, m, d),
        days_from_civil(y, m, d) == days,
{
    assert(0 <= doe < 146097);
    lemma_year_of_era(doe);
    lemma_month_of_year(doy);
    let big_y = yoe + era * 400;
    assert(big_y / 4 == yoe / 4 + era * 100);
    assert(big_y / 100 == yoe / 100 + era * 4);
    assert(big_y / 400 == era);
    assert(365 * big_y + leap_years_through(big_y) == era * 146097 + 365 * yoe + yoe / 4 - yoe
        / 100);
    assert(doy == march_days_before(mp) + d - 1);
    lemma_leap_years_step(big_y);
    lemma_leap_year_period(yoe + 1, era);
    assert(leap_years_through(1969) == 477);
    if mp < 10 {
        assert(days_before_month(y, m) == 59 + march_days_before(mp) + if is_leap_year(y) {
            1int
        } else {
            0int
        });
        assert(d <= month_length(y, m));
    } else {
        assert(days_before_month(y, m) == march_days_before(mp) - 306);
        lemma_leap_years_step(y);
        if mp == 11 {
            assert(is_leap_year(y) == is_leap_year(yoe + 1));
        }
        assert(d <= month_length(y, m));
    }
}

// ── Text ─────────────────────────────────────────────────────────────

/// A year as `{:04}` prints it: at least four characters, the sign counted.
pub open spec fn year_text(y: int) -> Seq<char> {
    if y >= 0 {
        zero_pad(decimal(y as nat), 4)
    } else {
        seq!['-'] + zero_pad(decimal((-y) as nat), 3)
    }
}

/// The `YYYY-MM-DD` text of a date.
pub open spec fn date_text(y: int, m: int, d: int) -> Seq<char> {
    year_text(y) + "-"@ + zero_pad(decimal(m as nat), 2) + "-"@ + zero_pad(decimal(d as nat), 2)
}

/// The date of day number `days` (day 0 is 1970-01-01).
pub(crate) fn civil_from_days(days: i64) -> (r: (i64, u64, u64))
    requires
        i64::MIN / 86400 <= days <= i64::MAX / 86400,
    ensures
        valid_date(r.0 as int, r.1 as int, r.2 as int),
        days_from_civil(r.0 as int, r.1 as int, r.2 as int) == days as int,
{
    let z = days + 719468;
    let era = z.checked_div_euclid(146097).unwrap();
    let doe_i = z - era * 146097;
    assert(0 <= doe_i < 146097);
    let doe = doe_i as u64;
    let yoe = (doe - doe / 1460 + doe / 36524 - doe / 146096) / 365;
    proof {
        lemma_year_of_era(doe as int);
    }
    let y0 = yoe as i64 + era * 400;
    let doy = doe - (365 * yoe + yoe / 4 - yoe / 100);
    proof {
        lemma_month_of_year(doy as int);
    }
    let mp = (5 * doy + 2) / 153;
    let d = doy - (153 * mp + 2) / 5 + 1;
    let m = if mp < 10 {
        mp + 3
    } else {
        mp - 9
    };
    let y = if m <= 2 {
        y0 + 1
    } else {
        y0
    };
    proof {
        lemma_civil_from_days(
            days as int,
            era as int,
            doe as int,
            yoe as int,
            doy as int,
            mp as int,
            d as int,
            m as int,
            y as int,
        );
    }
    (y, m, d)
}

/// The `{:04}` text of a year.
fn push_year(out: &mut Vec<char>, y: i64)
    ensures
        final(out)@ == old(out)@ + year_text(y as int),
{
    let mut digits: Vec<char> = Vec::new();
    if y >= 0 {
        push_decimal(&mut digits, y as u64);
        push_zero_padded(out, &digits, 4);
    } else {
        out.push('-');
        let a: u64 = if y == i64::MIN {
            9223372036854775808u64
        } else {
            (-y) as u64
        };
        push_decimal(&mut digits, a);
        push_zero_padded(out, &digits, 3);
    }
}

/// The `YYYY-MM-DD` date (UTC) of the instant `secs` seconds after the Unix
/// epoch.
pub fn format_date(secs: i64) -> (r: String)
    ensures
        exists|y: int, m: int, d: int|
            valid_date(y, m, d) && days_from_civil(y, m, d) == secs as int / 86400 && r@
                == date_text(y, m, d),
{
    let days = secs.checked_div_euclid(86400).unwrap();
    let (y, m, d) = civil_from_days(days);
    let mut out: Vec<char> = Vec::new();
    push_year(&mut out, y);
    push_str_chars(&mut out, "-");
    let mut md: Vec<char> = Vec::new();
    push_decimal(&mut md, m);
    push_zero_padded(&mut out, &md, 2);
    push_str_chars(&mut out, "-");
    let mut dd: Vec<char> = Vec::new();
    push_decimal(&mut dd, d);
    push_zero_padded(&mut out, &dd, 2);
    assert(out@ == date_text(y as int, m as int, d as int));
    string_of(&out)
}

} // verus!
