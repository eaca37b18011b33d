//! The checks and texts of the `calendar` module: event time ranges,
//! timestamps in RFC 3339 form, and the access states of the host calendar.

use vstd::prelude::*;
use crate::datetime::{is_date_of, iso_text, max_year, min_year, parse_rfc3339, rfc3339_instant, UtcInstant};
use crate::text::{decimal, push_decimal, push_str_chars, str_chars, string_of};
use chrono::{DateTime, SecondsFormat, Utc};

verus! {

/// Milliseconds since the Unix epoch.
pub type UnixMillis = i64;

/// The calendar permission that the host reports.
#[derive(Debug, Clone, Copy, PartialEq, Eq, Structural)]
pub enum AccessStatus {
    FullAccess,
    NotDetermined,
    Denied,
    Restricted,
    WriteOnly,
    Unknown,
}

/// The state that scripts see for a permission: `granted`, `undefined`
/// (not asked yet) or `denied`.
pub fn access_state(access: AccessStatus) -> (r: &'static str)
    ensures
        r@ == match access {
            AccessStatus::FullAccess => "granted"@,
            AccessStatus::NotDetermined => "undefined"@,
            _ => "denied"@,
        },
{
    match access {
        AccessStatus::FullAccess => "granted",
        AccessStatus::NotDetermined => "undefined",
        AccessStatus::Denied | AccessStatus::Restricted | AccessStatus::WriteOnly | AccessStatus::Unknown => "denied",
    }
}

/// An event's range is valid when it ends after it starts.
pub fn validate_range(start_time: UnixMillis, end_time: UnixMillis, fn_name: &str) -> (r: Result<(), String>)
    ensures
        end_time > start_time <==> r is Ok,
        r matches Err(e) ==> e@ == fn_name@ + ": end_time must be after start_time"@,
{
    if end_time > start_time {
        Ok(())
    } else {
        let mut e = str_chars(fn_name);
        push_str_chars(&mut e, ": end_time must be after start_time");
        Err(string_of(&e))
    }
}

/// A script may ask for one kind of calendar access only: `full`. Any other
/// kind is refused before the host is asked.
pub fn check_access_request(access: &str) -> (r: Result<(), String>)
    ensures
        r is Ok <==> access@ == "full"@,
        r matches Err(e) ==> e@ == "calendar.request_access: access must be \"full\" in V1, got \""@
            + access@ + "\""@,
{
    if crate::text::str_eq(access, "full") {
        Ok(())
    } else {
        let mut e = str_chars("calendar.request_access: access must be \"full\" in V1, got \"");
        push_str_chars(&mut e, access);
        push_str_chars(&mut e, "\"");
        Err(string_of(&e))
    }
}

/// The instant of a count of milliseconds since the epoch.
pub open spec fn instant_of_millis(ms: int) -> UtcInstant {
    UtcInstant { secs: (ms / 1000) as i64, nanos: ((ms % 1000) * 1_000_000) as u32 }
}

/// Whether the date of an instant lies in the years chrono supports.
pub open spec fn in_chrono_range(i: UtcInstant) -> bool {
    exists|y: int, m: int, d: int| #[trigger] is_date_of(i, y, m, d) && min_year() <= y <= max_year()
}

/// `DateTime::from_timestamp_millis` and `to_rfc3339_opts(SecondsFormat::Secs,
/// true)` from chrono: the `YYYY-MM-DDTHH:MM:SSZ` text of the instant (a sign
/// and more digits for years outside 0..=9999), or `None` when its date lies
/// outside the years chrono supports.
#[verifier::external_body]
fn rfc3339_of_millis(ms: i64) -> (r: Option<String>)
    ensures
        match r {
            Some(s) => exists|y: int, m: int, d: int|
                #[trigger] is_date_of(instant_of_millis(ms as int), y, m, d) && min_year() <= y <= max_year()
                    && s@ == iso_text(instant_of_millis(ms as int), y, m, d),
            None => !in_chrono_range(instant_of_millis(ms as int)),
        },
{
    DateTime::<Utc>::from_timestamp_millis(ms).map(|dt| dt.to_rfc3339_opts(SecondsFormat::Secs, true))
}

/// A timestamp as the calendar module shows it: its RFC 3339 text in UTC
/// with whole seconds, or the error for one outside chrono's years.
pub fn format_timestamp(ms: UnixMillis) -> (r: Result<String, String>)
    ensures
        in_chrono_range(instant_of_millis(ms as int)) <==> r is Ok,
        r matches Ok(s) ==> exists|y: int, m: int, d: int|
            #[trigger] is_date_of(instant_of_millis(ms as int), y, m, d) && s@ == iso_text(
                instant_of_millis(ms as int),
                y,
                m,
                d,
            ),
        r matches Err(e) ==> e@ == "calendar: timestamp out of range: "@ + int_text(ms as int),
{
    match rfc3339_of_millis(ms) {
        Some(s) => Ok(s),
        None => {
            let mut e = str_chars("calendar: timestamp out of range: ");
            if ms < 0 {
                e.push('-');
                let a: u64 = if ms == i64::MIN {
                    9223372036854775808u64
                } else {
                    (-ms) as u64
                };
                push_decimal(&mut e, a);
            } else {
                push_decimal(&mut e, ms as u64);
            }
            Err(string_of(&e))
        },
    }
}

/// An integer in decimal, with a `-` when negative.
pub open spec fn int_text(n: int) -> Seq<char> {
    if n < 0 {
        seq!['-'] + decimal((-n) as nat)
    } else {
        decimal(n as nat)
    }
}

/// The milliseconds of an instant given as seconds and nanoseconds.
pub open spec fn millis_of(secs: int, nanos: int) -> int {
    secs * 1000 + nanos / 1_000_000
}

/// What reading a timestamp argument gives: the milliseconds of its RFC 3339
/// instant, or the error naming the argument and the text.
pub open spec fn parse_timestamp_spec(raw: Seq<char>, fn_name: Seq<char>, name: Seq<char>) -> Result<int, Seq<char>> {
    match rfc3339_instant(raw) {
        Some((secs, nanos)) => Ok(millis_of(secs, nanos)),
        None => Err(fn_name + ": argument '"@ + name + "' expected RFC3339 timestamp, got \""@ + raw + "\""@),
    }
}

/// A timestamp argument in RFC 3339 form, as milliseconds since the epoch
/// (`DateTime::timestamp_millis`).
pub fn parse_timestamp(raw: &str, fn_name: &str, name: &str) -> (r: Result<UnixMillis, String>)
    ensures
        match parse_timestamp_spec(raw@, fn_name@, name@) {
            Ok(ms) => r == Ok::<i64, String>(ms as i64),
            Err(e) => r matches Err(m) && m@ == e,
        },
{
    match parse_rfc3339(raw) {
        Some((secs, nanos)) => {
            let sub = (nanos / 1_000_000) as i64;
            assert(secs * 1000 + sub == millis_of(secs as int, nanos as int));
            Ok(secs * 1000 + sub)
        },
        None => {
            let mut e = str_chars(fn_name);
            push_str_chars(&mut e, ": argument '");
            push_str_chars(&mut e, name);
            push_str_chars(&mut e, "' expected RFC3339 timestamp, got \"");
            push_str_chars(&mut e, raw);
            push_str_chars(&mut e, "\"");
            Err(string_of(&e))
        },
    }
}

} // verus!
