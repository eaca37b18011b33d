use cpsl::datetime::{
    date_iso, date_of, datetime_add, diff_seconds, is_chrono_instant, format_datetime, parse_datetime, parse_datetime_with_fmt,
    parse_diff_unit, time_of, to_iso, weekday, DiffUnit, UtcInstant,
};

fn iso(s: &str) -> String {
    to_iso(parse_datetime(s).unwrap())
}

#[test]
fn parse_accepted_forms() {
    assert_eq!(parse_datetime("2026-03-03T12:00:00Z").unwrap().secs, 1772539200);
    assert_eq!(iso("2026-03-03T12:00:00+02:00"), "2026-03-03T10:00:00Z");
    assert_eq!(iso("  2024-01-15T10:30:00  "), "2024-01-15T10:30:00Z");
    let frac = parse_datetime("2024-01-15T10:30:00.5").unwrap();
    assert_eq!(frac, UtcInstant { secs: 1705314600, nanos: 500_000_000 });
    assert_eq!(iso("2024-01-15 10:30:00"), "2024-01-15T10:30:00Z");
    assert_eq!(iso("2024-01-15 10:30:00.25"), "2024-01-15T10:30:00Z");
    assert_eq!(parse_datetime("2024-02-29").unwrap(), UtcInstant { secs: 1709164800, nanos: 0 });
    assert_eq!(iso("02/29/2024"), "2024-02-29T00:00:00Z");
    assert_eq!(iso("29.02.2024"), "2024-02-29T00:00:00Z");
    assert_eq!(iso("Tue, 1 Jul 2003 10:52:37 +0200"), "2003-07-01T08:52:37Z");
}

#[test]
fn parse_errors_name_the_trimmed_text() {
    assert_eq!(
        parse_datetime("  not a date ").unwrap_err(),
        "datetime.parse: could not parse 'not a date' — try providing an explicit format string"
    );
    assert!(parse_datetime("2023-02-29").is_err());
}

#[test]
fn parse_with_explicit_format() {
    assert_eq!(
        to_iso(parse_datetime_with_fmt("15/01/2024", "%d/%m/%Y").unwrap()),
        "2024-01-15T00:00:00Z"
    );
    assert_eq!(
        to_iso(parse_datetime_with_fmt("20240115 1030", "%Y%m%d %H%M").unwrap()),
        "2024-01-15T10:30:00Z"
    );
    assert_eq!(
        parse_datetime_with_fmt(" x ", "%Y").unwrap_err(),
        "datetime.parse: could not parse 'x' with format '%Y'"
    );
}

#[test]
fn leap_second_shows_as_sixty() {
    assert_eq!(iso("2016-12-31T23:59:60Z"), "2016-12-31T23:59:60Z");
}

#[test]
fn fields_of_an_instant() {
    let i = parse_datetime("2024-01-15T10:30:45Z").unwrap();
    assert_eq!(date_of(i), (2024, 1, 15));
    assert_eq!(time_of(i), (10, 30, 45));
    assert_eq!(weekday(i), 0);
    assert_eq!(weekday(UtcInstant { secs: 0, nanos: 0 }), 3);
    assert_eq!(weekday(UtcInstant { secs: -1, nanos: 0 }), 2);
    assert_eq!(time_of(UtcInstant { secs: -1, nanos: 0 }), (23, 59, 59));
}

#[test]
fn dates_from_fields() {
    assert_eq!(date_iso(2024, 2, 29).unwrap(), "2024-02-29T00:00:00Z");
    assert_eq!(
        date_iso(2023, 2, 29).unwrap_err(),
        "datetime.date: invalid date 2023-2-29"
    );
    assert_eq!(date_iso(-5, 1, 1).unwrap(), "-0005-01-01T00:00:00Z");
    assert_eq!(date_iso(10000, 1, 1).unwrap(), "+10000-01-01T00:00:00Z");
    assert_eq!(date_iso(0, 12, 31).unwrap(), "0000-12-31T00:00:00Z");
    assert_eq!(date_iso(-1, 13, 1).unwrap_err(), "datetime.date: invalid date -1-13-1");
    assert!(date_iso(262143, 1, 1).is_err());
}

#[test]
fn month_name_dates_are_read() {
    assert_eq!(iso("March 10, 2026"), "2026-03-10T00:00:00Z");
    assert_eq!(iso("  December 1, 1999 "), "1999-12-01T00:00:00Z");
}

#[test]
fn adding_durations() {
    let start = parse_datetime("2026-03-10T12:00:00Z").unwrap();
    assert_eq!(to_iso(datetime_add(start, 7, 3, 0, 0).unwrap()), "2026-03-17T15:00:00Z");
    assert_eq!(to_iso(datetime_add(start, 0, 0, -90, 30).unwrap()), "2026-03-10T10:30:30Z");
    assert_eq!(datetime_add(start, 0, 0, 0, 0).unwrap(), start);
    assert_eq!(
        datetime_add(start, 200_000_000, 0, 0, 0).unwrap_err(),
        "datetime.add: result out of range"
    );
    assert!(datetime_add(start, i64::MAX, i64::MAX, i64::MAX, i64::MAX).is_err());
    let leap = parse_datetime("2016-12-31T23:59:60Z").unwrap();
    let chrono_leap = chrono::DateTime::parse_from_rfc3339("2016-12-31T23:59:60Z").unwrap();
    for delta in [1i64, -1, 60] {
        let ours = datetime_add(leap, 0, 0, 0, delta).unwrap();
        let theirs = chrono_leap + chrono::Duration::seconds(delta);
        assert_eq!(ours.secs, theirs.timestamp());
        assert_eq!(ours.nanos, theirs.timestamp_subsec_nanos());
    }
}

#[test]
fn formatting_with_patterns() {
    let t = parse_datetime("2026-03-10T12:00:00Z").unwrap();
    assert_eq!(format_datetime(t, "%B %d, %Y").unwrap(), "March 10, 2026");
    assert_eq!(format_datetime(t, "%Y/%m/%d %H:%M").unwrap(), "2026/03/10 12:00");
    assert_eq!(format_datetime(t, "%Q").unwrap_err(), "datetime.format: cannot format with '%Q'");
}

#[test]
fn diff_units() {
    assert_eq!(parse_diff_unit("days"), Ok(DiffUnit::Days));
    assert_eq!(parse_diff_unit("m"), Ok(DiffUnit::Minutes));
    assert_eq!(parse_diff_unit("s"), Ok(DiffUnit::Seconds));
    assert_eq!(parse_diff_unit("hours"), Ok(DiffUnit::Hours));
    assert_eq!(
        parse_diff_unit("weeks").unwrap_err(),
        "datetime.diff: unknown unit 'weeks' — use 'seconds', 'minutes', 'hours', or 'days'"
    );
}

#[test]
fn differences_in_whole_seconds() {
    let a = parse_datetime("2026-03-17T00:00:00Z").unwrap();
    let b = parse_datetime("2026-03-10T00:00:00Z").unwrap();
    assert_eq!(diff_seconds(a, b), 604800);
    assert_eq!(diff_seconds(b, a), -604800);
    assert_eq!(diff_seconds(a, a), 0);
    let late = parse_datetime("2026-03-10T00:00:01.900Z").unwrap();
    assert_eq!(diff_seconds(late, b), 1);
    assert_eq!(diff_seconds(b, late), -1);
    let far = UtcInstant { secs: i64::MAX, nanos: 0 };
    let early = UtcInstant { secs: i64::MIN, nanos: 0 };
    assert_eq!(diff_seconds(far, early), (i64::MAX as i128) - (i64::MIN as i128));
    let leap = parse_datetime("2016-12-31T23:59:60Z").unwrap();
    let next = parse_datetime("2017-01-01T00:00:00Z").unwrap();
    let chrono_leap = chrono::DateTime::parse_from_rfc3339("2016-12-31T23:59:60Z").unwrap();
    let chrono_next = chrono::DateTime::parse_from_rfc3339("2017-01-01T00:00:00Z").unwrap();
    assert_eq!(diff_seconds(next, leap), (chrono_next - chrono_leap).num_seconds() as i128);
    assert_eq!(diff_seconds(leap, next), (chrono_leap - chrono_next).num_seconds() as i128);
    let before = parse_datetime("2016-12-31T23:59:58Z").unwrap();
    let chrono_before = chrono::DateTime::parse_from_rfc3339("2016-12-31T23:59:58Z").unwrap();
    assert_eq!(diff_seconds(leap, before), (chrono_leap - chrono_before).num_seconds() as i128);
    assert_eq!(diff_seconds(before, leap), (chrono_before - chrono_leap).num_seconds() as i128);
}

#[test]
fn instants_that_chrono_represents() {
    assert!(is_chrono_instant(parse_datetime("2026-03-10T12:00:00Z").unwrap()));
    assert!(is_chrono_instant(parse_datetime("2016-12-31T23:59:60Z").unwrap()));
    assert!(!is_chrono_instant(UtcInstant { secs: 0, nanos: 1_500_000_000 }));
    assert!(is_chrono_instant(UtcInstant { secs: 59, nanos: 1_500_000_000 }));
    assert!(!is_chrono_instant(UtcInstant { secs: i64::MAX, nanos: 0 }));
    assert_eq!(to_iso(UtcInstant { secs: 59, nanos: 1_500_000_000 }), "1970-01-01T00:00:60Z");
    assert_eq!(date_iso(2024, 2, 29).unwrap(), "2024-02-29T00:00:00Z");
    assert!(date_iso(2023, 2, 29).is_err());
}
