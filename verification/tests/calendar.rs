use cpsl::calendar::{access_state, check_access_request, format_timestamp, parse_timestamp, validate_range, AccessStatus};

#[test]
fn access_states() {
    assert_eq!(access_state(AccessStatus::FullAccess), "granted");
    assert_eq!(access_state(AccessStatus::NotDetermined), "undefined");
    assert_eq!(access_state(AccessStatus::Denied), "denied");
    assert_eq!(access_state(AccessStatus::Restricted), "denied");
    assert_eq!(access_state(AccessStatus::WriteOnly), "denied");
    assert_eq!(access_state(AccessStatus::Unknown), "denied");
}

#[test]
fn ranges_must_end_after_they_start() {
    assert!(validate_range(1000, 2000, "calendar.create").is_ok());
    match validate_range(2000, 2000, "calendar.create") {
        Err(e) => assert_eq!(e, "calendar.create: end_time must be after start_time"),
        Ok(_) => panic!("empty range accepted"),
    }
    assert!(validate_range(3000, 2000, "calendar.update").is_err());
}

#[test]
fn timestamps_format_in_utc_seconds() {
    assert_eq!(format_timestamp(0).ok().unwrap(), "1970-01-01T00:00:00Z");
    assert_eq!(format_timestamp(1709164800999).ok().unwrap(), "2024-02-29T00:00:00Z");
    assert_eq!(format_timestamp(-1).ok().unwrap(), "1969-12-31T23:59:59Z");
    match format_timestamp(i64::MAX) {
        Err(e) => assert_eq!(e, format!("calendar: timestamp out of range: {}", i64::MAX)),
        Ok(_) => panic!("out of range timestamp formatted"),
    }
    match format_timestamp(i64::MIN) {
        Err(e) => assert_eq!(e, format!("calendar: timestamp out of range: {}", i64::MIN)),
        Ok(_) => panic!("out of range timestamp formatted"),
    }
}

#[test]
fn timestamps_parse_from_rfc3339() {
    assert_eq!(parse_timestamp("2024-02-29T00:00:00Z", "calendar.events", "start").ok().unwrap(), 1709164800000);
    assert_eq!(parse_timestamp("1970-01-01T01:00:00.250+01:00", "calendar.events", "start").ok().unwrap(), 250);
    match parse_timestamp("tomorrow", "calendar.events", "end") {
        Err(e) => assert_eq!(e, "calendar.events: argument 'end' expected RFC3339 timestamp, got \"tomorrow\""),
        Ok(_) => panic!("bad timestamp accepted"),
    }
}

#[test]
fn only_full_access_may_be_requested() {
    assert_eq!(check_access_request("full"), Ok(()));
    assert_eq!(
        check_access_request("read"),
        Err("calendar.request_access: access must be \"full\" in V1, got \"read\"".to_string())
    );
    assert!(check_access_request("Full").is_err());
    assert!(check_access_request("").is_err());
}
