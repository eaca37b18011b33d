use cpsl::email::{is_valid, normalize, parse};

#[test]
fn validates_addresses() {
    assert!(is_valid("user@example.com"));
    assert!(!is_valid("not an email"));
    assert!(!is_valid("@example.com"));
}

#[test]
fn parses_local_part_and_domain() {
    let p = parse("Jane.Doe@Example.COM").unwrap();
    assert_eq!(p.local, "Jane.Doe");
    assert_eq!(p.domain, "Example.COM");
    assert_eq!(p.full, "Jane.Doe@Example.COM");
    assert!(parse("nope").is_none());
}

#[test]
fn normalize_trims_and_lowercases_the_domain() {
    assert_eq!(normalize("  Jane.Doe@Example.COM \n").ok().unwrap(), "Jane.Doe@example.com");
    match normalize("  broken  ") {
        Err(e) => assert_eq!(e, "email.normalize: invalid email 'broken': Missing separator character '@'."),
        Ok(_) => panic!("invalid address accepted"),
    }
}
