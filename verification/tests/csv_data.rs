use cpsl::csv_data::{
    apply_options, parse_csv, stringify_csv, CsvCell, CsvOpts, CsvRow, HeaderOption, SourceRow,
};

fn named(row: &CsvRow) -> Vec<(String, String)> {
    match row {
        CsvRow::Named(p) => p.clone(),
        CsvRow::Positional(_) => panic!("positional row"),
    }
}

fn positional(row: &CsvRow) -> Vec<String> {
    match row {
        CsvRow::Positional(f) => f.clone(),
        CsvRow::Named(_) => panic!("named row"),
    }
}

fn pair(k: &str, v: &str) -> (String, String) {
    (k.to_string(), v.to_string())
}

#[test]
fn options_apply_table_values() {
    let o = apply_options(CsvOpts::defaults(), Some(";x"), Some("'"), Some(HeaderOption::Text("yes".to_string())), Some(-3));
    assert_eq!(o, CsvOpts { delimiter: b';', quote: b'\'', header: true, skip_rows: 0 });
    let o = apply_options(o, Some(""), None, Some(HeaderOption::Flag(false)), Some(2));
    assert_eq!(o, CsvOpts { delimiter: b';', quote: b'\'', header: false, skip_rows: 2 });
    let o = apply_options(o, None, None, Some(HeaderOption::Text("no".to_string())), None);
    assert!(!o.header);
    let o = apply_options(o, None, None, Some(HeaderOption::Other), None);
    assert!(!o.header);
}

#[test]
fn parses_rows_by_position() {
    let rows = parse_csv(b"a,b,c\n1,2,3\n", &CsvOpts::defaults()).ok().unwrap();
    assert_eq!(rows.len(), 2);
    assert_eq!(positional(&rows[0]), vec!["a", "b", "c"]);
    assert_eq!(positional(&rows[1]), vec!["1", "2", "3"]);
}

#[test]
fn parses_rows_by_header_and_skips() {
    let mut o = CsvOpts::defaults();
    o.header = true;
    o.skip_rows = 1;
    let rows = parse_csv(b"name,age\nann,31\nbob,42\n", &o).ok().unwrap();
    assert_eq!(rows.len(), 1);
    assert_eq!(named(&rows[0]), vec![pair("name", "bob"), pair("age", "42")]);
    o.skip_rows = 5;
    assert_eq!(parse_csv(b"name,age\nann,31\n", &o).ok().unwrap().len(), 0);
}

#[test]
fn later_duplicate_headers_win() {
    let mut o = CsvOpts::defaults();
    o.header = true;
    o.delimiter = b';';
    let rows = parse_csv(b"k;v;k\n1;2;3\n", &o).ok().unwrap();
    assert_eq!(named(&rows[0]), vec![pair("k", "3"), pair("v", "2")]);
}

#[test]
fn parse_reports_unequal_records() {
    match parse_csv(b"a,b\n1,2,3\n", &CsvOpts::defaults()) {
        Err(e) => assert!(e.contains("found record with 3 fields"), "got: {}", e),
        Ok(_) => panic!("unequal records accepted"),
    }
    let mut o = CsvOpts::defaults();
    o.skip_rows = 1;
    assert!(parse_csv(b"a,b\n1,2,3\n", &o).is_err());
}

#[test]
fn stringifies_rows() {
    let rows = vec![
        SourceRow { cells: vec![CsvCell::Text("a,b".to_string()), CsvCell::Integer(-7), CsvCell::Boolean(true)], named: vec![] },
        SourceRow { cells: vec![CsvCell::Nil, CsvCell::Number("1.5".to_string()), CsvCell::Other], named: vec![] },
    ];
    let out = stringify_csv(&rows, b',', None).ok().unwrap();
    assert_eq!(String::from_utf8(out).unwrap(), "\"a,b\",-7,true\n,1.5,\n");
}

#[test]
fn stringifies_rows_under_headers() {
    let rows = vec![SourceRow {
        cells: vec![],
        named: vec![("age".to_string(), CsvCell::Integer(31)), ("name".to_string(), CsvCell::Text("ann".to_string()))],
    }];
    let headers = vec!["name".to_string(), "age".to_string(), "city".to_string()];
    let out = stringify_csv(&rows, b'\t', Some(&headers)).ok().unwrap();
    assert_eq!(String::from_utf8(out).unwrap(), "name\tage\tcity\nann\t31\t\n");
}

#[test]
fn stringify_reports_unequal_rows() {
    let rows = vec![
        SourceRow { cells: vec![CsvCell::Integer(1)], named: vec![] },
        SourceRow { cells: vec![CsvCell::Integer(1), CsvCell::Integer(2)], named: vec![] },
    ];
    assert!(stringify_csv(&rows, b',', None).is_err());
}
