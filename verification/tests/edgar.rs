use cpsl::edgar::{
    choose_filings, company_url, filing_document_url, filing_index_url, filings_request,
    sanitize_cik, sanitize_form_type, search_url, url_encode, validate_date, validate_query,
};

#[test]
fn test_sanitize_cik_valid() {
    assert_eq!(sanitize_cik("320193").unwrap(), "0000320193");
    assert_eq!(sanitize_cik("0000320193").unwrap(), "0000320193");
    assert_eq!(sanitize_cik("CIK0000320193").unwrap(), "0000320193");
    assert_eq!(sanitize_cik("cik320193").unwrap(), "0000320193");
    assert_eq!(sanitize_cik("  320193  ").unwrap(), "0000320193");
    assert_eq!(sanitize_cik("1").unwrap(), "0000000001");
}

#[test]
fn test_sanitize_cik_invalid() {
    assert!(sanitize_cik("").is_err());
    assert!(sanitize_cik("   ").is_err());
    assert!(sanitize_cik("abc").is_err());
    assert!(sanitize_cik("320193abc").is_err());
    assert!(sanitize_cik("12345678901").is_err());
    assert!(sanitize_cik("../../etc/passwd").is_err());
    assert!(sanitize_cik("CIK").is_err());
}

#[test]
fn sanitize_cik_error_messages() {
    assert_eq!(sanitize_cik(" ").unwrap_err(), "edgar: CIK cannot be empty");
    assert_eq!(
        sanitize_cik("abc").unwrap_err(),
        "edgar: invalid CIK 'abc' — must be numeric (e.g., '320193' or 'CIK0000320193')"
    );
    assert_eq!(
        sanitize_cik("12345678901").unwrap_err(),
        "edgar: CIK '12345678901' out of range (1-10 digits)"
    );
    assert_eq!(
        sanitize_cik("CIK ").unwrap_err(),
        "edgar: invalid CIK 'CIK ' — must be numeric (e.g., '320193' or 'CIK0000320193')"
    );
    assert_eq!(sanitize_cik("cIk 42").unwrap(), "0000000042");
}

#[test]
fn test_sanitize_form_type_valid() {
    assert_eq!(sanitize_form_type("10-K").unwrap(), "10-K");
    assert_eq!(sanitize_form_type("10-Q").unwrap(), "10-Q");
    assert_eq!(sanitize_form_type("8-K").unwrap(), "8-K");
    assert_eq!(sanitize_form_type("4").unwrap(), "4");
    assert_eq!(sanitize_form_type("DEF 14A").unwrap(), "DEF 14A");
    assert_eq!(sanitize_form_type("S-1/A").unwrap(), "S-1/A");
    assert_eq!(sanitize_form_type("10-k").unwrap(), "10-K");
}

#[test]
fn test_sanitize_form_type_invalid() {
    assert!(sanitize_form_type("").is_err());
    assert!(sanitize_form_type("10-K; DROP TABLE").is_err());
    assert!(sanitize_form_type("a".repeat(31).as_str()).is_err());
}

#[test]
fn sanitize_form_type_error_messages() {
    assert_eq!(
        sanitize_form_type("10-K; DROP").unwrap_err(),
        "edgar: invalid character ';' in form type '10-K; DROP'"
    );
    assert_eq!(sanitize_form_type("  ").unwrap_err(), "edgar: form type cannot be empty");
    assert!(sanitize_form_type(&"a".repeat(30)).is_ok());
    assert!(sanitize_form_type(&"é".repeat(16)).is_err());
    assert_eq!(sanitize_form_type(" 10-q ").unwrap(), "10-Q");
}

#[test]
fn test_validate_date_valid() {
    assert!(validate_date("2024-01-15").is_ok());
    assert!(validate_date("1993-01-01").is_ok());
    assert!(validate_date("2025-12-31").is_ok());
}

#[test]
fn test_validate_date_invalid() {
    assert!(validate_date("not-a-date").is_err());
    assert!(validate_date("2024/01/01").is_err());
    assert!(validate_date("1992-01-01").is_err());
    assert!(validate_date("2024-13-01").is_err());
    assert!(validate_date("2024-01-32").is_err());
}

#[test]
fn validate_date_error_messages() {
    assert_eq!(
        validate_date("2024/01/01").unwrap_err(),
        "edgar: invalid date '2024/01/01', expected YYYY-MM-DD"
    );
    assert_eq!(
        validate_date("x-01-01").unwrap_err(),
        "edgar: invalid date 'x-01-01', expected YYYY-MM-DD"
    );
    assert_eq!(validate_date("2024-ab-01").unwrap_err(), "edgar: invalid month in '2024-ab-01'");
    assert_eq!(validate_date("2024-01-x1").unwrap_err(), "edgar: invalid day in '2024-01-x1'");
    assert_eq!(
        validate_date("2101-01-01").unwrap_err(),
        "edgar: date out of range '2101-01-01' (EDGAR filings available from 1993)"
    );
    assert_eq!(
        validate_date("+2024-01-15").unwrap_err(),
        "edgar: invalid date '+2024-01-15', expected YYYY-MM-DD"
    );
    assert_eq!(validate_date("+024-01-15").unwrap_err(), "edgar: invalid year in '+024-01-15'");
}

#[test]
fn test_validate_query() {
    assert!(validate_query("apple").is_ok());
    assert!(validate_query("  apple  ").is_ok());
    assert!(validate_query("").is_err());
    assert!(validate_query("   ").is_err());
    assert!(validate_query(&"x".repeat(501)).is_err());
}

#[test]
fn validate_query_trims_and_counts_bytes() {
    assert_eq!(validate_query("  apple  ").unwrap(), "apple");
    assert!(validate_query(&"x".repeat(500)).is_ok());
    assert_eq!(
        validate_query(&"é".repeat(251)).unwrap_err(),
        "edgar.search: query too long (max 500 chars)"
    );
    assert_eq!(validate_query(" ").unwrap_err(), "edgar.search: query cannot be empty");
}

#[test]
fn test_url_encode() {
    assert_eq!(url_encode("apple"), "apple");
    assert_eq!(url_encode("hello world"), "hello%20world");
    assert_eq!(url_encode("10-K"), "10-K");
    assert_eq!(url_encode("a&b=c"), "a%26b%3Dc");
}

#[test]
fn url_encode_multibyte_and_unreserved() {
    assert_eq!(url_encode("é"), "%C3%A9");
    assert_eq!(url_encode("a_b.c~d"), "a_b.c~d");
    assert_eq!(url_encode("/?"), "%2F%3F");
}

#[test]
fn search_url_parameters() {
    assert_eq!(
        search_url(" annual report ", None, None, None, None).unwrap(),
        "https://efts.sec.gov/LATEST/search-index?q=annual%20report&from=0&size=10"
    );
    assert_eq!(
        search_url("x", Some("10-k"), Some("2024-01-01"), None, Some(500)).unwrap(),
        "https://efts.sec.gov/LATEST/search-index?q=x&from=0&size=100&forms=10-K&dateRange=custom&startdt=2024-01-01"
    );
    assert_eq!(
        search_url("x", Some("DEF 14A"), None, Some("2024-12-31"), Some(-3)).unwrap(),
        "https://efts.sec.gov/LATEST/search-index?q=x&from=0&size=1&forms=DEF%2014A&dateRange=custom&enddt=2024-12-31"
    );
}

#[test]
fn search_url_first_error_wins() {
    assert_eq!(
        search_url("", Some("bad;"), None, None, None).unwrap_err(),
        "edgar.search: query cannot be empty"
    );
    assert!(search_url("x", Some("bad;"), Some("nope"), None, None)
        .unwrap_err()
        .contains("invalid character"));
    assert!(search_url("x", None, Some("2024-01-01"), Some("1990-01-01"), None)
        .unwrap_err()
        .contains("date out of range"));
}

#[test]
fn filings_and_company_requests() {
    let (url, filter, count) = filings_request("320193", Some("10-k"), None).unwrap();
    assert_eq!(url, "https://data.sec.gov/submissions/CIK0000320193.json");
    assert_eq!(filter, Some("10-K".to_string()));
    assert_eq!(count, 20);
    let (_, filter, count) = filings_request("CIK1", None, Some(5000)).unwrap();
    assert_eq!(filter, None);
    assert_eq!(count, 1000);
    assert!(filings_request("abc", None, None).is_err());
    assert_eq!(
        company_url("320193").unwrap(),
        "https://data.sec.gov/submissions/CIK0000320193.json"
    );
}

#[test]
fn archive_urls() {
    assert_eq!(
        filing_index_url("0000320193", "0000320193-24-000123"),
        "https://www.sec.gov/Archives/edgar/data/320193/000032019324000123/0000320193-24-000123-index.htm"
    );
    assert_eq!(
        filing_document_url("0000000000", "1-2", "doc.htm"),
        "https://www.sec.gov/Archives/edgar/data/0/12/doc.htm"
    );
}

#[test]
fn choose_filings_filters_and_limits() {
    let forms = vec![
        Some("10-K".to_string()),
        Some("8-K".to_string()),
        None,
        Some("10-k".to_string()),
        Some("10-K".to_string()),
    ];
    assert_eq!(choose_filings(Some(&forms), Some("10-K"), 5, 10), vec![0, 2, 3, 4]);
    assert_eq!(choose_filings(Some(&forms), Some("10-K"), 5, 2), vec![0, 2]);
    assert_eq!(choose_filings(Some(&forms), None, 5, 3), vec![0, 1, 2]);
    assert_eq!(choose_filings(None, Some("10-K"), 3, 10), vec![0, 1, 2]);
    assert_eq!(choose_filings(Some(&forms), Some("S-1"), 7, 10), vec![2, 5, 6]);
}

#[test]
fn dates_must_be_written_yyyy_mm_dd() {
    assert_eq!(validate_date("2024-01-15"), Ok("2024-01-15"));
    assert_eq!(validate_date("1993-01-01"), Ok("1993-01-01"));
    assert_eq!(
        validate_date("2024-1-5").unwrap_err(),
        "edgar: invalid date '2024-1-5', expected YYYY-MM-DD"
    );
    assert_eq!(validate_date("2024-+1-05").unwrap_err(), "edgar: invalid month in '2024-+1-05'");
    assert_eq!(validate_date("abcd-01-01").unwrap_err(), "edgar: invalid year in 'abcd-01-01'");
    assert!(validate_date("1992-01-01").unwrap_err().contains("out of range"));
    assert!(validate_date("2024-13-01").is_err());
}

#[test]
fn non_numeric_ciks_are_errors() {
    assert!(sanitize_cik("aaé1").unwrap_err().contains("must be numeric"));
    assert!(sanitize_cik("../../etc/passwd").unwrap_err().contains("must be numeric"));
    assert!(sanitize_cik("CIKé").unwrap_err().contains("must be numeric"));
    assert_eq!(sanitize_cik("cik 42").unwrap(), "0000000042");
}
