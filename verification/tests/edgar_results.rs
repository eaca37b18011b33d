use cpsl::edgar_results::{
    company_record, edgar_headers, filing_rows, parse_json, response_text, search_rows,
};

#[test]
fn response_text_checks_status_and_encoding() {
    assert_eq!(response_text(true, 200, b"{}", "u").ok().unwrap(), "{}");
    match response_text(false, 404, b"", "https://x/y") {
        Err(e) => assert_eq!(e, "edgar: HTTP 404 from SEC EDGAR API (url: https://x/y)"),
        Ok(_) => panic!("failed response accepted"),
    }
    match response_text(true, 200, b"\xff", "u") {
        Err(e) => assert!(e.starts_with("edgar: invalid UTF-8 response: "), "got: {}", e),
        Ok(_) => panic!("bad bytes accepted"),
    }
    let h = edgar_headers();
    assert_eq!(h[0], ("User-Agent".to_string(), "sandbox/1.0 (sandbox@example.com)".to_string()));
    assert_eq!(h[1], ("Accept".to_string(), "application/json".to_string()));
}

#[test]
fn json_errors_are_reported() {
    match parse_json("{not json") {
        Err(e) => assert!(e.starts_with("edgar: invalid JSON response: "), "got: {}", e),
        Ok(_) => panic!("bad JSON accepted"),
    }
}

#[test]
fn search_rows_from_hits() {
    let doc = parse_json(
        r#"{"hits":{"hits":[
            {"_source":{"adsh":"0000320193-24-000123","ciks":["0000320193"],"form":"10-K",
              "file_date":"2024-11-01","display_names":["Apple Inc. (AAPL)"],
              "file_description":"Annual report","period_ending":"2024-09-28"}},
            {"_id":"no source"},
            {"_source":{"form":"8-K"}}
        ]}}"#,
    )
    .ok()
    .unwrap();
    let rows = search_rows(&doc).ok().unwrap();
    assert_eq!(rows.len(), 3);
    let first = rows[0].as_ref().unwrap();
    assert_eq!(first.accession.as_deref(), Some("0000320193-24-000123"));
    assert_eq!(
        first.url.as_deref(),
        Some("https://www.sec.gov/Archives/edgar/data/320193/000032019324000123/0000320193-24-000123-index.htm")
    );
    assert_eq!(first.company.as_deref(), Some("Apple Inc. (AAPL)"));
    assert_eq!(first.cik.as_deref(), Some("0000320193"));
    assert_eq!(first.period_ending.as_deref(), Some("2024-09-28"));
    assert!(rows[1].is_none());
    let third = rows[2].as_ref().unwrap();
    assert_eq!(third.form.as_deref(), Some("8-K"));
    assert!(third.url.is_none());
    let empty = parse_json("{\"took\":3}").ok().unwrap();
    match search_rows(&empty) {
        Err(e) => assert_eq!(e, "edgar: unexpected search response format (no hits.hits)"),
        Ok(_) => panic!("missing hits accepted"),
    }
}

#[test]
fn filing_rows_filter_and_count() {
    let doc = parse_json(
        r#"{"filings":{"recent":{
            "accessionNumber":["0000320193-24-000001","0000320193-24-000002","0000320193-24-000003"],
            "form":["10-K","8-K","10-k"],
            "filingDate":["2024-01-01","","2024-03-01"],
            "reportDate":["2023-12-31","",""],
            "primaryDocument":["a.htm","b.htm",""],
            "primaryDocDescription":["Annual","Current",""]
        }}}"#,
    )
    .ok()
    .unwrap();
    let rows = filing_rows(&doc, "0000320193", Some("10-K"), 20).ok().unwrap();
    assert_eq!(rows.len(), 2);
    assert_eq!(rows[0].accession.as_deref(), Some("0000320193-24-000001"));
    assert_eq!(
        rows[0].url.as_deref(),
        Some("https://www.sec.gov/Archives/edgar/data/320193/000032019324000001/a.htm")
    );
    assert_eq!(rows[0].report_date.as_deref(), Some("2023-12-31"));
    assert_eq!(rows[1].form.as_deref(), Some("10-k"));
    assert!(rows[1].url.is_none());
    assert!(rows[1].document.is_none());
    assert!(rows[1].report_date.is_none());
    let all = filing_rows(&doc, "0000320193", None, 2).ok().unwrap();
    assert_eq!(all.len(), 2);
    assert!(all[1].filed.is_none());
    assert_eq!(all[1].description.as_deref(), Some("Current"));
    let bad = parse_json("{\"filings\":{}}").ok().unwrap();
    match filing_rows(&bad, "0000320193", None, 2) {
        Err(e) => assert_eq!(e, "edgar: unexpected submissions response format (no filings.recent)"),
        Ok(_) => panic!("missing recent accepted"),
    }
}

#[test]
fn company_record_keeps_non_empty_members() {
    let doc = parse_json(
        r#"{"cik":"320193","name":"Apple Inc.","sic":"3571","website":"","tickers":["AAPL",7],
            "exchanges":"Nasdaq","addresses":{"business":{"street1":"One Apple Park Way","city":"Cupertino","zipCode":""}}}"#,
    )
    .ok()
    .unwrap();
    let c = company_record(&doc);
    assert_eq!(c.name.as_deref(), Some("Apple Inc."));
    assert!(c.website.is_none());
    assert!(c.phone.is_none());
    assert_eq!(c.tickers, Some(vec![Some("AAPL".to_string()), None]));
    assert!(c.exchanges.is_none());
    let a = c.address.unwrap();
    assert_eq!(a.city.as_deref(), Some("Cupertino"));
    assert!(a.zip_code.is_none());
    assert!(company_record(&parse_json("{}").ok().unwrap()).address.is_none());
}
