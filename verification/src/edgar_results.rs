//! The answers of SEC EDGAR: the response body, and the rows that
//! `edgar.search`, `edgar.filings` and `edgar.company` build from its JSON.

use vstd::prelude::*;
use vstd::utf8::{decode_utf8, valid_utf8};
use crate::edgar::{
    choose_filings, chosen_filings, filing_document_url, filing_document_url_spec,
    filing_index_url, filing_index_url_spec, forms_view, opt_view,
};
use crate::json_doc::{
    doc_array_len_at, doc_has_value_at, doc_string_at, extend, json_array_len_at, json_error,
    json_has_value_at, json_string_at, key, key_then_first, keys2, one_key, path2, path_view,
    JsonDoc, PathStep, StepView,
};
use crate::text::{push_decimal, push_str_chars, str_chars, string_of, utf8_decode, utf8_error_text};

verus! {

// ── The response ─────────────────────────────────────────────────────

/// What the body of an EDGAR response gives: its text when the response
/// succeeded and is UTF-8, else the error naming the status and URL or the
/// encoding problem.
pub open spec fn response_text_spec(ok: bool, status: u16, body: Seq<u8>, url: Seq<char>) -> Result<Seq<char>, Seq<char>> {
    if !ok {
        Err("edgar: HTTP "@ + crate::text::decimal(status as nat) + " from SEC EDGAR API (url: "@ + url + ")"@)
    } else if !valid_utf8(body) {
        Err("edgar: invalid UTF-8 response: "@ + utf8_error_text(body))
    } else {
        Ok(decode_utf8(body))
    }
}

/// The text of an EDGAR response, from whether it succeeded, its status and
/// its body.
pub fn response_text(ok: bool, status: u16, body: &[u8], url: &str) -> (r: Result<String, String>)
    ensures
        match response_text_spec(ok, status, body@, url@) {
            Ok(t) => r matches Ok(s) && s@ == t,
            Err(e) => r matches Err(m) && m@ == e,
        },
{
    if !ok {
        let mut m = str_chars("edgar: HTTP ");
        push_decimal(&mut m, status as u64);
        push_str_chars(&mut m, " from SEC EDGAR API (url: ");
        push_str_chars(&mut m, url);
        push_str_chars(&mut m, ")");
        return Err(string_of(&m));
    }
    match utf8_decode(body) {
        Ok(s) => Ok(s),
        Err(e) => {
            let mut m = str_chars("edgar: invalid UTF-8 response: ");
            push_str_chars(&mut m, e.as_str());
            Err(string_of(&m))
        },
    }
}

/// The headers that EDGAR requests carry: the descriptive `User-Agent` that
/// the SEC asks for, and `Accept: application/json`.
pub fn edgar_headers() -> (r: Vec<(String, String)>)
    ensures
        r@.len() == 2,
        r@[0].0@ == "User-Agent"@ && r@[0].1@ == "sandbox/1.0 (sandbox@example.com)"@,
        r@[1].0@ == "Accept"@ && r@[1].1@ == "application/json"@,
{
    let mut h: Vec<(String, String)> = Vec::new();
    h.push((string_of(&str_chars("User-Agent")), string_of(&str_chars("sandbox/1.0 (sandbox@example.com)"))));
    h.push((string_of(&str_chars("Accept")), string_of(&str_chars("application/json"))));
    h
}

/// The document of a response text, or the error for one that is not JSON.
pub fn parse_json(text: &str) -> (r: Result<JsonDoc, String>)
    ensures
        json_error(text@) is None <==> r is Ok,
        r matches Ok(d) ==> d.text_view() == text@,
        r matches Err(e) ==> e@ == "edgar: invalid JSON response: "@ + json_error(text@)->Some_0,
{
    match JsonDoc::parse(text) {
        Ok(doc) => Ok(doc),
        Err(e) => {
            let mut m = str_chars("edgar: invalid JSON response: ");
            push_str_chars(&mut m, e.as_str());
            Err(string_of(&m))
        },
    }
}

/// An optional string's text.
pub open spec fn owned_view(o: Option<String>) -> Option<Seq<char>> {
    match o {
        Some(s) => Some(s@),
        None => None,
    }
}

/// A text kept only when it is not empty.
pub open spec fn nonempty(o: Option<Seq<char>>) -> Option<Seq<char>> {
    match o {
        Some(s) => if s.len() > 0 {
            Some(s)
        } else {
            None
        },
        None => None,
    }
}

fn keep_nonempty(o: Option<String>) -> (r: Option<String>)
    ensures
        owned_view(r) == nonempty(owned_view(o)),
{
    match o {
        Some(s) => if s.as_str().is_empty() {
            None
        } else {
            Some(s)
        },
        None => None,
    }
}

// ── edgar.search ─────────────────────────────────────────────────────

/// A row of `edgar.search`.
pub struct SearchRow {
    pub accession: Option<String>,
    pub url: Option<String>,
    pub form: Option<String>,
    pub filed: Option<String>,
    pub company: Option<String>,
    pub cik: Option<String>,
    pub description: Option<String>,
    pub period_ending: Option<String>,
}

/// What a search row holds.
pub struct SearchRowView {
    pub accession: Option<Seq<char>>,
    pub url: Option<Seq<char>>,
    pub form: Option<Seq<char>>,
    pub filed: Option<Seq<char>>,
    pub company: Option<Seq<char>>,
    pub cik: Option<Seq<char>>,
    pub description: Option<Seq<char>>,
    pub period_ending: Option<Seq<char>>,
}

impl View for SearchRow {
    type V = SearchRowView;

    open spec fn view(&self) -> SearchRowView {
        SearchRowView {
            accession: owned_view(self.accession),
            url: owned_view(self.url),
            form: owned_view(self.form),
            filed: owned_view(self.filed),
            company: owned_view(self.company),
            cik: owned_view(self.cik),
            description: owned_view(self.description),
            period_ending: owned_view(self.period_ending),
        }
    }
}

/// The path of a member of the `_source` of the `i`-th search hit.
pub open spec fn source_path(i: nat, rest: Seq<StepView>) -> Seq<StepView> {
    seq![StepView::Key("hits"@), StepView::Key("hits"@), StepView::Index(i), StepView::Key("_source"@)] + rest
}

/// The row of the `i`-th search hit of a response.
pub open spec fn search_row_spec(text: Seq<char>, i: nat) -> SearchRowView {
    let adsh = json_string_at(text, source_path(i, seq![StepView::Key("adsh"@)]));
    let cik = json_string_at(text, source_path(i, seq![StepView::Key("ciks"@), StepView::Index(0)]));
    SearchRowView {
        accession: adsh,
        url: match (adsh, cik) {
            (Some(a), Some(c)) => Some(filing_index_url_spec(c, a)),
            _ => None,
        },
        form: json_string_at(text, source_path(i, seq![StepView::Key("form"@)])),
        filed: json_string_at(text, source_path(i, seq![StepView::Key("file_date"@)])),
        company: json_string_at(text, source_path(i, seq![StepView::Key("display_names"@), StepView::Index(0)])),
        cik,
        description: json_string_at(text, source_path(i, seq![StepView::Key("file_description"@)])),
        period_ending: json_string_at(text, source_path(i, seq![StepView::Key("period_ending"@)])),
    }
}

/// What `edgar.search` lists for a response: a row for each hit with a
/// `_source` (a hole for one without), or the error for a response without
/// `hits.hits`.
pub open spec fn search_rows_spec(text: Seq<char>) -> Result<Seq<Option<SearchRowView>>, Seq<char>> {
    match json_array_len_at(text, keys2("hits"@, "hits"@)) {
        None => Err("edgar: unexpected search response format (no hits.hits)"@),
        Some(n) => Ok(
            Seq::new(
                n,
                |i: int|
                    if json_has_value_at(text, source_path(i as nat, seq![])) {
                        Some(search_row_spec(text, i as nat))
                    } else {
                        None
                    },
            ),
        ),
    }
}

/// The view of optional rows.
pub open spec fn opt_rows_view(rows: Seq<Option<SearchRow>>) -> Seq<Option<SearchRowView>> {
    rows.map_values(|r: Option<SearchRow>| match r {
        Some(x) => Some(x@),
        None => None,
    })
}

fn source_member(doc: &JsonDoc, i: usize, rest: Vec<PathStep>) -> (r: Option<String>)
    ensures
        owned_view(r) == json_string_at(doc.text_view(), source_path(i as nat, path_view(rest@))),
{
    let mut p = path2("hits", "hits");
    p = extend(&p, PathStep::Index(i));
    p = extend(&p, key("_source"));
    let mut j: usize = 0;
    let ghost base = path_view(p@);
    while j < rest.len()
        invariant
            j <= rest@.len(),
            path_view(p@) == base + path_view(rest@).take(j as int),
        decreases rest.len() - j,
    {
        let step = match &rest[j] {
            PathStep::Key(k) => PathStep::Key(string_of(&str_chars(k.as_str()))),
            PathStep::Index(x) => PathStep::Index(*x),
        };
        assert(step@ == rest@[j as int]@);
        p = extend(&p, step);
        j += 1;
        assert(path_view(p@) =~= base + path_view(rest@).take(j as int));
    }
    assert(path_view(rest@).take(rest@.len() as int) =~= path_view(rest@));
    assert(base =~= source_path(i as nat, seq![]));
    assert(path_view(p@) =~= source_path(i as nat, path_view(rest@)));
    doc_string_at(doc, &p)
}

fn search_row(doc: &JsonDoc, i: usize) -> (r: SearchRow)
    ensures
        r@ == search_row_spec(doc.text_view(), i as nat),
{
    proof {
        reveal_strlit("adsh");
    }
    let adsh = source_member(doc, i, one_key("adsh"));
    let cik = source_member(doc, i, key_then_first("ciks"));
    let url = match (&adsh, &cik) {
        (Some(a), Some(c)) => Some(filing_index_url(c.as_str(), a.as_str())),
        _ => None,
    };
    SearchRow {
        accession: adsh,
        url,
        form: source_member(doc, i, one_key("form")),
        filed: source_member(doc, i, one_key("file_date")),
        company: source_member(doc, i, key_then_first("display_names")),
        cik,
        description: source_member(doc, i, one_key("file_description")),
        period_ending: source_member(doc, i, one_key("period_ending")),
    }
}

/// The rows of `edgar.search` for a response document.
pub fn search_rows(doc: &JsonDoc) -> (r: Result<Vec<Option<SearchRow>>, String>)
    ensures
        match search_rows_spec(doc.text_view()) {
            Ok(rows) => r matches Ok(v) && opt_rows_view(v@) == rows,
            Err(e) => r matches Err(m) && m@ == e,
        },
{
    let n = match doc_array_len_at(doc, &path2("hits", "hits")) {
        Some(n) => n,
        None => {
            return Err(string_of(&str_chars("edgar: unexpected search response format (no hits.hits)")));
        },
    };
    let ghost text = doc.text_view();
    let mut rows: Vec<Option<SearchRow>> = Vec::new();
    let mut i: usize = 0;
    while i < n
        invariant
            i <= n,
            text == doc.text_view(),
            json_array_len_at(text, keys2("hits"@, "hits"@)) == Some(n as nat),
            opt_rows_view(rows@) == search_rows_spec(text)->Ok_0.take(i as int),
        decreases n - i,
    {
        let mut p = path2("hits", "hits");
        p = extend(&p, PathStep::Index(i));
        p = extend(&p, key("_source"));
        assert(path_view(p@) =~= source_path(i as nat, seq![]));
        let ghost before = rows@;
        let ghost want = search_rows_spec(text)->Ok_0;
        if doc_has_value_at(doc, &p) {
            let row = search_row(doc, i);
            assert(want[i as int] == Some(row@));
            rows.push(Some(row));
        } else {
            assert(want[i as int] is None);
            rows.push(None);
        }
        assert(opt_rows_view(rows@) =~= opt_rows_view(before).push(want[i as int]));
        i += 1;
        assert(want.take(i as int) =~= want.take(i - 1).push(want[i - 1]));
    }
    assert(search_rows_spec(text)->Ok_0.take(n as int) =~= search_rows_spec(text)->Ok_0);
    Ok(rows)
}

// ── edgar.filings ────────────────────────────────────────────────────

/// A row of `edgar.filings`.
pub struct FilingRow {
    pub accession: Option<String>,
    pub url: Option<String>,
    pub form: Option<String>,
    pub filed: Option<String>,
    pub report_date: Option<String>,
    pub document: Option<String>,
    pub description: Option<String>,
}

/// What a filing row holds.
pub struct FilingRowView {
    pub accession: Option<Seq<char>>,
    pub url: Option<Seq<char>>,
    pub form: Option<Seq<char>>,
    pub filed: Option<Seq<char>>,
    pub report_date: Option<Seq<char>>,
    pub document: Option<Seq<char>>,
    pub description: Option<Seq<char>>,
}

impl View for FilingRow {
    type V = FilingRowView;

    open spec fn view(&self) -> FilingRowView {
        FilingRowView {
            accession: owned_view(self.accession),
            url: owned_view(self.url),
            form: owned_view(self.form),
            filed: owned_view(self.filed),
            report_date: owned_view(self.report_date),
            document: owned_view(self.document),
            description: owned_view(self.description),
        }
    }
}

/// The path of the `i`-th entry of a column of `filings.recent`.
pub open spec fn column_path(column: Seq<char>, i: nat) -> Seq<StepView> {
    seq![StepView::Key("filings"@), StepView::Key("recent"@), StepView::Key(column), StepView::Index(i)]
}

/// The path of a column of `filings.recent`.
pub open spec fn column_array(column: Seq<char>) -> Seq<StepView> {
    seq![StepView::Key("filings"@), StepView::Key("recent"@), StepView::Key(column)]
}

/// The `i`-th entry of a column, as a string.
pub open spec fn cell(text: Seq<char>, column: Seq<char>, i: nat) -> Option<Seq<char>> {
    json_string_at(text, column_path(column, i))
}

/// The form column, entry by entry, when it is an array.
pub open spec fn form_column(text: Seq<char>) -> Option<Seq<Option<Seq<char>>>> {
    match json_array_len_at(text, column_array("form"@)) {
        Some(n) => Some(Seq::new(n, |j: int| cell(text, "form"@, j as nat))),
        None => None,
    }
}

/// The row of the `i`-th filing of a company with the given CIK.
pub open spec fn filing_row_spec(text: Seq<char>, cik: Seq<char>, i: nat) -> FilingRowView {
    let acc = cell(text, "accessionNumber"@, i);
    let doc = cell(text, "primaryDocument"@, i);
    FilingRowView {
        accession: acc,
        url: match (acc, doc) {
            (Some(a), Some(d)) => if d.len() > 0 {
                Some(filing_document_url_spec(cik, a, d))
            } else {
                None
            },
            _ => None,
        },
        form: cell(text, "form"@, i),
        filed: nonempty(cell(text, "filingDate"@, i)),
        report_date: nonempty(cell(text, "reportDate"@, i)),
        document: nonempty(doc),
        description: nonempty(cell(text, "primaryDocDescription"@, i)),
    }
}

/// What `edgar.filings` lists for a response: the rows of the first `count`
/// filings whose form passes the filter, or the error for a response without
/// `filings.recent`.
pub open spec fn filing_rows_spec(text: Seq<char>, cik: Seq<char>, filter: Option<Seq<char>>, count: nat) -> Result<Seq<FilingRowView>, Seq<char>> {
    if !json_has_value_at(text, keys2("filings"@, "recent"@)) {
        Err("edgar: unexpected submissions response format (no filings.recent)"@)
    } else {
        let total = match json_array_len_at(text, column_array("accessionNumber"@)) {
            Some(n) => n,
            None => 0,
        };
        let chosen = chosen_filings(form_column(text), filter, total, count);
        Ok(Seq::new(chosen.len(), |k: int| filing_row_spec(text, cik, chosen[k])))
    }
}

fn column(name: &str) -> (r: Vec<PathStep>)
    ensures
        path_view(r@) == column_array(name@),
{
    let p = path2("filings", "recent");
    let r = extend(&p, key(name));
    assert(path_view(r@) =~= column_array(name@));
    r
}

fn cell_at(doc: &JsonDoc, name: &str, i: usize) -> (r: Option<String>)
    ensures
        owned_view(r) == cell(doc.text_view(), name@, i as nat),
{
    let p = extend(&column(name), PathStep::Index(i));
    assert(path_view(p@) =~= column_path(name@, i as nat));
    doc_string_at(doc, &p)
}

fn forms_of(doc: &JsonDoc) -> (r: Option<Vec<Option<String>>>)
    ensures
        forms_view(
            match &r {
                Some(v) => Some(v),
                None => None,
            },
        ) == form_column(doc.text_view()),
{
    proof {
        reveal_strlit("form");
    }
    let n = match doc_array_len_at(doc, &column("form")) {
        Some(n) => n,
        None => {
            return None;
        },
    };
    let ghost want = Seq::new(n as nat, |j: int| cell(doc.text_view(), "form"@, j as nat));
    let mut out: Vec<Option<String>> = Vec::new();
    let mut i: usize = 0;
    while i < n
        invariant
            i <= n,
            want == Seq::new(n as nat, |j: int| cell(doc.text_view(), "form"@, j as nat)),
            out@.len() == i,
            forall|j: int| 0 <= j < i ==> #[trigger] owned_view(out@[j]) == want[j],
        decreases n - i,
    {
        out.push(cell_at(doc, "form", i));
        i += 1;
    }
    assert forall|j: int| 0 <= j < out@.len() implies #[trigger] forms_view(Some(&out))->Some_0[j] == want[j] by {
        assert(owned_view(out@[j]) == want[j]);
    }
    assert(forms_view(Some(&out))->Some_0 =~= want);
    Some(out)
}

fn filing_row(doc: &JsonDoc, cik: &str, i: usize) -> (r: FilingRow)
    ensures
        r@ == filing_row_spec(doc.text_view(), cik@, i as nat),
{
    let accession = cell_at(doc, "accessionNumber", i);
    let document = cell_at(doc, "primaryDocument", i);
    let url = match (&accession, &document) {
        (Some(a), Some(d)) => if d.as_str().is_empty() {
            None
        } else {
            Some(filing_document_url(cik, a.as_str(), d.as_str()))
        },
        _ => None,
    };
    FilingRow {
        accession,
        url,
        form: cell_at(doc, "form", i),
        filed: keep_nonempty(cell_at(doc, "filingDate", i)),
        report_date: keep_nonempty(cell_at(doc, "reportDate", i)),
        document: keep_nonempty(document),
        description: keep_nonempty(cell_at(doc, "primaryDocDescription", i)),
    }
}

/// The rows of `edgar.filings` for a response document, the company's
/// ten-digit CIK, the form filter and the count of the request.
pub fn filing_rows(doc: &JsonDoc, cik: &str, form_filter: Option<&str>, count: usize) -> (r: Result<Vec<FilingRow>, String>)
    ensures
        match filing_rows_spec(doc.text_view(), cik@, opt_view(form_filter), count as nat) {
            Ok(rows) => r matches Ok(v) && v@.map_values(|x: FilingRow| x@) == rows,
            Err(e) => r matches Err(m) && m@ == e,
        },
{
    if !doc_has_value_at(doc, &path2("filings", "recent")) {
        return Err(string_of(&str_chars("edgar: unexpected submissions response format (no filings.recent)")));
    }
    let total = match doc_array_len_at(doc, &column("accessionNumber")) {
        Some(n) => n,
        None => 0,
    };
    let forms = forms_of(doc);
    let chosen = choose_filings(forms.as_ref(), form_filter, total, count);
    let ghost text = doc.text_view();
    let ghost want = filing_rows_spec(text, cik@, opt_view(form_filter), count as nat)->Ok_0;
    assert(chosen@.map_values(|i: usize| i as nat) == chosen_filings(form_column(text), opt_view(form_filter), total as nat, count as nat));
    let mut rows: Vec<FilingRow> = Vec::new();
    let mut k: usize = 0;
    while k < chosen.len()
        invariant
            k <= chosen@.len(),
            text == doc.text_view(),
            want.len() == chosen@.len(),
            forall|j: int| 0 <= j < chosen@.len() ==> #[trigger] want[j] == filing_row_spec(text, cik@, chosen@[j] as nat),
            rows@.len() == k,
            forall|j: int| 0 <= j < k ==> #[trigger] rows@[j]@ == want[j],
        decreases chosen.len() - k,
    {
        rows.push(filing_row(doc, cik, chosen[k]));
        k += 1;
    }
    assert(rows@.map_values(|x: FilingRow| x@) =~= want);
    Ok(rows)
}

// ── edgar.company ────────────────────────────────────────────────────

/// The business address of a company.
pub struct Address {
    pub street1: Option<String>,
    pub street2: Option<String>,
    pub city: Option<String>,
    pub state_or_country: Option<String>,
    pub zip_code: Option<String>,
}

/// The record of `edgar.company`.
pub struct CompanyRecord {
    pub cik: Option<String>,
    pub name: Option<String>,
    pub sic: Option<String>,
    pub sic_description: Option<String>,
    pub entity_type: Option<String>,
    pub website: Option<String>,
    pub state_of_incorporation: Option<String>,
    pub category: Option<String>,
    pub phone: Option<String>,
    pub ein: Option<String>,
    pub fiscal_year_end: Option<String>,
    pub description: Option<String>,
    pub tickers: Option<Vec<Option<String>>>,
    pub exchanges: Option<Vec<Option<String>>>,
    pub address: Option<Address>,
}

/// A member of the response kept when it is a non-empty string.
pub open spec fn member(text: Seq<char>, path: Seq<StepView>) -> Option<Seq<char>> {
    nonempty(json_string_at(text, path))
}

/// The strings of the array at a path, entry by entry (a hole for an entry
/// that is not a string), when there is an array there.
pub open spec fn string_list(text: Seq<char>, path: Seq<StepView>) -> Option<Seq<Option<Seq<char>>>> {
    match json_array_len_at(text, path) {
        Some(n) => Some(Seq::new(n, |j: int| json_string_at(text, path.push(StepView::Index(j as nat))))),
        None => None,
    }
}

/// The view of an optional list of optional strings.
pub open spec fn list_view(l: Option<Vec<Option<String>>>) -> Option<Seq<Option<Seq<char>>>> {
    match l {
        Some(v) => Some(v@.map_values(|x: Option<String>| owned_view(x))),
        None => None,
    }
}

/// The address of a response: present when `addresses.business` is, with
/// its non-empty string members.
pub open spec fn address_matches(text: Seq<char>, a: Option<Address>) -> bool {
    let base = keys2("addresses"@, "business"@);
    match a {
        None => !json_has_value_at(text, base),
        Some(x) => {
            &&& json_has_value_at(text, base)
            &&& owned_view(x.street1) == member(text, base.push(StepView::Key("street1"@)))
            &&& owned_view(x.street2) == member(text, base.push(StepView::Key("street2"@)))
            &&& owned_view(x.city) == member(text, base.push(StepView::Key("city"@)))
            &&& owned_view(x.state_or_country) == member(text, base.push(StepView::Key("stateOrCountry"@)))
            &&& owned_view(x.zip_code) == member(text, base.push(StepView::Key("zipCode"@)))
        },
    }
}

/// Whether a record is the one `edgar.company` builds from a response.
pub open spec fn company_matches(text: Seq<char>, c: CompanyRecord) -> bool {
    &&& owned_view(c.cik) == member(text, seq![StepView::Key("cik"@)])
    &&& owned_view(c.name) == member(text, seq![StepView::Key("name"@)])
    &&& owned_view(c.sic) == member(text, seq![StepView::Key("sic"@)])
    &&& owned_view(c.sic_description) == member(text, seq![StepView::Key("sicDescription"@)])
    &&& owned_view(c.entity_type) == member(text, seq![StepView::Key("entityType"@)])
    &&& owned_view(c.website) == member(text, seq![StepView::Key("website"@)])
    &&& owned_view(c.state_of_incorporation) == member(text, seq![StepView::Key("stateOfIncorporation"@)])
    &&& owned_view(c.category) == member(text, seq![StepView::Key("category"@)])
    &&& owned_view(c.phone) == member(text, seq![StepView::Key("phone"@)])
    &&& owned_view(c.ein) == member(text, seq![StepView::Key("ein"@)])
    &&& owned_view(c.fiscal_year_end) == member(text, seq![StepView::Key("fiscalYearEnd"@)])
    &&& owned_view(c.description) == member(text, seq![StepView::Key("description"@)])
    &&& list_view(c.tickers) == string_list(text, seq![StepView::Key("tickers"@)])
    &&& list_view(c.exchanges) == string_list(text, seq![StepView::Key("exchanges"@)])
    &&& address_matches(text, c.address)
}

fn member_at(doc: &JsonDoc, path: &Vec<PathStep>) -> (r: Option<String>)
    ensures
        owned_view(r) == member(doc.text_view(), path_view(path@)),
{
    keep_nonempty(doc_string_at(doc, path))
}

fn top(doc: &JsonDoc, k: &str) -> (r: Option<String>)
    ensures
        owned_view(r) == member(doc.text_view(), seq![StepView::Key(k@)]),
{
    member_at(doc, &one_key(k))
}

fn strings_at(doc: &JsonDoc, path: &Vec<PathStep>) -> (r: Option<Vec<Option<String>>>)
    ensures
        list_view(r) == string_list(doc.text_view(), path_view(path@)),
{
    let n = match doc_array_len_at(doc, path) {
        Some(n) => n,
        None => {
            return None;
        },
    };
    let ghost want = string_list(doc.text_view(), path_view(path@))->Some_0;
    let mut out: Vec<Option<String>> = Vec::new();
    let mut i: usize = 0;
    while i < n
        invariant
            i <= n,
            want.len() == n,
            forall|j: int| 0 <= j < n ==> #[trigger] want[j] == json_string_at(doc.text_view(), path_view(path@).push(StepView::Index(j as nat))),
            out@.len() == i,
            forall|j: int| 0 <= j < i ==> #[trigger] owned_view(out@[j]) == want[j],
        decreases n - i,
    {
        let p = extend(path, PathStep::Index(i));
        out.push(doc_string_at(doc, &p));
        i += 1;
    }
    assert(list_view(Some(out))->Some_0 =~= want);
    Some(out)
}

fn address_member(doc: &JsonDoc, k: &str) -> (r: Option<String>)
    ensures
        owned_view(r) == member(doc.text_view(), keys2("addresses"@, "business"@).push(StepView::Key(k@))),
{
    let p = extend(&path2("addresses", "business"), key(k));
    member_at(doc, &p)
}

/// The record of `edgar.company` for a response document: its non-empty
/// string members, its ticker and exchange lists, and its business address.
pub fn company_record(doc: &JsonDoc) -> (r: CompanyRecord)
    ensures
        company_matches(doc.text_view(), r),
{
    let address = if doc_has_value_at(doc, &path2("addresses", "business")) {
        Some(
            Address {
                street1: address_member(doc, "street1"),
                street2: address_member(doc, "street2"),
                city: address_member(doc, "city"),
                state_or_country: address_member(doc, "stateOrCountry"),
                zip_code: address_member(doc, "zipCode"),
            },
        )
    } else {
        None
    };
    CompanyRecord {
        cik: top(doc, "cik"),
        name: top(doc, "name"),
        sic: top(doc, "sic"),
        sic_description: top(doc, "sicDescription"),
        entity_type: top(doc, "entityType"),
        website: top(doc, "website"),
        state_of_incorporation: top(doc, "stateOfIncorporation"),
        category: top(doc, "category"),
        phone: top(doc, "phone"),
        ein: top(doc, "ein"),
        fiscal_year_end: top(doc, "fiscalYearEnd"),
        description: top(doc, "description"),
        tickers: strings_at(doc, &one_key("tickers")),
        exchanges: strings_at(doc, &one_key("exchanges")),
        address,
    }
}

} // verus!
