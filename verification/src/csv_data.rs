//! The `csv` module: the options of `csv.parse`, the rows it builds from the
//! records that the `csv` crate reads, and the records that `csv.stringify`
//! hands to the crate's writer.

use vstd::prelude::*;
use crate::text::{decimal, push_decimal, str_chars, str_eq, string_of};

verus! {

// ── Options ──────────────────────────────────────────────────────────

/// The options of `csv.parse`.
#[derive(Debug, Clone, Copy, PartialEq, Eq, Structural)]
pub struct CsvOpts {
    pub delimiter: u8,
    pub quote: u8,
    pub header: bool,
    pub skip_rows: usize,
}

/// The `header` option as the options table holds it.
pub enum HeaderOption {
    Flag(bool),
    Text(String),
    /// Any other value, which leaves the setting as it was.
    Other,
}

impl CsvOpts {
    /// The defaults: comma, double quote, no header row, no rows skipped.
    pub fn defaults() -> (r: CsvOpts)
        ensures
            r == (CsvOpts { delimiter: 44u8, quote: 34u8, header: false, skip_rows: 0 }),
    {
        CsvOpts { delimiter: 44u8, quote: 34u8, header: false, skip_rows: 0 }
    }
}

/// The options after the values of an options table are applied: the first
/// byte of a non-empty delimiter or quote text; a header flag, or a header
/// text that is `true`, `1` or `yes`; a skip count, negative counts taken as
/// zero.
pub open spec fn apply_options_spec(
    o: CsvOpts,
    delimiter: Option<Seq<u8>>,
    quote: Option<Seq<u8>>,
    header: Option<HeaderOption>,
    skip_rows: Option<i32>,
) -> CsvOpts {
    CsvOpts {
        delimiter: match delimiter {
            Some(d) => if d.len() > 0 {
                d[0]
            } else {
                o.delimiter
            },
            None => o.delimiter,
        },
        quote: match quote {
            Some(q) => if q.len() > 0 {
                q[0]
            } else {
                o.quote
            },
            None => o.quote,
        },
        header: match header {
            Some(HeaderOption::Flag(b)) => b,
            Some(HeaderOption::Text(s)) => s@ == "true"@ || s@ == "1"@ || s@ == "yes"@,
            _ => o.header,
        },
        skip_rows: match skip_rows {
            Some(n) => if n < 0 {
                0
            } else {
                n as usize
            },
            None => o.skip_rows,
        },
    }
}

/// Applies the values of an options table (`delimiter` or `d`, `quote` or
/// `q`, `header` or `h`, `skipRows`) to the options.
pub fn apply_options(
    o: CsvOpts,
    delimiter: Option<&str>,
    quote: Option<&str>,
    header: Option<HeaderOption>,
    skip_rows: Option<i32>,
) -> (r: CsvOpts)
    ensures
        r == apply_options_spec(
            o,
            match delimiter {
                Some(d) => Some(vstd::utf8::encode_utf8(d@)),
                None => None,
            },
            match quote {
                Some(q) => Some(vstd::utf8::encode_utf8(q@)),
                None => None,
            },
            header,
            skip_rows,
        ),
{
    let mut r = o;
    if let Some(d) = delimiter {
        let b = d.as_bytes();
        if b.len() > 0 {
            r.delimiter = b[0];
        }
    }
    if let Some(q) = quote {
        let b = q.as_bytes();
        if b.len() > 0 {
            r.quote = b[0];
        }
    }
    match header {
        Some(HeaderOption::Flag(b)) => {
            r.header = b;
        },
        Some(HeaderOption::Text(s)) => {
            r.header = str_eq(s.as_str(), "true") || str_eq(s.as_str(), "1") || str_eq(s.as_str(), "yes");
        },
        _ => {},
    }
    if let Some(n) = skip_rows {
        r.skip_rows = if n < 0 {
            0
        } else {
            n as usize
        };
    }
    r
}

// ── Reading ──────────────────────────────────────────────────────────

/// The header record the `csv` crate reads from the data, or its error text.
pub uninterp spec fn csv_header_record(data: Seq<u8>, delimiter: u8, quote: u8) -> Result<Seq<Seq<char>>, Seq<char>>;

/// The records (after the header record when `has_headers`) that the `csv`
/// crate reads from the data, each a list of fields or an error text.
pub uninterp spec fn csv_records(data: Seq<u8>, delimiter: u8, quote: u8, has_headers: bool) -> Seq<Result<Seq<Seq<char>>, Seq<char>>>;

/// The fields of records.
pub open spec fn fields_view(r: Vec<String>) -> Seq<Seq<char>> {
    r@.map_values(|s: String| s@)
}

/// The fields of optional records.
pub open spec fn opt_fields_view(h: &Option<Vec<String>>) -> Option<Seq<Seq<char>>> {
    match h {
        Some(v) => Some(fields_view(*v)),
        None => None,
    }
}

/// The records as read.
pub open spec fn records_view(v: Seq<Result<Vec<String>, String>>) -> Seq<Result<Seq<Seq<char>>, Seq<char>>> {
    v.map_values(|x: Result<Vec<String>, String>| record_view(x))
}

proof fn lemma_records_step(prev: Seq<Result<Vec<String>, String>>, now: Seq<Result<Vec<String>, String>>, whole: Seq<Result<Seq<Seq<char>>, Seq<char>>>, k: int)
    requires
        prev.len() > 0,
        now =~= prev.drop_first(),
        records_view(prev) == whole.skip(k),
        0 <= k < whole.len(),
    ensures
        records_view(now) == whole.skip(k + 1),
{
    assert(records_view(prev).len() == prev.len());
    assert(whole.skip(k).len() == whole.len() - k);
    assert(now.len() == prev.len() - 1);
    assert(records_view(now).len() == now.len());
    assert forall|j: int| 0 <= j < now.len() implies records_view(now)[j] == whole.skip(k + 1)[j] by {
        assert(now[j] == prev[j + 1]);
        assert(records_view(now)[j] == record_view(now[j]));
        assert(records_view(prev)[j + 1] == record_view(prev[j + 1]));
        assert(records_view(prev)[j + 1] == whole.skip(k)[j + 1]);
        assert(whole.skip(k)[j + 1] == whole[k + j + 1]);
        assert(whole.skip(k + 1)[j] == whole[k + 1 + j]);
    }
    assert(records_view(now) =~= whole.skip(k + 1));
}

/// A record as read: its fields, or the error text.
pub open spec fn record_view(r: Result<Vec<String>, String>) -> Result<Seq<Seq<char>>, Seq<char>> {
    match r {
        Ok(f) => Ok(fields_view(f)),
        Err(e) => Err(e@),
    }
}

/// `ReaderBuilder` (delimiter, quote, has_headers), `Reader::headers` and
/// `Reader::records` from the `csv` crate over the data: the header record
/// when `has_headers`, named by `csv_header_record`, and every record after
/// it with each error's text, named by `csv_records`. When the header record
/// fails no record is read.
#[verifier::external_body]
fn read_csv(data: &[u8], delimiter: u8, quote: u8, has_headers: bool) -> (r: (Option<Result<Vec<String>, String>>, Vec<Result<Vec<String>, String>>))
    ensures
        match r.0 {
            Some(h) => has_headers && record_view(h) == csv_header_record(data@, delimiter, quote),
            None => !has_headers,
        },
        match r.0 {
            Some(Err(_)) => r.1@.len() == 0,
            _ => records_view(r.1@) == csv_records(
                data@,
                delimiter,
                quote,
                has_headers,
            ),
        },
{
    let mut rdr = ::csv::ReaderBuilder::new().delimiter(delimiter).quote(quote).has_headers(has_headers).from_reader(data);
    let fields = |rec: &::csv::StringRecord| rec.iter().map(|s| s.to_string()).collect::<Vec<String>>();
    let headers = if has_headers { Some(rdr.headers().map(fields).map_err(|e| e.to_string())) } else { None };
    if let Some(Err(_)) = headers {
        return (headers, Vec::new());
    }
    let records = rdr.records().map(|rec| rec.map(|r| fields(&r)).map_err(|e| e.to_string())).collect();
    (headers, records)
}

/// A parsed row: named by the header record, or by position.
pub enum CsvRow {
    Named(Vec<(String, String)>),
    Positional(Vec<String>),
}

/// What a row holds.
pub enum RowView {
    Named(Seq<(Seq<char>, Seq<char>)>),
    Positional(Seq<Seq<char>>),
}

impl View for CsvRow {
    type V = RowView;

    open spec fn view(&self) -> RowView {
        match self {
            CsvRow::Named(p) => RowView::Named(p@.map_values(|e: (String, String)| (e.0@, e.1@))),
            CsvRow::Positional(f) => RowView::Positional(f@.map_values(|s: String| s@)),
        }
    }
}

/// The index of `key` among the keys of a row, if it is there.
pub open spec fn key_index(row: Seq<(Seq<char>, Seq<char>)>, key: Seq<char>) -> Option<int> {
    if exists|i: int| 0 <= i < row.len() && row[i].0 == key {
        Some(choose|i: int| 0 <= i < row.len() && row[i].0 == key)
    } else {
        None
    }
}

/// The row with `key` set to `value`: its value replaced when the key is
/// there, else the pair added at the end (as setting a table field does).
pub open spec fn set_field(row: Seq<(Seq<char>, Seq<char>)>, key: Seq<char>, value: Seq<char>) -> Seq<(Seq<char>, Seq<char>)> {
    match key_index(row, key) {
        Some(i) => row.update(i, (key, value)),
        None => row.push((key, value)),
    }
}

/// The row of the first `n` fields of a record named by the header record
/// (fields past the headers are dropped).
pub open spec fn named_row(headers: Seq<Seq<char>>, fields: Seq<Seq<char>>, n: nat) -> Seq<(Seq<char>, Seq<char>)>
    decreases n,
{
    if n == 0 {
        seq![]
    } else {
        set_field(named_row(headers, fields, (n - 1) as nat), headers[n - 1], fields[n - 1])
    }
}

/// The row of a record.
pub open spec fn row_of(headers: Option<Seq<Seq<char>>>, fields: Seq<Seq<char>>) -> RowView {
    match headers {
        Some(h) => RowView::Named(
            named_row(h, fields, if fields.len() < h.len() { fields.len() } else { h.len() }),
        ),
        None => RowView::Positional(fields),
    }
}

/// Whether the records before `i` were all read without error.
pub open spec fn ok_before(recs: Seq<Result<Seq<Seq<char>>, Seq<char>>>, i: int) -> bool {
    forall|j: int| 0 <= j < i ==> #[trigger] recs[j] is Ok
}

/// The rows of the records, or the error of the first record that failed.
pub open spec fn rows_of(recs: Seq<Result<Seq<Seq<char>>, Seq<char>>>, headers: Option<Seq<Seq<char>>>) -> Result<Seq<RowView>, Seq<char>> {
    if exists|i: int| 0 <= i < recs.len() && recs[i] is Err && ok_before(recs, i) {
        let i = choose|i: int| 0 <= i < recs.len() && recs[i] is Err && ok_before(recs, i);
        Err(recs[i]->Err_0)
    } else {
        Ok(Seq::new(recs.len(), |j: int| row_of(headers, recs[j]->Ok_0)))
    }
}

/// What `csv.parse` gives for data and options: the rows after the first
/// `skip_rows` records (read or failed), named by the header record when
/// there is one; or the error of the header record or of the first failing
/// record after the skipped ones.
pub open spec fn parse_csv_spec(data: Seq<u8>, o: CsvOpts) -> Result<Seq<RowView>, Seq<char>> {
    let recs = csv_records(data, o.delimiter, o.quote, o.header);
    let rest = recs.skip(if o.skip_rows < recs.len() { o.skip_rows as int } else { recs.len() as int });
    if o.header {
        match csv_header_record(data, o.delimiter, o.quote) {
            Err(e) => Err(e),
            Ok(h) => rows_of(rest, Some(h)),
        }
    } else {
        rows_of(rest, None)
    }
}

/// `csv.parse` drops the first `skip_rows` records and keeps every other one,
/// in order, whether or not the data has a header row: when the kept records
/// read without error there are `max(0, n - skip_rows)` rows of the `n`
/// records, and row `i` is record `i + skip_rows` (by position without a
/// header row, named by the header record with one).
pub proof fn law_parse_skips_leading_records(data: Seq<u8>, o: CsvOpts)
    requires
        forall|j: int|
            o.skip_rows <= j < csv_records(data, o.delimiter, o.quote, o.header).len() ==> (
            #[trigger] csv_records(data, o.delimiter, o.quote, o.header)[j]) is Ok,
        o.header ==> csv_header_record(data, o.delimiter, o.quote) is Ok,
    ensures
        ({
            let recs = csv_records(data, o.delimiter, o.quote, o.header);
            let n = recs.len() as int;
            let k = o.skip_rows as int;
            &&& parse_csv_spec(data, o) is Ok
            &&& parse_csv_spec(data, o)->Ok_0.len() == (if k < n { n - k } else { 0 })
            &&& forall|i: int|
                0 <= i < parse_csv_spec(data, o)->Ok_0.len() ==> (#[trigger] parse_csv_spec(
                    data,
                    o,
                )->Ok_0[i]) == if o.header {
                    row_of(Some(csv_header_record(data, o.delimiter, o.quote)->Ok_0), recs[i + k]->Ok_0)
                } else {
                    RowView::Positional(recs[i + k]->Ok_0)
                }
        }),
{
    let recs = csv_records(data, o.delimiter, o.quote, o.header);
    let k = if o.skip_rows < recs.len() { o.skip_rows as int } else { recs.len() as int };
    let rest = recs.skip(k);
    assert forall|i: int| 0 <= i < rest.len() implies rest[i] is Ok by {
        assert(rest[i] == recs[i + k]);
    }
    assert(!(exists|i: int| 0 <= i < rest.len() && rest[i] is Err && ok_before(rest, i)));
}

proof fn lemma_first_error(recs: Seq<Result<Seq<Seq<char>>, Seq<char>>>, headers: Option<Seq<Seq<char>>>, i: int)
    requires
        0 <= i < recs.len(),
        recs[i] is Err,
        ok_before(recs, i),
    ensures
        rows_of(recs, headers) == Err::<Seq<RowView>, Seq<char>>(recs[i]->Err_0),
{
    let k = choose|k: int| 0 <= k < recs.len() && recs[k] is Err && ok_before(recs, k);
    if k < i {
        assert(recs[k] is Ok);
    }
    if k > i {
        assert(recs[i] is Ok);
    }
}

proof fn lemma_key_index(row: Seq<(Seq<char>, Seq<char>)>, key: Seq<char>, i: int)
    requires
        0 <= i < row.len(),
        row[i].0 == key,
        forall|a: int, b: int| 0 <= a < b < row.len() ==> row[a].0 != row[b].0,
    ensures
        key_index(row, key) == Some(i),
{
    let c = choose|c: int| 0 <= c < row.len() && row[c].0 == key;
    if c < i {
        assert(row[c].0 != row[i].0);
    } else if c > i {
        assert(row[i].0 != row[c].0);
    }
}

fn set_field_exec(row: &mut Vec<(String, String)>, key: &String, value: &String)
    requires
        forall|a: int, b: int|
            0 <= a < b < old(row)@.len() ==> old(row)@[a].0@ != old(row)@[b].0@,
    ensures
        final(row)@.map_values(|e: (String, String)| (e.0@, e.1@)) == set_field(
            old(row)@.map_values(|e: (String, String)| (e.0@, e.1@)),
            key@,
            value@,
        ),
        forall|a: int, b: int|
            0 <= a < b < final(row)@.len() ==> final(row)@[a].0@ != final(row)@[b].0@,
{
    let ghost before = row@.map_values(|e: (String, String)| (e.0@, e.1@));
    let mut i: usize = 0;
    while i < row.len()
        invariant
            i <= row@.len(),
            row@ == old(row)@,
            before == row@.map_values(|e: (String, String)| (e.0@, e.1@)),
            forall|j: int| 0 <= j < i ==> row@[j].0@ != key@,
            forall|a: int, b: int| 0 <= a < b < row@.len() ==> row@[a].0@ != row@[b].0@,
        decreases row.len() - i,
    {
        if str_eq(row[i].0.as_str(), key.as_str()) {
            let k = string_of(&str_chars(key.as_str()));
            let v = string_of(&str_chars(value.as_str()));
            proof {
                assert(before[i as int].0 == key@);
                assert forall|a: int, b: int| 0 <= a < b < before.len() implies before[a].0 != before[b].0 by {
                    assert(row@[a].0@ != row@[b].0@);
                }
                lemma_key_index(before, key@, i as int);
            }
            let ghost old_row = row@;
            row.set(i, (k, v));
            assert forall|a: int| 0 <= a < row@.len() implies row@[a].0@ == old_row[a].0@ by {}
            assert(row@.map_values(|e: (String, String)| (e.0@, e.1@)) =~= before.update(
                i as int,
                (key@, value@),
            ));
            return;
        }
        i += 1;
    }
    assert(key_index(before, key@) is None) by {
        assert forall|c: int| 0 <= c < before.len() implies before[c].0 != key@ by {
            assert(row@[c].0@ != key@);
        }
    }
    row.push((string_of(&str_chars(key.as_str())), string_of(&str_chars(value.as_str()))));
    assert(row@.map_values(|e: (String, String)| (e.0@, e.1@)) =~= before.push((key@, value@)));
}

fn make_row(headers: Option<&Vec<String>>, fields: Vec<String>) -> (r: CsvRow)
    ensures
        r@ == row_of(
            match headers {
                Some(h) => Some(fields_view(*h)),
                None => None,
            },
            fields_view(fields),
        ),
{
    match headers {
        None => {
            let r = CsvRow::Positional(fields);
            assert(r@ == RowView::Positional(fields_view(fields)));
            r
        },
        Some(h) => {
            let n = if fields.len() < h.len() {
                fields.len()
            } else {
                h.len()
            };
            let mut row: Vec<(String, String)> = Vec::new();
            let mut i: usize = 0;
            while i < n
                invariant
                    i <= n,
                    n <= fields@.len(),
                    n <= h@.len(),
                    row@.map_values(|e: (String, String)| (e.0@, e.1@)) == named_row(
                        fields_view(*h),
                        fields_view(fields),
                        i as nat,
                    ),
                    forall|a: int, b: int| 0 <= a < b < row@.len() ==> row@[a].0@ != row@[b].0@,
                decreases n - i,
            {
                set_field_exec(&mut row, &h[i], &fields[i]);
                i += 1;
            }
            CsvRow::Named(row)
        },
    }
}

/// `csv.parse` on data: the rows of its records under the options.
pub fn parse_csv(data: &[u8], opts: &CsvOpts) -> (r: Result<Vec<CsvRow>, String>)
    ensures
        match parse_csv_spec(data@, *opts) {
            Ok(rows) => r matches Ok(v) && v@.map_values(|x: CsvRow| x@) == rows,
            Err(e) => r matches Err(m) && m@ == e,
        },
{
    let (headers, records) = read_csv(data, opts.delimiter, opts.quote, opts.header);
    let header_fields: Option<Vec<String>> = match headers {
        Some(Err(e)) => {
            return Err(e);
        },
        Some(Ok(h)) => Some(h),
        None => None,
    };
    let ghost hv: Option<Seq<Seq<char>>> = opt_fields_view(&header_fields);
    let ghost recs = records_view(records@);
    let start: usize = if opts.skip_rows < records.len() {
        opts.skip_rows
    } else {
        records.len()
    };
    let ghost rest = recs.skip(start as int);
    let mut rows: Vec<CsvRow> = Vec::new();
    let total = records.len();
    let mut remaining = records;
    let mut k: usize = 0;
    assert(recs.len() == total);
    assert(recs.skip(0) =~= recs);
    while k < start
        invariant
            k <= start <= recs.len(),
            recs.len() == total,
            records_view(remaining@) == recs.skip(k as int),
        decreases start - k,
    {
        assert(records_view(remaining@).len() == remaining@.len());
        let ghost prev = remaining@;
        remaining.remove(0);
        proof {
            lemma_records_step(prev, remaining@, recs, k as int);
        }
        k += 1;
    }
    let mut i: usize = 0;
    assert(rest.skip(0) =~= rest);
    assert(parse_csv_spec(data@, *opts) == rows_of(rest, hv));
    while remaining.len() > 0
        invariant
            parse_csv_spec(data@, *opts) == rows_of(rest, hv),
            rest == recs.skip(start as int),
            recs.len() == total,
            start <= total,
            i <= rest.len(),
            records_view(remaining@) == rest.skip(i as int),
            ok_before(rest, i as int),
            rows@.len() == i,
            forall|j: int| 0 <= j < i ==> #[trigger] rows@[j]@ == row_of(hv, rest[j]->Ok_0),
            hv == opt_fields_view(&header_fields),
        decreases remaining.len(),
    {
        let ghost rv = records_view(remaining@);
        assert(rv.len() == rest.len() - i);
        assert(rv[0] == rest[i as int]);
        let ghost prev = remaining@;
        let rec = remaining.remove(0);
        assert(record_view(rec) == rest[i as int]);
        proof {
            lemma_records_step(prev, remaining@, rest, i as int);
        }
        match rec {
            Err(e) => {
                proof {
                    lemma_first_error(rest, hv, i as int);
                }
                return Err(e);
            },
            Ok(fields) => {
                let row = make_row(header_fields.as_ref(), fields);
                rows.push(row);
                i += 1;
            },
        }
    }
    proof {
        assert(i == rest.len());
        assert(!exists|j: int| 0 <= j < rest.len() && rest[j] is Err && ok_before(rest, j));
        assert(rows@.map_values(|x: CsvRow| x@) =~= Seq::new(rest.len(), |j: int| row_of(hv, rest[j]->Ok_0)));
    }
    Ok(rows)
}

// ── Writing ──────────────────────────────────────────────────────────

/// A value of a row handed to `csv.stringify`.
pub enum CsvCell {
    Nil,
    Boolean(bool),
    Integer(i64),
    /// A float, by the text that Lua's number formatting gives it.
    Number(String),
    Text(String),
    /// A table, function or other value, written as an empty field.
    Other,
}

/// The text of a value in a written field.
pub open spec fn cell_text(c: CsvCell) -> Seq<char> {
    match c {
        CsvCell::Nil => seq![],
        CsvCell::Boolean(b) => if b {
            "true"@
        } else {
            "false"@
        },
        CsvCell::Integer(i) => if i < 0 {
            seq!['-'] + decimal((-i) as nat)
        } else {
            decimal(i as nat)
        },
        CsvCell::Number(t) => t@,
        CsvCell::Text(s) => s@,
        CsvCell::Other => seq![],
    }
}

fn cell_string(c: &CsvCell) -> (r: String)
    ensures
        r@ == cell_text(*c),
{
    match c {
        CsvCell::Nil => String::new(),
        CsvCell::Boolean(b) => if *b {
            string_of(&str_chars("true"))
        } else {
            string_of(&str_chars("false"))
        },
        CsvCell::Integer(i) => {
            let mut out: Vec<char> = Vec::new();
            if *i < 0 {
                out.push('-');
                let a: u64 = if *i == i64::MIN {
                    9223372036854775808u64
                } else {
                    (-*i) as u64
                };
                push_decimal(&mut out, a);
            } else {
                push_decimal(&mut out, *i as u64);
            }
            string_of(&out)
        },
        CsvCell::Number(t) => string_of(&str_chars(t.as_str())),
        CsvCell::Text(s) => string_of(&str_chars(s.as_str())),
        CsvCell::Other => String::new(),
    }
}

/// A row handed to `csv.stringify`: its values by position, and by key.
pub struct SourceRow {
    pub cells: Vec<CsvCell>,
    pub named: Vec<(String, CsvCell)>,
}

/// The value of a row under `key` (nil when absent).
pub open spec fn lookup(named: Seq<(String, CsvCell)>, key: Seq<char>) -> CsvCell
    decreases named.len(),
{
    if named.len() == 0 {
        CsvCell::Nil
    } else if named[0].0@ == key {
        named[0].1
    } else {
        lookup(named.drop_first(), key)
    }
}

/// The fields written for a row: with headers, the row's values under them;
/// otherwise its values by position.
pub open spec fn row_fields(row: SourceRow, headers: Option<Seq<Seq<char>>>) -> Seq<Seq<char>> {
    match headers {
        Some(h) => Seq::new(h.len(), |i: int| cell_text(lookup(row.named@, h[i]))),
        None => Seq::new(row.cells@.len(), |i: int| cell_text(row.cells@[i])),
    }
}

/// The records written: the headers first when given, then one per row.
pub open spec fn records_to_write(rows: Seq<SourceRow>, headers: Option<Seq<Seq<char>>>) -> Seq<Seq<Seq<char>>> {
    let body = Seq::new(rows.len(), |i: int| row_fields(rows[i], headers));
    match headers {
        Some(h) => seq![h] + body,
        None => body,
    }
}

/// The bytes that the `csv` crate's writer produces for records with a
/// delimiter, or the text of its first error.
pub uninterp spec fn csv_written(delimiter: u8, records: Seq<Seq<Seq<char>>>) -> Result<Seq<u8>, Seq<char>>;

/// `WriterBuilder::delimiter`, `Writer::write_record` for each record and
/// `Writer::into_inner` from the `csv` crate over a byte buffer: the bytes
/// written, or the text of the first error (records of unequal lengths);
/// named by `csv_written`.
#[verifier::external_body]
fn write_csv(delimiter: u8, records: &Vec<Vec<String>>) -> (r: Result<Vec<u8>, String>)
    ensures
        match csv_written(delimiter, records@.map_values(|x: Vec<String>| fields_view(x))) {
            Ok(b) => r matches Ok(v) && v@ == b,
            Err(e) => r matches Err(m) && m@ == e,
        },
{
    let mut wtr = ::csv::WriterBuilder::new().delimiter(delimiter).from_writer(Vec::new());
    for record in records {
        wtr.write_record(record).map_err(|e| e.to_string())?;
    }
    wtr.into_inner().map_err(|e| e.to_string())
}

fn lookup_exec(named: &Vec<(String, CsvCell)>, key: &str) -> (r: String)
    ensures
        r@ == cell_text(lookup(named@, key@)),
{
    let mut i: usize = 0;
    assert(named@.skip(0) =~= named@);
    while i < named.len()
        invariant
            i <= named@.len(),
            lookup(named@, key@) == lookup(named@.skip(i as int), key@),
        decreases named.len() - i,
    {
        assert(named@.skip(i as int).drop_first() =~= named@.skip(i + 1));
        if str_eq(named[i].0.as_str(), key) {
            return cell_string(&named[i].1);
        }
        i += 1;
    }
    String::new()
}

fn fields_of_row(row: &SourceRow, headers: Option<&Vec<String>>) -> (r: Vec<String>)
    ensures
        fields_view(r) == row_fields(
            *row,
            match headers {
                Some(h) => Some(fields_view(*h)),
                None => None,
            },
        ),
{
    let mut out: Vec<String> = Vec::new();
    match headers {
        Some(h) => {
            let mut i: usize = 0;
            while i < h.len()
                invariant
                    i <= h@.len(),
                    out@.len() == i,
                    forall|j: int| 0 <= j < i ==> #[trigger] out@[j]@ == cell_text(lookup(row.named@, h@[j]@)),
                decreases h.len() - i,
            {
                out.push(lookup_exec(&row.named, h[i].as_str()));
                i += 1;
            }
            assert(fields_view(out) =~= row_fields(*row, Some(fields_view(*h))));
        },
        None => {
            let mut i: usize = 0;
            while i < row.cells.len()
                invariant
                    i <= row.cells@.len(),
                    out@.len() == i,
                    forall|j: int| 0 <= j < i ==> #[trigger] out@[j]@ == cell_text(row.cells@[j]),
                decreases row.cells.len() - i,
            {
                out.push(cell_string(&row.cells[i]));
                i += 1;
            }
            assert(fields_view(out) =~= row_fields(*row, None));
        },
    }
    out
}

fn copy_strings(v: &Vec<String>) -> (r: Vec<String>)
    ensures
        fields_view(r) == fields_view(*v),
{
    let mut out: Vec<String> = Vec::new();
    let mut i: usize = 0;
    while i < v.len()
        invariant
            i <= v@.len(),
            out@.len() == i,
            forall|j: int| 0 <= j < i ==> #[trigger] out@[j]@ == v@[j]@,
        decreases v.len() - i,
    {
        out.push(string_of(&str_chars(v[i].as_str())));
        i += 1;
    }
    assert(fields_view(out) =~= fields_view(*v));
    out
}

/// `csv.stringify`: the CSV bytes of the rows, with a header record when
/// headers are given (then each row's values are taken by those keys).
pub fn stringify_csv(rows: &Vec<SourceRow>, delimiter: u8, headers: Option<&Vec<String>>) -> (r: Result<Vec<u8>, String>)
    ensures
        ({
            let hv = match headers {
                Some(h) => Some(fields_view(*h)),
                None => None,
            };
            match csv_written(delimiter, records_to_write(rows@, hv)) {
                Ok(b) => r matches Ok(v) && v@ == b,
                Err(e) => r matches Err(m) && m@ == e,
            }
        }),
{
    let ghost hv = match headers {
        Some(h) => Some(fields_view(*h)),
        None => None::<Seq<Seq<char>>>,
    };
    let mut records: Vec<Vec<String>> = Vec::new();
    let ghost offset: int = match headers {
        Some(_) => 1,
        None => 0,
    };
    if let Some(h) = headers {
        records.push(copy_strings(h));
    }
    let mut i: usize = 0;
    while i < rows.len()
        invariant
            i <= rows@.len(),
            records@.len() == offset + i,
            offset == match headers {
                Some(_) => 1int,
                None => 0int,
            },
            hv == match headers {
                Some(h) => Some(fields_view(*h)),
                None => None::<Seq<Seq<char>>>,
            },
            headers matches Some(h) ==> fields_view(records@[0]) == fields_view(*h),
            forall|j: int| 0 <= j < i ==> #[trigger] fields_view(records@[offset + j]) == row_fields(rows@[j], hv),
        decreases rows.len() - i,
    {
        records.push(fields_of_row(&rows[i], headers));
        i += 1;
    }
    proof {
        let rv = records@.map_values(|x: Vec<String>| fields_view(x));
        let want = records_to_write(rows@, hv);
        assert(rv.len() == want.len());
        assert forall|j: int| 0 <= j < rv.len() implies rv[j] == want[j] by {
            if offset == 1 && j == 0 {
            } else {
                let k = j - offset;
                assert(fields_view(records@[offset + k]) == row_fields(rows@[k], hv));
            }
        }
        assert(rv =~= want);
    }
    write_csv(delimiter, &records)
}

} // verus!
