//! Text extraction from the bytes of a document: plain text, HTML, RTF, Word
//! and PowerPoint archives, and spreadsheets.
//!
//! Archives, workbooks and RTF are read by their crates (zip, calamine and
//! rtf-parser); each reading is named by what it gives back for the bytes it is
//! given. Everything done with those results — the choice of parts and sheets,
//! the order of slides, the text of cells and the assembly of the output — is
//! verified here.

use vstd::prelude::*;
use vstd::arithmetic::power2::{lemma_pow2_unfold, pow2};
use vstd::utf8::{decode_utf8, valid_utf8};
use crate::doc_reader::{
    extract_slide_number, format_of_ext, render_format_spec, slide_number, DocFormat, ReadOptions,
};
use crate::doc_render::{
    cmark_html, conversion_plan, extract_text_from_xml, html_text_of_events, html_to_text,
    is_binary_input, is_text_ext, markdown_to_html, render_document, render_spec, result_view,
    tag_text, wrapped_html, xml_events, ConversionPlan,
};
use crate::text::{
    decimal, digit_value, digits_value, ends_with_chars, has_prefix, is_digit, has_suffix, push_decimal, push_str_chars,
    starts_with_chars, str_chars, str_eq, string_of, to_lowercase, unicode_lowercase, utf8_decode,
    utf8_error_text,
};
use calamine::{Data, Reader};
use std::io::Read;

verus! {

// ── Spreadsheet cells ────────────────────────────────────────────────

/// One cell of a worksheet, with what its text is made of.
pub enum SheetCell {
    /// An empty cell.
    Empty,
    /// A string cell, or a date-time or duration in ISO 8601 form.
    Text(String),
    /// A floating-point cell: the IEEE 754 bits of the number, and the shortest
    /// decimal text that reads back as it.
    Float(u64, String),
    /// An integer cell.
    Int(i64),
    /// A boolean cell.
    Bool(bool),
    /// An error cell, with the name of its error kind.
    Error(String),
    /// An Excel date-time cell, with its display text.
    DateTime(String),
}

/// 2^52, the weight of the lowest exponent bit of a double.
pub open spec fn two_52() -> nat {
    0x10_0000_0000_0000
}

/// 2^63.
pub open spec fn two_63() -> nat {
    0x8000_0000_0000_0000
}

/// The value of `x as i64` for the double `x` with IEEE 754 bits `bits`, when
/// converting that integer back to a double gives `x` again; `None` otherwise.
///
/// Such a double is an integer: zero (of either sign), a whole number of
/// magnitude below 2^63, -2^63, or 2^63 itself, for which the conversion
/// saturates to `i64::MAX` and `i64::MAX` rounds back to 2^63. NaN, the
/// infinities, fractions and larger magnitudes give `None`.
pub open spec fn whole_double(bits: u64) -> Option<int> {
    let neg = bits >= two_63();
    let exp = (bits as nat / two_52()) % 2048;
    let mant = bits as nat % two_52();
    if exp == 2047 {
        None
    } else if exp == 0 {
        if mant == 0 {
            Some(0)
        } else {
            None
        }
    } else {
        let sig = two_52() + mant;
        if exp >= 1075 {
            let m = sig * pow2((exp - 1075) as nat);
            if m < two_63() {
                Some(
                    if neg {
                        -m
                    } else {
                        m as int
                    },
                )
            } else if m == two_63() {
                Some(
                    if neg {
                        -two_63()
                    } else {
                        two_63() - 1
                    },
                )
            } else {
                None
            }
        } else {
            let d = pow2((1075 - exp) as nat);
            if sig % d == 0 {
                Some(
                    if neg {
                        -(sig / d)
                    } else {
                        (sig / d) as int
                    },
                )
            } else {
                None
            }
        }
    }
}

/// The decimal text of an integer, with a leading `-` when it is negative.
pub open spec fn signed_decimal(v: int) -> Seq<char> {
    if v < 0 {
        seq!['-'] + decimal((-v) as nat)
    } else {
        decimal(v as nat)
    }
}

/// The text of a cell in the extracted text of a worksheet: floating-point
/// cells that hold a whole number that fits an `i64` as that integer, others
/// as their shortest decimal text.
pub open spec fn cell_text(c: SheetCell) -> Seq<char> {
    match c {
        SheetCell::Empty => seq![],
        SheetCell::Text(s) => s@,
        SheetCell::Float(bits, shown) => match whole_double(bits) {
            Some(v) => signed_decimal(v),
            None => shown@,
        },
        SheetCell::Int(i) => signed_decimal(i as int),
        SheetCell::Bool(b) => if b {
            "true"@
        } else {
            "false"@
        },
        SheetCell::Error(kind) => "#"@ + kind@,
        SheetCell::DateTime(s) => s@,
    }
}

/// `s * 2^e`, for a small `e`.
fn times_pow2(s: u64, e: u64) -> (r: u64)
    requires
        e <= 11,
        s < two_52() * 2,
    ensures
        r == s * pow2(e as nat),
{
    let mut m = s;
    let mut j: u64 = 0;
    proof {
        vstd::arithmetic::power2::lemma2_to64();
    }
    while j < e
        invariant
            j <= e <= 11,
            s < two_52() * 2,
            m == s * pow2(j as nat),
            m <= s * 2048,
        decreases e - j,
    {
        proof {
            lemma_pow2_unfold((j + 1) as nat);
            vstd::arithmetic::power2::lemma_pow2_strictly_increases((j + 1) as nat, 12);
            vstd::arithmetic::power2::lemma2_to64();
            assert(s * pow2((j + 1) as nat) <= s * 2048) by (nonlinear_arith)
                requires
                    pow2((j + 1) as nat) <= 2048,
            ;
            assert(s * pow2((j + 1) as nat) == 2 * (s * pow2(j as nat))) by (nonlinear_arith)
                requires
                    pow2((j + 1) as nat) == 2 * pow2(j as nat),
            ;
        }
        m = m * 2;
        j += 1;
    }
    m
}

/// `2^e`, for `e <= 53`.
fn pow2_exec(e: u64) -> (r: u64)
    requires
        e <= 53,
    ensures
        r == pow2(e as nat),
        r > 0,
{
    let mut p: u64 = 1;
    let mut j: u64 = 0;
    proof {
        vstd::arithmetic::power2::lemma2_to64();
    }
    while j < e
        invariant
            j <= e <= 53,
            p == pow2(j as nat),
            p > 0,
        decreases e - j,
    {
        proof {
            lemma_pow2_unfold((j + 1) as nat);
            vstd::bits::lemma_u64_pow2_no_overflow((j + 1) as nat);
        }
        p = p * 2;
        j += 1;
    }
    p
}

/// The integer that a floating-point cell shows, given the bits of its
/// number; see `whole_double`.
pub fn whole_double_value(bits: u64) -> (r: Option<i64>)
    ensures
        match whole_double(bits) {
            Some(v) => r matches Some(x) && x as int == v,
            None => r is None,
        },
{
    let neg = bits >= 0x8000_0000_0000_0000u64;
    let exp = (bits / 0x10_0000_0000_0000u64) % 2048;
    let mant = bits % 0x10_0000_0000_0000u64;
    if exp == 2047 {
        return None;
    }
    if exp == 0 {
        return if mant == 0 {
            Some(0)
        } else {
            None
        };
    }
    let sig: u64 = 0x10_0000_0000_0000u64 + mant;
    if exp >= 1075 {
        let shift = exp - 1075;
        if shift > 11 {
            proof {
                vstd::arithmetic::power2::lemma_pow2_strictly_increases(11, (exp - 1075) as nat);
                vstd::arithmetic::power2::lemma2_to64();
                assert(sig * pow2((exp - 1075) as nat) > two_63()) by (nonlinear_arith)
                    requires
                        sig >= two_52(),
                        pow2((exp - 1075) as nat) > 2048,
                ;
            }
            return None;
        }
        let m = times_pow2(sig, shift);
        if m < 0x8000_0000_0000_0000u64 {
            let v = m as i64;
            Some(
                if neg {
                    -v
                } else {
                    v
                },
            )
        } else if m == 0x8000_0000_0000_0000u64 {
            Some(
                if neg {
                    i64::MIN
                } else {
                    i64::MAX
                },
            )
        } else {
            None
        }
    } else {
        let k = 1075 - exp;
        if k > 53 {
            proof {
                vstd::arithmetic::power2::lemma_pow2_strictly_increases(53, (1075 - exp) as nat);
                vstd::arithmetic::power2::lemma2_to64_rest();
                vstd::arithmetic::div_mod::lemma_small_mod(sig as nat, pow2((1075 - exp) as nat));
            }
            return None;
        }
        let d = pow2_exec(k);
        if sig % d == 0 {
            let q = (sig / d) as i64;
            Some(
                if neg {
                    -q
                } else {
                    q
                },
            )
        } else {
            None
        }
    }
}

/// Appends the decimal text of `v` (with `-` when negative) to `out`.
fn push_signed_decimal(out: &mut Vec<char>, v: i64)
    ensures
        final(out)@ == old(out)@ + signed_decimal(v as int),
{
    if v < 0 {
        out.push('-');
        let ghost mid = out@;
        let m: u64 = (0i128 - v as i128) as u64;
        push_decimal(out, m);
        assert(out@ =~= mid + decimal((-v) as nat));
    } else {
        push_decimal(out, v as u64);
    }
}

/// Appends the text of a cell to `out`; see `cell_text`.
pub fn push_cell_text(out: &mut Vec<char>, c: &SheetCell)
    ensures
        final(out)@ == old(out)@ + cell_text(*c),
{
    match c {
        SheetCell::Empty => {
            assert(out@ =~= out@ + Seq::<char>::empty());
        },
        SheetCell::Text(s) => push_str_chars(out, s.as_str()),
        SheetCell::Float(bits, shown) => match whole_double_value(*bits) {
            Some(v) => push_signed_decimal(out, v),
            None => push_str_chars(out, shown.as_str()),
        },
        SheetCell::Int(i) => push_signed_decimal(out, *i),
        SheetCell::Bool(b) => {
            if *b {
                push_str_chars(out, "true");
            } else {
                push_str_chars(out, "false");
            }
        },
        SheetCell::Error(kind) => {
            let ghost start = out@;
            push_str_chars(out, "#");
            push_str_chars(out, kind.as_str());
            assert(out@ =~= start + ("#"@ + kind@));
        },
        SheetCell::DateTime(s) => push_str_chars(out, s.as_str()),
    }
}

// ── Workbooks ────────────────────────────────────────────────────────

/// The views of a list of names, or of the error message.
pub open spec fn names_view(r: Result<Vec<String>, String>) -> Result<Seq<Seq<char>>, Seq<char>> {
    match r {
        Ok(v) => Ok(v@.map_values(|s: String| s@)),
        Err(e) => Err(e@),
    }
}

/// The names of the sheets of the workbook that calamine reads from `data`, or
/// the message of the error that opening it gives.
pub uninterp spec fn workbook_sheets(data: Seq<u8>) -> Result<Seq<Seq<char>>, Seq<char>>;

/// `open_workbook_auto_from_rs` and `Reader::sheet_names` from calamine: the
/// names of the sheets of the workbook in `data`, named by `workbook_sheets`.
#[verifier::external_body]
fn workbook_sheet_names(data: &[u8]) -> (r: Result<Vec<String>, String>)
    ensures
        names_view(r) == workbook_sheets(data@),
{
    let book = calamine::open_workbook_auto_from_rs(std::io::Cursor::new(data)).map_err(
        |e| e.to_string(),
    )?;
    Ok(book.sheet_names())
}

/// Which step of reading a sheet failed.
pub enum SheetFailure {
    /// Opening the workbook.
    Open,
    /// Reading the sheet's cells.
    Range,
}

/// The rows of cells of one sheet, or the failed step and its error message.
pub type SheetRead = Result<Seq<Seq<SheetCell>>, (SheetFailure, Seq<char>)>;

/// The views of the rows of a sheet, or of the failure.
pub open spec fn sheet_read_view(r: Result<Vec<Vec<SheetCell>>, (SheetFailure, String)>) -> SheetRead {
    match r {
        Ok(rows) => Ok(rows@.map_values(|row: Vec<SheetCell>| row@)),
        Err((f, e)) => Err((f, e@)),
    }
}

/// The rows of cells of the sheet `name` of the workbook that calamine reads
/// from `data`, or the step that failed and its error message.
pub uninterp spec fn sheet_cells(data: Seq<u8>, name: Seq<char>) -> SheetRead;

#[verifier::external_type_specification]
#[verifier::external_body]
pub struct ExCellData(calamine::Data);

#[verifier::external_type_specification]
#[verifier::external_body]
#[verifier::reject_recursive_types(T)]
pub struct ExRange<T>(calamine::Range<T>);

/// The rows of cells of a worksheet range, each cell as a `SheetCell`.
pub uninterp spec fn range_rows(range: calamine::Range<Data>) -> Seq<Seq<SheetCell>>;

/// `open_workbook_auto_from_rs` and `Reader::worksheet_range` from calamine:
/// the cells of the sheet `name`, named by `sheet_cells` (through the rows of
/// the range), or the step that failed and its error message.
#[verifier::external_body]
fn read_sheet_range(data: &[u8], name: &str) -> (r: Result<calamine::Range<Data>, (SheetFailure, String)>)
    ensures
        sheet_cells(data@, name@) == match r {
            Ok(range) => Ok(range_rows(range)),
            Err((f, e)) => Err((f, e@)),
        },
{
    let mut book = calamine::open_workbook_auto_from_rs(std::io::Cursor::new(data)).map_err(
        |e| (SheetFailure::Open, e.to_string()),
    )?;
    book.worksheet_range(name).map_err(|e| (SheetFailure::Range, e.to_string()))
}

/// `Range::rows` from calamine: the rows of a range, each cell moved into a
/// `SheetCell` (a number by its bits and its display text); named by
/// `range_rows`.
#[verifier::external_body]
fn range_cells(range: &calamine::Range<Data>) -> (r: Vec<Vec<SheetCell>>)
    ensures
        r@.map_values(|row: Vec<SheetCell>| row@) == range_rows(*range),
{
    range.rows().map(|row| row.iter().map(|c| match c {
        Data::Empty => SheetCell::Empty,
        Data::String(s) | Data::DateTimeIso(s) | Data::DurationIso(s) => SheetCell::Text(s.clone()),
        Data::Float(f) => SheetCell::Float(f.to_bits(), f.to_string()),
        Data::Int(i) => SheetCell::Int(*i),
        Data::Bool(b) => SheetCell::Bool(*b),
        Data::Error(e) => SheetCell::Error(format!("{:?}", e)),
        Data::DateTime(dt) => SheetCell::DateTime(dt.to_string()),
    }).collect()).collect()
}

/// The cells of the sheet `name` of the workbook in `data`, or the failed step
/// and its error message.
fn read_sheet_cells(data: &[u8], name: &str) -> (r: Result<Vec<Vec<SheetCell>>, (SheetFailure, String)>)
    ensures
        sheet_read_view(r) == sheet_cells(data@, name@),
{
    match read_sheet_range(data, name) {
        Ok(range) => Ok(range_cells(&range)),
        Err(e) => Err(e),
    }
}

/// The text of a row: its cells separated by tabs.
pub open spec fn row_text(row: Seq<SheetCell>) -> Seq<char>
    decreases row.len(),
{
    if row.len() == 0 {
        seq![]
    } else if row.len() == 1 {
        cell_text(row[0])
    } else {
        row_text(row.drop_last()) + seq!['\t'] + cell_text(row.last())
    }
}

/// The text of rows: each row followed by a line break.
pub open spec fn rows_text(rows: Seq<Seq<SheetCell>>) -> Seq<char>
    decreases rows.len(),
{
    if rows.len() == 0 {
        seq![]
    } else {
        rows_text(rows.drop_last()) + row_text(rows.last()) + seq!['\n']
    }
}

/// The text of one sheet: a header line with its name, then its rows.
pub open spec fn sheet_block(name: Seq<char>, rows: Seq<Seq<SheetCell>>) -> Seq<char> {
    "--- "@ + name + " ---\n"@ + rows_text(rows)
}

/// Appends the text of a row to `out`.
fn push_row_text(out: &mut Vec<char>, row: &Vec<SheetCell>)
    ensures
        final(out)@ == old(out)@ + row_text(row@),
{
    let ghost start = out@;
    let mut j: usize = 0;
    while j < row.len()
        invariant
            j <= row.len(),
            out@ == start + row_text(row@.take(j as int)),
        decreases row.len() - j,
    {
        let ghost before = out@;
        if j > 0 {
            out.push('\t');
        }
        push_cell_text(out, &row[j]);
        proof {
            let t = row@.take(j + 1);
            assert(t.drop_last() =~= row@.take(j as int));
            if j == 0 {
                assert(row_text(t) == cell_text(t[0]));
                assert(row_text(row@.take(0)) =~= Seq::<char>::empty());
            }
            assert(out@ =~= start + row_text(t));
        }
        j += 1;
    }
    assert(row@.take(row.len() as int) =~= row@);
}

/// Appends the text of one sheet to `out`; see `sheet_block`.
pub fn push_sheet_block(out: &mut Vec<char>, name: &str, rows: &Vec<Vec<SheetCell>>)
    ensures
        final(out)@ == old(out)@ + sheet_block(name@, rows@.map_values(|row: Vec<SheetCell>| row@)),
{
    let ghost views = rows@.map_values(|row: Vec<SheetCell>| row@);
    let ghost start = out@;
    push_str_chars(out, "--- ");
    push_str_chars(out, name);
    push_str_chars(out, " ---\n");
    let ghost head = out@;
    assert(head =~= start + ("--- "@ + name@ + " ---\n"@));
    let mut i: usize = 0;
    while i < rows.len()
        invariant
            i <= rows.len(),
            views == rows@.map_values(|row: Vec<SheetCell>| row@),
            out@ == head + rows_text(views.take(i as int)),
        decreases rows.len() - i,
    {
        push_row_text(out, &rows[i]);
        out.push('\n');
        proof {
            let t = views.take(i + 1);
            assert(t.drop_last() =~= views.take(i as int));
            assert(t.last() == rows@[i as int]@);
            assert(out@ =~= head + rows_text(t));
        }
        i += 1;
    }
    assert(views.take(rows.len() as int) =~= views);
    assert(out@ =~= start + sheet_block(name@, views));
}

/// The text of the sheets `names[i..]` of the workbook in `data`, after `out`:
/// each sheet that can be read adds its block, after a line break when some
/// text precedes it; a sheet that cannot be read is left out.
pub open spec fn all_sheets_text(data: Seq<u8>, names: Seq<Seq<char>>, i: int, out: Seq<char>) -> Seq<char>
    decreases names.len() - i,
{
    if i < 0 || i >= names.len() {
        out
    } else {
        match sheet_cells(data, names[i]) {
            Ok(rows) => all_sheets_text(
                data,
                names,
                i + 1,
                if out.len() > 0 {
                    out.push('\n')
                } else {
                    out
                } + sheet_block(names[i], rows),
            ),
            Err(_) => all_sheets_text(data, names, i + 1, out),
        }
    }
}

/// The text of the spreadsheet in `data`: all its sheets, or only the
/// `sheet`-th (counted from 1) when one is chosen.
pub open spec fn spreadsheet_text(data: Seq<u8>, sheet: Option<usize>) -> Result<Seq<char>, Seq<char>> {
    match workbook_sheets(data) {
        Err(e) => Err("cannot open spreadsheet: "@ + e),
        Ok(names) => if names.len() == 0 {
            Ok(seq![])
        } else {
            match sheet {
                None => Ok(all_sheets_text(data, names, 0, seq![])),
                Some(n) => if n == 0 {
                    Err("sheet number must be >= 1"@)
                } else if n - 1 >= names.len() {
                    Err(
                        "sheet "@ + decimal(n as nat) + " does not exist (workbook has "@ + decimal(
                            names.len(),
                        ) + " sheets)"@,
                    )
                } else {
                    match sheet_cells(data, names[n - 1]) {
                        Ok(rows) => Ok(sheet_block(names[n - 1], rows)),
                        Err((SheetFailure::Open, e)) => Err("cannot open spreadsheet: "@ + e),
                        Err((SheetFailure::Range, e)) => Err(
                            "cannot read sheet '"@ + names[n - 1] + "': "@ + e,
                        ),
                    }
                },
            }
        },
    }
}

/// Reads the text of a spreadsheet (XLSX, XLS, XLSM or ODS): every sheet, or
/// the one `opts.sheet` chooses; see `spreadsheet_text`.
pub fn read_spreadsheet(data: &[u8], opts: &ReadOptions) -> (r: Result<String, String>)
    ensures
        result_view(r) == spreadsheet_text(data@, opts.sheet),
{
    let names = match workbook_sheet_names(data) {
        Ok(n) => n,
        Err(e) => {
            let mut m = str_chars("cannot open spreadsheet: ");
            push_str_chars(&mut m, e.as_str());
            return Err(string_of(&m));
        },
    };
    let ghost nv = names@.map_values(|s: String| s@);
    if names.len() == 0 {
        return Ok(String::new());
    }
    match opts.sheet {
        Some(n) => {
            if n == 0 {
                return Err(string_of(&str_chars("sheet number must be >= 1")));
            }
            if n - 1 >= names.len() {
                let mut m = str_chars("sheet ");
                push_decimal(&mut m, n as u64);
                push_str_chars(&mut m, " does not exist (workbook has ");
                push_decimal(&mut m, names.len() as u64);
                push_str_chars(&mut m, " sheets)");
                return Err(string_of(&m));
            }
            let name = &names[n - 1];
            assert(nv[n - 1] == name@);
            match read_sheet_cells(data, name.as_str()) {
                Ok(rows) => {
                    let mut out: Vec<char> = Vec::new();
                    push_sheet_block(&mut out, name.as_str(), &rows);
                    Ok(string_of(&out))
                },
                Err((SheetFailure::Open, e)) => {
                    let mut m = str_chars("cannot open spreadsheet: ");
                    push_str_chars(&mut m, e.as_str());
                    Err(string_of(&m))
                },
                Err((SheetFailure::Range, e)) => {
                    let mut m = str_chars("cannot read sheet '");
                    push_str_chars(&mut m, name.as_str());
                    push_str_chars(&mut m, "': ");
                    push_str_chars(&mut m, e.as_str());
                    Err(string_of(&m))
                },
            }
        },
        None => {
            let mut out: Vec<char> = Vec::new();
            let mut i: usize = 0;
            while i < names.len()
                invariant
                    i <= names.len(),
                    nv == names@.map_values(|s: String| s@),
                    all_sheets_text(data@, nv, 0, seq![]) == all_sheets_text(data@, nv, i as int, out@),
                decreases names.len() - i,
            {
                let name = &names[i];
                assert(nv[i as int] == name@);
                match read_sheet_cells(data, name.as_str()) {
                    Ok(rows) => {
                        if out.len() > 0 {
                            out.push('\n');
                        }
                        push_sheet_block(&mut out, name.as_str(), &rows);
                    },
                    Err(_) => {},
                }
                i += 1;
            }
            Ok(string_of(&out))
        },
    }
}

// ── Archives: DOCX and PPTX ──────────────────────────────────────────

/// The names of the entries of the ZIP archive in `data` that can be opened
/// by their index and whose names decode, in index order; or the message of
/// the error that opening the archive gives.
pub uninterp spec fn zip_entry_names(data: Seq<u8>) -> Result<Seq<Seq<char>>, Seq<char>>;

/// `ZipArchive::new`, `ZipArchive::by_index` and `ZipFile::name` from zip:
/// the names of the entries of the archive in `data`, named by
/// `zip_entry_names`.
#[verifier::external_body]
fn archive_entry_names(data: &[u8]) -> (r: Result<Vec<String>, String>)
    ensures
        names_view(r) == zip_entry_names(data@),
{
    let mut archive = zip::ZipArchive::new(std::io::Cursor::new(data)).map_err(|e| e.to_string())?;
    let mut names = Vec::new();
    for i in 0..archive.len() {
        if let Ok(entry) = archive.by_index(i) {
            if let Ok(name) = entry.name() {
                names.push(name.to_string());
            }
        }
    }
    Ok(names)
}

/// Which step of reading an entry of an archive failed.
pub enum EntryFailure {
    /// Opening the archive.
    Open,
    /// Finding the entry by its name.
    Find,
    /// Reading the entry as UTF-8 text.
    Read,
}

/// The text of an entry, or the failed step and its error message.
pub type EntryRead = Result<Seq<char>, (EntryFailure, Seq<char>)>;

/// The views of the text of an entry, or of the failure.
pub open spec fn entry_read_view(r: Result<String, (EntryFailure, String)>) -> EntryRead {
    match r {
        Ok(t) => Ok(t@),
        Err((f, e)) => Err((f, e@)),
    }
}

/// The text of the entry `name` of the ZIP archive in `data`, or the step that
/// failed and its error message.
pub uninterp spec fn zip_entry_text(data: Seq<u8>, name: Seq<char>) -> EntryRead;

/// `ZipArchive::new`, `ZipArchive::by_name` and `Read::read_to_string` from
/// zip: the text of one entry, named by `zip_entry_text`.
#[verifier::external_body]
fn read_archive_entry(data: &[u8], name: &str) -> (r: Result<String, (EntryFailure, String)>)
    ensures
        entry_read_view(r) == zip_entry_text(data@, name@),
{
    let mut archive = zip::ZipArchive::new(std::io::Cursor::new(data)).map_err(
        |e| (EntryFailure::Open, e.to_string()),
    )?;
    let mut file = archive.by_name(name).map_err(|e| (EntryFailure::Find, e.to_string()))?;
    let mut text = String::new();
    file.read_to_string(&mut text).map_err(|e| (EntryFailure::Read, e.to_string()))?;
    Ok(text)
}

/// The text of a Word document: the `w:t` elements of `word/document.xml`.
pub open spec fn docx_text(data: Seq<u8>) -> Result<Seq<char>, Seq<char>> {
    match zip_entry_text(data, "word/document.xml"@) {
        Ok(xml) => tag_text(xml_events(xml, true), "w:t"@),
        Err((EntryFailure::Open, e)) => Err("cannot open docx: "@ + e),
        Err((EntryFailure::Find, e)) => Err("cannot read word/document.xml: "@ + e),
        Err((EntryFailure::Read, e)) => Err("cannot read document XML: "@ + e),
    }
}

/// Reads the text of a Word (DOCX) document; see `docx_text`.
pub fn read_docx(data: &[u8]) -> (r: Result<String, String>)
    ensures
        result_view(r) == docx_text(data@),
{
    match read_archive_entry(data, "word/document.xml") {
        Ok(xml) => extract_text_from_xml(xml.as_str(), "w:t"),
        Err((EntryFailure::Open, e)) => {
            let mut m = str_chars("cannot open docx: ");
            push_str_chars(&mut m, e.as_str());
            Err(string_of(&m))
        },
        Err((EntryFailure::Find, e)) => {
            let mut m = str_chars("cannot read word/document.xml: ");
            push_str_chars(&mut m, e.as_str());
            Err(string_of(&m))
        },
        Err((EntryFailure::Read, e)) => {
            let mut m = str_chars("cannot read document XML: ");
            push_str_chars(&mut m, e.as_str());
            Err(string_of(&m))
        },
    }
}

/// Whether an entry of a presentation is a slide.
pub open spec fn is_slide_name(name: Seq<char>) -> bool {
    has_prefix(name, "ppt/slides/slide"@) && has_suffix(name, ".xml"@)
}

/// The slides among the entry names, in their order.
pub open spec fn slide_parts(names: Seq<Seq<char>>) -> Seq<Seq<char>>
    decreases names.len(),
{
    if names.len() == 0 {
        seq![]
    } else if is_slide_name(names.last()) {
        slide_parts(names.drop_last()).push(names.last())
    } else {
        slide_parts(names.drop_last())
    }
}

/// `sorted` with `x` placed after every name whose slide number is at most
/// that of `x`.
pub open spec fn insert_by_number(sorted: Seq<Seq<char>>, x: Seq<char>) -> Seq<Seq<char>>
    decreases sorted.len(),
{
    if sorted.len() == 0 {
        seq![x]
    } else if slide_number(sorted.last()) <= slide_number(x) {
        sorted.push(x)
    } else {
        insert_by_number(sorted.drop_last(), x).push(sorted.last())
    }
}

/// The names in the order of their slide numbers; names with the same number
/// keep their order.
pub open spec fn sorted_by_number(names: Seq<Seq<char>>) -> Seq<Seq<char>>
    decreases names.len(),
{
    if names.len() == 0 {
        seq![]
    } else {
        insert_by_number(sorted_by_number(names.drop_last()), names.last())
    }
}

proof fn lemma_insert_by_number(s: Seq<Seq<char>>, x: Seq<char>, p: int)
    requires
        0 <= p <= s.len(),
        forall|k: int| p <= k < s.len() ==> slide_number(#[trigger] s[k]) > slide_number(x),
        p > 0 ==> slide_number(s[p - 1]) <= slide_number(x),
    ensures
        insert_by_number(s, x) == s.take(p).push(x) + s.skip(p),
    decreases s.len(),
{
    if s.len() == p {
        assert(s.take(p).push(x) + s.skip(p) =~= s.push(x));
        if p == 0 {
            assert(s.push(x) =~= seq![x]);
        }
    } else {
        let d = s.drop_last();
        assert forall|k: int| p <= k < d.len() implies slide_number(#[trigger] d[k]) > slide_number(x) by {
            assert(d[k] == s[k]);
        }
        lemma_insert_by_number(d, x, p);
        assert(slide_number(s[s.len() - 1]) > slide_number(x));
        assert((d.take(p).push(x) + d.skip(p)).push(s.last()) =~= s.take(p).push(x) + s.skip(p));
    }
}

/// Whether names are in the order of their slide numbers.
pub open spec fn numbers_sorted(s: Seq<Seq<char>>) -> bool {
    forall|i: int, j: int| 0 <= i < j < s.len() ==> slide_number(s[i]) <= slide_number(s[j])
}

proof fn lemma_insert_sorted(s: Seq<Seq<char>>, x: Seq<char>)
    requires
        numbers_sorted(s),
    ensures
        numbers_sorted(insert_by_number(s, x)),
        insert_by_number(s, x).to_multiset() =~= s.to_multiset().insert(x),
        forall|k: int|
            0 <= k < insert_by_number(s, x).len() ==> #[trigger] insert_by_number(s, x)[k] == x
                || s.contains(insert_by_number(s, x)[k]),
    decreases s.len(),
{
    broadcast use vstd::seq_lib::group_to_multiset_ensures;

    let r = insert_by_number(s, x);
    if s.len() == 0 {
        assert(r =~= seq![x]);
        assert(seq![x] =~= Seq::<Seq<char>>::empty().push(x));
    } else if slide_number(s.last()) <= slide_number(x) {
        assert forall|k: int| 0 <= k < r.len() implies #[trigger] r[k] == x || s.contains(r[k]) by {
            if k < s.len() {
                assert(r[k] == s[k]);
            }
        }
    } else {
        let d = s.drop_last();
        assert(numbers_sorted(d));
        lemma_insert_sorted(d, x);
        let rd = insert_by_number(d, x);
        assert(s =~= d.push(s.last()));
        assert forall|k: int| 0 <= k < rd.len() implies slide_number(#[trigger] rd[k]) <= slide_number(
            s.last(),
        ) by {
            if rd[k] != x {
                assert(d.contains(rd[k]));
                let j = choose|j: int| 0 <= j < d.len() && d[j] == rd[k];
                assert(s[j] == d[j]);
            }
        }
        assert forall|k: int| 0 <= k < r.len() implies #[trigger] r[k] == x || s.contains(r[k]) by {
            if k < rd.len() {
                assert(r[k] == rd[k]);
                if rd[k] != x {
                    assert(d.contains(rd[k]));
                    let j = choose|j: int| 0 <= j < d.len() && d[j] == rd[k];
                    assert(s[j] == d[j]);
                }
            } else {
                assert(r[k] == s[s.len() - 1]);
            }
        }
        assert forall|i: int, j: int| 0 <= i < j < r.len() implies slide_number(r[i]) <= slide_number(
            r[j],
        ) by {
            if j == r.len() - 1 {
                assert(r[i] == rd[i]);
            } else {
                assert(r[i] == rd[i]);
                assert(r[j] == rd[j]);
            }
        }
        assert(s.to_multiset() =~= d.to_multiset().insert(s.last()));
    }
}

/// The slides of a presentation are read in the order of their numbers, each
/// slide entry once.
pub proof fn law_slide_order(names: Seq<Seq<char>>)
    ensures
        numbers_sorted(sorted_by_number(names)),
        sorted_by_number(names).to_multiset() =~= names.to_multiset(),
    decreases names.len(),
{
    broadcast use vstd::seq_lib::group_to_multiset_ensures;

    if names.len() == 0 {
        assert(sorted_by_number(names) =~= Seq::<Seq<char>>::empty());
    } else {
        let d = names.drop_last();
        law_slide_order(d);
        lemma_insert_sorted(sorted_by_number(d), names.last());
        assert(names =~= d.push(names.last()));
    }
}

/// Text read as a plain-text document is given back unchanged.
pub proof fn law_plain_text_round_trip(text: Seq<char>, format: DocFormat, sheet: Option<usize>)
    requires
        format == DocFormat::Txt || format == DocFormat::Csv || format == DocFormat::Json || format
            == DocFormat::Md,
    ensures
        document_text(vstd::utf8::encode_utf8(text), format, sheet) == Ok::<Seq<char>, Seq<char>>(text),
{
    vstd::utf8::encode_utf8_valid_utf8(text);
    vstd::utf8::encode_utf8_decode_utf8(text);
}

/// The text of the slides `slides[i..]` of the presentation in `data`, after
/// `out`: the `a:t` text of each slide that has some, one slide per line.
pub open spec fn slides_text(data: Seq<u8>, slides: Seq<Seq<char>>, i: int, out: Seq<char>) -> Result<
    Seq<char>,
    Seq<char>,
>
    decreases slides.len() - i,
{
    if i < 0 || i >= slides.len() {
        Ok(out)
    } else {
        match zip_entry_text(data, slides[i]) {
            Err((EntryFailure::Open, e)) => Err("cannot open pptx: "@ + e),
            Err((EntryFailure::Find, e)) => Err("cannot read "@ + slides[i] + ": "@ + e),
            Err((EntryFailure::Read, e)) => Err("cannot read slide XML: "@ + e),
            Ok(xml) => match tag_text(xml_events(xml, true), "a:t"@) {
                Err(e) => Err(e),
                Ok(t) => slides_text(
                    data,
                    slides,
                    i + 1,
                    if t.len() == 0 {
                        out
                    } else if out.len() == 0 {
                        t
                    } else {
                        out.push('\n') + t
                    },
                ),
            },
        }
    }
}

/// The text of a PowerPoint presentation: its slides in the order of their
/// numbers.
pub open spec fn pptx_text(data: Seq<u8>) -> Result<Seq<char>, Seq<char>> {
    match zip_entry_names(data) {
        Err(e) => Err("cannot open pptx: "@ + e),
        Ok(names) => slides_text(data, sorted_by_number(slide_parts(names)), 0, seq![]),
    }
}

fn is_slide_name_exec(name: &String) -> (r: bool)
    ensures
        r == is_slide_name(name@),
{
    let v = str_chars(name.as_str());
    let prefix = str_chars("ppt/slides/slide");
    let suffix = str_chars(".xml");
    starts_with_chars(&v, &prefix) && ends_with_chars(&v, &suffix)
}

/// The slide entries among `names`, in the order of their slide numbers
/// (equal numbers in their order in the archive).
pub fn slide_order(names: &Vec<String>) -> (r: Vec<String>)
    ensures
        r@.map_values(|s: String| s@) == sorted_by_number(
            slide_parts(names@.map_values(|s: String| s@)),
        ),
{
    let ghost nv = names@.map_values(|s: String| s@);
    let mut out: Vec<String> = Vec::new();
    let mut keys: Vec<usize> = Vec::new();
    let mut i: usize = 0;
    while i < names.len()
        invariant
            i <= names.len(),
            nv == names@.map_values(|s: String| s@),
            keys@.len() == out@.len(),
            forall|k: int| 0 <= k < keys@.len() ==> keys@[k] == slide_number(#[trigger] out@[k]@),
            out@.map_values(|s: String| s@) == sorted_by_number(slide_parts(nv.take(i as int))),
        decreases names.len() - i,
    {
        let ghost t = nv.take(i + 1);
        assert(t.drop_last() =~= nv.take(i as int));
        assert(t.last() == names@[i as int]@);
        if is_slide_name_exec(&names[i]) {
            let key = extract_slide_number(names[i].as_str());
            let ghost before = out@.map_values(|s: String| s@);
            let mut p = out.len();
            while p > 0 && keys[p - 1] > key
                invariant
                    p <= out@.len(),
                    keys@.len() == out@.len(),
                    forall|k: int| 0 <= k < keys@.len() ==> keys@[k] == slide_number(#[trigger] out@[k]@),
                    forall|k: int| p <= k < out@.len() ==> keys@[k] > key,
                decreases p,
            {
                p -= 1;
            }
            proof {
                assert forall|k: int| p <= k < before.len() implies slide_number(#[trigger] before[k])
                    > slide_number(names@[i as int]@) by {
                    assert(keys@[k] == slide_number(out@[k]@));
                }
                if p > 0 {
                    assert(keys@[p - 1] == slide_number(out@[p - 1]@));
                }
                lemma_insert_by_number(before, names@[i as int]@, p as int);
            }
            let name = names[i].clone();
            out.insert(p, name);
            keys.insert(p, key);
            proof {
                let after = out@.map_values(|s: String| s@);
                assert(after =~= before.take(p as int).push(names@[i as int]@) + before.skip(p as int));
                assert forall|k: int| 0 <= k < keys@.len() implies keys@[k] == slide_number(#[trigger] out@[k]@) by {
                    if k < p {
                    } else if k > p {
                    }
                }
                let sp = slide_parts(nv.take(i as int));
                assert(slide_parts(t) == sp.push(t.last()));
                assert(sp.push(t.last()).drop_last() =~= sp);
                assert(sorted_by_number(sp.push(t.last())) == insert_by_number(sorted_by_number(sp), t.last()));
            }
        } else {
            assert(slide_parts(t) == slide_parts(nv.take(i as int)));
        }
        i += 1;
    }
    assert(nv.take(names.len() as int) =~= nv);
    out
}

/// Reads the text of a PowerPoint (PPTX) presentation; see `pptx_text`.
pub fn read_pptx(data: &[u8]) -> (r: Result<String, String>)
    ensures
        result_view(r) == pptx_text(data@),
{
    let names = match archive_entry_names(data) {
        Ok(n) => n,
        Err(e) => {
            let mut m = str_chars("cannot open pptx: ");
            push_str_chars(&mut m, e.as_str());
            return Err(string_of(&m));
        },
    };
    let slides = slide_order(&names);
    let ghost sv = slides@.map_values(|s: String| s@);
    let mut out: Vec<char> = Vec::new();
    let mut i: usize = 0;
    while i < slides.len()
        invariant
            i <= slides.len(),
            sv == slides@.map_values(|s: String| s@),
            pptx_text(data@) == slides_text(data@, sv, i as int, out@),
        decreases slides.len() - i,
    {
        let name = &slides[i];
        assert(sv[i as int] == name@);
        match read_archive_entry(data, name.as_str()) {
            Err((EntryFailure::Open, e)) => {
                let mut m = str_chars("cannot open pptx: ");
                push_str_chars(&mut m, e.as_str());
                return Err(string_of(&m));
            },
            Err((EntryFailure::Find, e)) => {
                let mut m = str_chars("cannot read ");
                push_str_chars(&mut m, name.as_str());
                push_str_chars(&mut m, ": ");
                push_str_chars(&mut m, e.as_str());
                return Err(string_of(&m));
            },
            Err((EntryFailure::Read, e)) => {
                let mut m = str_chars("cannot read slide XML: ");
                push_str_chars(&mut m, e.as_str());
                return Err(string_of(&m));
            },
            Ok(xml) => match extract_text_from_xml(xml.as_str(), "a:t") {
                Err(e) => {
                    return Err(e);
                },
                Ok(t) => {
                    if !t.as_str().is_empty() {
                        if out.len() > 0 {
                            out.push('\n');
                        }
                        push_str_chars(&mut out, t.as_str());
                    }
                },
            },
        }
        i += 1;
    }
    Ok(string_of(&out))
}

// ── Plain text and RTF ───────────────────────────────────────────────

/// The text of UTF-8 bytes, or the decoding error after `prefix`.
pub open spec fn utf8_text(data: Seq<u8>, prefix: Seq<char>) -> Result<Seq<char>, Seq<char>> {
    if valid_utf8(data) {
        Ok(decode_utf8(data))
    } else {
        Err(prefix + utf8_error_text(data))
    }
}

/// Decodes UTF-8 bytes, with `prefix` before the error message.
fn utf8_text_exec(data: &[u8], prefix: &str) -> (r: Result<String, String>)
    ensures
        result_view(r) == utf8_text(data@, prefix@),
{
    match utf8_decode(data) {
        Ok(t) => Ok(t),
        Err(e) => {
            let mut m = str_chars(prefix);
            push_str_chars(&mut m, e.as_str());
            Err(string_of(&m))
        },
    }
}

/// The text that rtf-parser gives for an RTF document, or `None` when its
/// lexer or parser reports an error.
pub uninterp spec fn rtf_text(rtf: Seq<char>) -> Option<Seq<char>>;

/// Where the run of decimal digits of `s` that starts at `j` ends.
pub open spec fn digit_run_end(s: Seq<char>, j: int) -> int
    decreases s.len() - j,
{
    if 0 <= j < s.len() && is_digit(s[j]) {
        digit_run_end(s, j + 1)
    } else {
        j
    }
}

/// Where the parameter that may follow a control word at `j` has its digits:
/// after a `-` sign where there is one.
pub open spec fn param_start(s: Seq<char>, j: int) -> int {
    if 0 <= j < s.len() && s[j] == '-' {
        j + 1
    } else {
        j
    }
}

/// Where the parameter that starts at `j` ends.
pub open spec fn param_end(s: Seq<char>, j: int) -> int {
    digit_run_end(s, param_start(s, j))
}

/// The parameter at `j`: an optional `-` and the decimal digits that follow;
/// `None` when no digit stands there.
pub open spec fn param_after(s: Seq<char>, j: int) -> Option<int> {
    let k = param_start(s, j);
    let e = digit_run_end(s, k);
    if e > k {
        let v = digits_value(s.subrange(k, e)) as int;
        Some(
            if k > j {
                -v
            } else {
                v
            },
        )
    } else {
        None
    }
}

/// The number of the escape `\u` at index `i` of `s`; `None` when no such
/// escape stands there.
pub open spec fn escape_number(s: Seq<char>, i: int) -> Option<int> {
    if 0 <= i && i + 1 < s.len() && s[i] == '\\' && s[i + 1] == 'u' {
        param_after(s, i + 2)
    } else {
        None
    }
}

/// The parameter of the control word `\uc` at index `i` of `s`; `None` when
/// no such word with a number stands there.
pub open spec fn uc_number(s: Seq<char>, i: int) -> Option<int> {
    if 0 <= i && i + 2 < s.len() && s[i] == '\\' && s[i + 1] == 'u' && s[i + 2] == 'c' {
        param_after(s, i + 3)
    } else {
        None
    }
}

/// Whether rtf-parser reads the number of a `\u` escape as a leading UTF-16
/// surrogate (a negative number stands for itself plus 65536).
pub open spec fn is_high_surrogate(v: int) -> bool {
    (55296 <= v <= 56319) || (-10240 <= v <= -9217)
}

/// Whether rtf-parser reads the number of a `\u` escape as a trailing UTF-16
/// surrogate.
pub open spec fn is_low_surrogate(v: int) -> bool {
    (56320 <= v <= 57343) || (-9216 <= v <= -8193)
}

/// Where the number of the escape `\u` at `i` ends.
pub open spec fn escape_end(s: Seq<char>, i: int) -> int {
    param_end(s, i + 2)
}

/// Whether index `k` ends a control word for rtf-parser's lexer: the end of
/// the text, a space, tab or line break, a backslash or a brace.
pub open spec fn ends_control_word(s: Seq<char>, k: int) -> bool {
    k == s.len() || (0 <= k < s.len() && (s[k] == ' ' || s[k] == '\t' || s[k] == '\n' || s[k]
        == '\r' || s[k] == '\\' || s[k] == '{' || s[k] == '}'))
}

/// Whether the escape `\u` at `i` is a leading surrogate that rtf-parser
/// reads together with a trailing one: its backslash starts a control word
/// (it does not follow another backslash), the trailing escape follows right
/// after its digits, and that escape's word ends there.
pub open spec fn pair_at(s: Seq<char>, i: int) -> bool {
    &&& (i == 0 || (i > 0 && s[i - 1] != '\\'))
    &&& escape_number(s, i) matches Some(h) && is_high_surrogate(h)
    &&& escape_number(s, escape_end(s, i)) matches Some(l) && is_low_surrogate(l)
    &&& ends_control_word(s, escape_end(s, escape_end(s, i)))
}

/// Whether the escape at `j` is the trailing half of such a pair.
pub open spec fn pair_tail(s: Seq<char>, j: int) -> bool {
    exists|p: int| 0 <= p < j && #[trigger] pair_at(s, p) && escape_end(s, p) == j
}

/// Whether the text at `i` is safe for rtf-parser: a `\uc` there has a
/// parameter from 0 to 65535, and a surrogate escape there is half of a pair.
pub open spec fn escape_safe_at(s: Seq<char>, i: int) -> bool {
    &&& uc_number(s, i) matches Some(v) ==> 0 <= v <= 65535
    &&& escape_number(s, i) matches Some(v) ==> (is_high_surrogate(v) ==> pair_at(s, i))
    &&& escape_number(s, i) matches Some(v) ==> (is_low_surrogate(v) ==> pair_tail(s, i))
}

/// Whether rtf-parser can read the `\u` and `\uc` escapes of an RTF text
/// without panicking. Its parser sizes a buffer by the `\uc` count with
/// `Vec::with_capacity(count as usize + 1)` (parser.rs:218), which panics on
/// a negative count, and decodes each run of `\u` codes with
/// `String::from_utf16(..).unwrap()` (parser.rs:249), which panics on a
/// surrogate that is not paired. A text meets this when every `\uc` count lies
/// from 0 to 65535 and every surrogate escape is half of a pair written
/// `\uHIGH\uLOW` with nothing between.
pub open spec fn rtf_escapes_safe(s: Seq<char>) -> bool {
    forall|i: int| 0 <= i < s.len() ==> #[trigger] escape_safe_at(s, i)
}

/// `RtfDocument::try_from` and `RtfDocument::get_text` from rtf-parser (what
/// its `parse_rtf` does before unwrapping): the text of the document, named by
/// `rtf_text`. Its parser panics on a text in two places: the buffer sized by
/// a negative `\uc` count (parser.rs:218) and the `unwrap` of
/// `String::from_utf16` on a run of `\u` codes with an unpaired surrogate
/// (parser.rs:249); `requires` rules out both (see `rtf_escapes_safe`). The
/// slice at lexer.rs:101 follows a `get(1..3)` that checked both of its
/// boundaries.
#[verifier::external_body]
fn parse_rtf_text(rtf: String) -> (r: Option<String>)
    requires
        rtf_escapes_safe(rtf@),
    ensures
        match r {
            Some(t) => rtf_text(rtf@) == Some(t@),
            None => rtf_text(rtf@) is None,
        },
{
    match rtf_parser::RtfDocument::try_from(rtf) {
        Ok(doc) => Some(doc.get_text()),
        Err(_) => None,
    }
}

proof fn lemma_digit_run_end_bounds(s: Seq<char>, j: int)
    requires
        0 <= j <= s.len(),
    ensures
        j <= digit_run_end(s, j) <= s.len(),
        forall|k: int| j <= k < digit_run_end(s, j) ==> is_digit(s[k]),
        digit_run_end(s, j) < s.len() ==> !is_digit(s[digit_run_end(s, j)]),
    decreases s.len() - j,
{
    if j < s.len() && is_digit(s[j]) {
        lemma_digit_run_end_bounds(s, j + 1);
    }
}

/// The parameter at `j`, with its size cut to 100000 either way.
pub open spec fn clamped(v: int) -> int {
    if v > 100000 {
        100000
    } else if v < -100000 {
        -100000
    } else {
        v
    }
}

proof fn lemma_escape_interior(s: Seq<char>, p: int)
    requires
        escape_number(s, p) is Some,
    ensures
        p + 2 < escape_end(s, p) <= s.len(),
        forall|m: int| p < m < escape_end(s, p) ==> s[m] != '\\',
{
    lemma_digit_run_end_bounds(s, param_start(s, p + 2));
}

/// Reads the parameter at `j`: its value cut to 100000 either way, and where
/// it ends.
fn scan_param(v: &Vec<char>, j: usize) -> (r: (Option<i64>, usize))
    requires
        j <= v.len(),
    ensures
        r.1 == param_end(v@, j as int),
        j <= r.1 <= v.len(),
        match param_after(v@, j as int) {
            Some(x) => r.0 == Some(clamped(x) as i64),
            None => r.0 is None,
        },
{
    let n = v.len();
    let neg = j < n && v[j] == '-';
    let k0 = if neg {
        j + 1
    } else {
        j
    };
    proof {
        lemma_digit_run_end_bounds(v@, k0 as int);
    }
    let mut k = k0;
    let mut acc: u64 = 0;
    while k < n && '0' <= v[k] && v[k] <= '9'
        invariant
            n == v@.len(),
            k0 <= k <= n,
            k <= digit_run_end(v@, k0 as int),
            k0 <= digit_run_end(v@, k0 as int) <= n,
            forall|m: int| k0 <= m < digit_run_end(v@, k0 as int) ==> is_digit(v@[m]),
            digit_run_end(v@, k0 as int) < n ==> !is_digit(v@[digit_run_end(v@, k0 as int)]),
            acc == if digits_value(v@.subrange(k0 as int, k as int)) < 100000 {
                digits_value(v@.subrange(k0 as int, k as int))
            } else {
                100000
            },
        decreases n - k,
    {
        let d = (v[k] as u32 - '0' as u32) as u64;
        proof {
            let a = v@.subrange(k0 as int, k as int);
            let b = v@.subrange(k0 as int, k + 1);
            assert(b.drop_last() =~= a);
            assert(b.last() == v@[k as int]);
            assert(digits_value(b) == digits_value(a) * 10 + digit_value(v@[k as int]));
        }
        acc = if acc >= 100000 {
            100000
        } else if acc * 10 + d >= 100000 {
            100000
        } else {
            acc * 10 + d
        };
        k += 1;
    }
    assert(k == digit_run_end(v@, k0 as int));
    if k > k0 {
        let x: i64 = if neg {
            -(acc as i64)
        } else {
            acc as i64
        };
        (Some(x), k)
    } else {
        (None, k)
    }
}

/// Whether index `k` of the characters ends a control word; see
/// `ends_control_word`.
fn ends_control_word_exec(v: &Vec<char>, k: usize) -> (r: bool)
    requires
        k <= v.len(),
    ensures
        r == ends_control_word(v@, k as int),
{
    if k == v.len() {
        true
    } else {
        let c = v[k];
        c == ' ' || c == '\t' || c == '\n' || c == '\r' || c == '\\' || c == '{' || c == '}'
    }
}

/// Whether rtf-parser can read the escapes of the text; see
/// `rtf_escapes_safe`.
pub fn rtf_escapes_safe_exec(text: &str) -> (r: bool)
    ensures
        r == rtf_escapes_safe(text@),
{
    let v = str_chars(text);
    let n = v.len();
    let mut i: usize = 0;
    let mut pending: Option<usize> = None;
    let ghost mut owner: int = 0;
    while i < n
        invariant
            n == v@.len(),
            v@ == text@,
            i <= n,
            forall|k: int| 0 <= k < i ==> #[trigger] escape_safe_at(v@, k),
            pending matches Some(e) ==> 0 <= owner < i && pair_at(v@, owner) && escape_end(
                v@,
                owner,
            ) == e,
            forall|p: int|
                0 <= p < i && #[trigger] pair_at(v@, p) && escape_end(v@, p) >= i ==> pending
                    == Some(escape_end(v@, p) as usize),
        decreases n - i,
    {
        let s = Ghost(v@);
        if n - i > 2 && v[i] == '\\' && v[i + 1] == 'u' && v[i + 2] == 'c' {
            let (u, _) = scan_param(&v, i + 3);
            if let Some(x) = u {
                if x < 0 || x > 65535 {
                    assert(!escape_safe_at(s@, i as int));
                    return false;
                }
            }
        }
        assert(uc_number(s@, i as int) matches Some(x) ==> 0 <= x <= 65535);
        let mut paired = false;
        let mut pair_end: usize = 0;
        if i + 1 < n && v[i] == '\\' && v[i + 1] == 'u' {
            let (h, e1) = scan_param(&v, i + 2);
            if let Some(x) = h {
                let high = (55296 <= x && x <= 56319) || (-10240 <= x && x <= -9217);
                let low = (56320 <= x && x <= 57343) || (-9216 <= x && x <= -8193);
                if high {
                    let starts = i == 0 || v[i - 1] != '\\';
                    let mut ok = false;
                    if starts && e1 < n && n - e1 > 1 && v[e1] == '\\' && v[e1 + 1] == 'u' {
                        let (l, e2) = scan_param(&v, e1 + 2);
                        if let Some(y) = l {
                            let is_low = (56320 <= y && y <= 57343) || (-9216 <= y && y <= -8193);
                            if is_low && ends_control_word_exec(&v, e2) {
                                ok = true;
                            }
                        }
                    }
                    if !ok {
                        assert(!pair_at(s@, i as int));
                        assert(!escape_safe_at(s@, i as int));
                        return false;
                    }
                    assert(pair_at(s@, i as int));
                    paired = true;
                    pair_end = e1;
                } else if low {
                    if pending != Some(i) {
                        proof {
                            if pair_tail(s@, i as int) {
                                let p = choose|p: int|
                                    0 <= p < i && #[trigger] pair_at(s@, p) && escape_end(s@, p)
                                        == i;
                                assert(pending == Some(escape_end(s@, p) as usize));
                            }
                        }
                        assert(!escape_safe_at(s@, i as int));
                        return false;
                    }
                    proof {
                        assert(pair_at(s@, owner) && escape_end(s@, owner) == i);
                        lemma_escape_interior(s@, owner);
                        assert(pair_tail(s@, i as int));
                    }
                }
            }
        }
        assert(escape_safe_at(s@, i as int));
        if paired {
            proof {
                assert forall|p: int|
                    0 <= p < i && #[trigger] pair_at(s@, p) && escape_end(s@, p) >= i + 1 implies false by {
                    lemma_escape_interior(s@, p);
                }
                owner = i as int;
            }
            assert(pair_end == escape_end(s@, i as int));
            pending = Some(pair_end);
        } else {
            assert(!pair_at(s@, i as int));
        }
        i += 1;
    }
    true
}

/// Whether reading `data` as RTF returns: the bytes are not UTF-8, or their
/// text has escapes that rtf-parser reads safely and rtf-parser parses it.
pub open spec fn rtf_parses(data: Seq<u8>) -> bool {
    valid_utf8(data) ==> rtf_escapes_safe(decode_utf8(data)) && rtf_text(decode_utf8(data)) is Some
}

/// The text of an RTF document.
pub open spec fn rtf_document(data: Seq<u8>) -> Result<Seq<char>, Seq<char>> {
    match utf8_text(data, "invalid RTF encoding: "@) {
        Ok(t) => Ok(rtf_text(t)->0),
        Err(e) => Err(e),
    }
}

/// Reads the text of an RTF document: `None` when its bytes are UTF-8 whose
/// text has a negative or oversized `\uc` count, an unpaired surrogate `\u`
/// escape, or that rtf-parser cannot parse; see
/// `rtf_document`.
pub fn try_read_rtf(data: &[u8]) -> (r: Option<Result<String, String>>)
    ensures
        r is None <==> !rtf_parses(data@),
        r matches Some(x) ==> result_view(x) == rtf_document(data@),
{
    match utf8_text_exec(data, "invalid RTF encoding: ") {
        Ok(t) => if !rtf_escapes_safe_exec(t.as_str()) {
            None
        } else {
            match parse_rtf_text(t) {
                Some(text) => Some(Ok(text)),
                None => None,
            }
        },
        Err(e) => Some(Err(e)),
    }
}

/// Reads the text of an RTF document that rtf-parser can parse; see
/// `rtf_document`.
pub fn read_rtf(data: &[u8]) -> (r: Result<String, String>)
    requires
        rtf_parses(data@),
    ensures
        result_view(r) == rtf_document(data@),
{
    match try_read_rtf(data) {
        Some(r) => r,
        None => {
            proof {
                assert(false);
            }
            Err(String::new())
        },
    }
}

// ── Documents ────────────────────────────────────────────────────────

/// The error for a PDF document.
pub open spec fn pdf_unavailable() -> Seq<char> {
    "PDF text extraction requires PDFium (enable pdfium-render feature and provide PDFium binary)"@
}

/// The error for an image.
pub open spec fn image_unavailable() -> Seq<char> {
    "unsupported format for local extraction — requires vision callback"@
}

/// The text of a document of format `format` with bytes `data`; `sheet`
/// chooses the sheet of a spreadsheet.
pub open spec fn document_text(data: Seq<u8>, format: DocFormat, sheet: Option<usize>) -> Result<
    Seq<char>,
    Seq<char>,
> {
    match format {
        DocFormat::Xlsx => spreadsheet_text(data, sheet),
        DocFormat::Xls => spreadsheet_text(data, sheet),
        DocFormat::Xlsm => spreadsheet_text(data, sheet),
        DocFormat::Ods => spreadsheet_text(data, sheet),
        DocFormat::Docx => docx_text(data),
        DocFormat::Pdf => Err(pdf_unavailable()),
        DocFormat::Rtf => rtf_document(data),
        DocFormat::Pptx => pptx_text(data),
        DocFormat::Html => match utf8_text(data, "invalid UTF-8: "@) {
            Ok(t) => Ok(html_text_of_events(xml_events(wrapped_html(t), false), t)),
            Err(e) => Err(e),
        },
        DocFormat::Csv => utf8_text(data, "invalid UTF-8: "@),
        DocFormat::Txt => utf8_text(data, "invalid UTF-8: "@),
        DocFormat::Json => utf8_text(data, "invalid UTF-8: "@),
        DocFormat::Md => utf8_text(data, "invalid UTF-8: "@),
        DocFormat::Png => Err(image_unavailable()),
        DocFormat::Jpg => Err(image_unavailable()),
        DocFormat::Webp => Err(image_unavailable()),
        DocFormat::Gif => Err(image_unavailable()),
    }
}

/// Reads a document file and extracts its text content: `data` is the raw
/// file bytes, `format` determines the extraction method. An RTF document must
/// be one that rtf-parser parses (see `try_read_document`).
pub fn read_document(data: &[u8], format: DocFormat, opts: &ReadOptions) -> (r: Result<String, String>)
    requires
        format == DocFormat::Rtf ==> rtf_parses(data@),
    ensures
        result_view(r) == document_text(data@, format, opts.sheet),
{
    match format {
        DocFormat::Xlsx | DocFormat::Xls | DocFormat::Xlsm | DocFormat::Ods => read_spreadsheet(
            data,
            opts,
        ),
        DocFormat::Docx => read_docx(data),
        DocFormat::Pdf => Err(
            string_of(
                &str_chars(
                    "PDF text extraction requires PDFium (enable pdfium-render feature and provide PDFium binary)",
                ),
            ),
        ),
        DocFormat::Rtf => read_rtf(data),
        DocFormat::Pptx => read_pptx(data),
        DocFormat::Html => match utf8_text_exec(data, "invalid UTF-8: ") {
            Ok(t) => Ok(html_to_text(t.as_str())),
            Err(e) => Err(e),
        },
        DocFormat::Csv | DocFormat::Txt | DocFormat::Json | DocFormat::Md => utf8_text_exec(
            data,
            "invalid UTF-8: ",
        ),
        DocFormat::Png | DocFormat::Jpg | DocFormat::Webp | DocFormat::Gif => Err(
            string_of(&str_chars("unsupported format for local extraction — requires vision callback")),
        ),
    }
}

/// Reads a document as `read_document` does, for any bytes: `None` for an RTF
/// document whose UTF-8 text rtf-parser cannot parse.
pub fn try_read_document(data: &[u8], format: DocFormat, opts: &ReadOptions) -> (r: Option<
    Result<String, String>,
>)
    ensures
        r is None <==> (format == DocFormat::Rtf && !rtf_parses(data@)),
        r matches Some(x) ==> result_view(x) == document_text(data@, format, opts.sheet),
{
    match format {
        DocFormat::Rtf => try_read_rtf(data),
        _ => Some(read_document(data, format, opts)),
    }
}

// ── File conversion ──────────────────────────────────────────────────

/// What converting a file gives.
pub enum ConvertedFile {
    /// The text of the output file.
    Text(String),
    /// A PDF to render from this HTML; an error of the rendering is reported
    /// after `error_prefix`.
    RenderPdf { html: String, error_prefix: String },
}

/// The view of what converting a file gives.
pub enum ConvertedView {
    Text(Seq<char>),
    RenderPdf(Seq<char>, Seq<char>),
}

/// The view of the result of a conversion.
pub open spec fn converted_result_view(r: Result<ConvertedFile, String>) -> Result<ConvertedView, Seq<char>> {
    match r {
        Ok(ConvertedFile::Text(t)) => Ok(ConvertedView::Text(t@)),
        Ok(ConvertedFile::RenderPdf { html, error_prefix }) => Ok(
            ConvertedView::RenderPdf(html@, error_prefix@),
        ),
        Err(e) => Err(e@),
    }
}

/// What rendering `text` of render format `from` to binary format `to` asks
/// for: the HTML of an HTML or Markdown text to render as PDF, or the error
/// for any other pair.
pub open spec fn pdf_render_spec(text: Seq<char>, from: Seq<char>, to: Seq<char>) -> Result<
    ConvertedView,
    Seq<char>,
> {
    if from == "html"@ && to == "pdf"@ {
        Ok(ConvertedView::RenderPdf(text, "HTML→PDF: "@))
    } else if (from == "markdown"@ || from == "md"@) && to == "pdf"@ {
        Ok(ConvertedView::RenderPdf(cmark_html(text), "markdown→PDF: "@))
    } else {
        Err("unsupported conversion: "@ + from + " → "@ + to + " (binary)"@)
    }
}

/// The PDF rendering that converting `text` from `from` to `to` asks for; see
/// `pdf_render_spec`.
pub fn pdf_render_request(text: String, from: &str, to: &str) -> (r: Result<ConvertedFile, String>)
    ensures
        converted_result_view(r) == pdf_render_spec(text@, from@, to@),
{
    if str_eq(from, "html") && str_eq(to, "pdf") {
        Ok(ConvertedFile::RenderPdf { html: text, error_prefix: string_of(&str_chars("HTML→PDF: ")) })
    } else if (str_eq(from, "markdown") || str_eq(from, "md")) && str_eq(to, "pdf") {
        Ok(
            ConvertedFile::RenderPdf {
                html: markdown_to_html(text.as_str()),
                error_prefix: string_of(&str_chars("markdown→PDF: ")),
            },
        )
    } else {
        let mut e = str_chars("unsupported conversion: ");
        push_str_chars(&mut e, from);
        push_str_chars(&mut e, " → ");
        push_str_chars(&mut e, to);
        push_str_chars(&mut e, " (binary)");
        Err(string_of(&e))
    }
}

/// Whether a file extension (either case) names an RTF document.
pub open spec fn is_rtf_ext(ext: Seq<char>) -> bool {
    format_of_ext(unicode_lowercase(unicode_lowercase(ext))) == Some(DocFormat::Rtf)
}

/// What converting the file `data` from extension `from` to extension `to`
/// (either case) gives: binary documents extract to text files only, text
/// formats render (to PDF through a rendering request), other documents pass
/// through to text.
pub open spec fn convert_spec(data: Seq<u8>, from: Seq<char>, to: Seq<char>, sheet: Option<usize>) -> Result<
    ConvertedView,
    Seq<char>,
> {
    let fl = unicode_lowercase(from);
    let tl = unicode_lowercase(to);
    let input = format_of_ext(unicode_lowercase(fl));
    if input is Some && is_binary_input(input->0) {
        match document_text(data, input->0, sheet) {
            Err(e) => Err(e),
            Ok(t) => if is_text_ext(tl) {
                Ok(ConvertedView::Text(t))
            } else {
                Err(
                    "unsupported conversion: ."@ + from + " → ."@ + to
                        + " (binary formats can only extract to .txt)"@,
                )
            },
        }
    } else if render_format_spec(fl) is Some && render_format_spec(tl) is Some {
        let rf = render_format_spec(fl)->0;
        let rt = render_format_spec(tl)->0;
        match utf8_text(data, "invalid UTF-8 input: "@) {
            Err(e) => Err(e),
            Ok(text) => if rt == "pdf"@ {
                pdf_render_spec(text, rf, rt)
            } else {
                match render_spec(text, rf, rt) {
                    Ok(t) => Ok(ConvertedView::Text(t)),
                    Err(e) => Err(e),
                }
            },
        }
    } else if is_text_ext(tl) && input is Some {
        match document_text(data, input->0, sheet) {
            Err(e) => Err(e),
            Ok(t) => Ok(ConvertedView::Text(t)),
        }
    } else {
        Err("unsupported conversion: ."@ + from + " → ."@ + to)
    }
}

/// Converts file data from one format to another; formats are identified by
/// file extensions (either case). An RTF input must be one that rtf-parser
/// parses (see `try_convert_file`).
pub fn convert_file(data: &[u8], from_ext: &str, to_ext: &str, opts: &ReadOptions) -> (r: Result<
    ConvertedFile,
    String,
>)
    requires
        is_rtf_ext(from_ext@) ==> rtf_parses(data@),
    ensures
        converted_result_view(r) == convert_spec(data@, from_ext@, to_ext@, opts.sheet),
{
    match conversion_plan(from_ext, to_ext) {
        ConversionPlan::Extract { format, to_text, error } => match read_document(data, format, opts) {
            Err(e) => Err(e),
            Ok(text) => if to_text {
                Ok(ConvertedFile::Text(text))
            } else {
                Err(error)
            },
        },
        ConversionPlan::Render { from, to, binary } => match utf8_text_exec(
            data,
            "invalid UTF-8 input: ",
        ) {
            Err(e) => Err(e),
            Ok(text) => if binary {
                pdf_render_request(text, from.as_str(), to.as_str())
            } else {
                match render_document(text.as_str(), from.as_str(), to.as_str()) {
                    Ok(t) => Ok(ConvertedFile::Text(t)),
                    Err(e) => Err(e),
                }
            },
        },
        ConversionPlan::Passthrough(format) => match read_document(data, format, opts) {
            Err(e) => Err(e),
            Ok(text) => Ok(ConvertedFile::Text(text)),
        },
        ConversionPlan::Unsupported(error) => Err(error),
    }
}

/// Converts a file as `convert_file` does, for any bytes: `None` for an RTF
/// input whose UTF-8 text rtf-parser cannot parse.
pub fn try_convert_file(data: &[u8], from_ext: &str, to_ext: &str, opts: &ReadOptions) -> (r: Option<
    Result<ConvertedFile, String>,
>)
    ensures
        r is None <==> (is_rtf_ext(from_ext@) && !rtf_parses(data@)),
        r matches Some(x) ==> converted_result_view(x) == convert_spec(
            data@,
            from_ext@,
            to_ext@,
            opts.sheet,
        ),
{
    let lower = to_lowercase(from_ext);
    match DocFormat::from_ext(lower.as_str()) {
        Some(DocFormat::Rtf) => {
            if try_read_rtf(data).is_none() {
                return None;
            }
        },
        _ => {},
    }
    Some(convert_file(data, from_ext, to_ext, opts))
}

} // verus!
