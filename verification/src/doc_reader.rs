//! Document formats, read options and text conversions of the `doc` module.

use vstd::prelude::*;
use crate::text::{
    ends_with_chars, has_prefix, has_suffix, lemma_trim_elements, starts_with_chars, str_eq,
    chars_eq_str, decimal, parse_unsigned, parse_unsigned_chars, push_all, push_decimal,
    push_str_chars, slice_chars, str_chars, string_of, to_lowercase, trim, trim_chars, trim_str,
    unicode_lowercase, ascii_lower, ascii_lower_seq, all_digits, digits_value, digit_value,
    digit_char, is_digit, is_ws, trim_start, trim_end,
};
use vstd::utf8::is_ascii_chars;

verus! {

/// Read mode: structural (local parsing) or vision (multimodal callback).
#[derive(Debug, Clone, Copy, PartialEq, Eq, Structural)]
pub enum ReadMode {
    /// Deterministic local parsing.
    Structured,
    /// Multimodal analysis via vision callback.
    Vision,
}

/// Options for reading a document.
pub struct ReadOptions {
    /// For spreadsheets: which sheet to read (1-indexed). None = all sheets.
    pub sheet: Option<usize>,
    /// Explicit read mode override. None = use format default.
    pub mode: Option<ReadMode>,
}

impl Default for ReadOptions {
    fn default() -> (r: Self)
        ensures
            r.sheet is None,
            r.mode is None,
    {
        Self { sheet: None, mode: None }
    }
}

/// Supported document formats (detected from file extension).
#[derive(Debug, Clone, Copy, PartialEq, Eq, Structural)]
pub enum DocFormat {
    Xlsx,
    Xls,
    Xlsm,
    Ods,
    Docx,
    Pdf,
    Rtf,
    Pptx,
    Csv,
    Txt,
    Json,
    Md,
    Html,
    // Image formats: routed to the vision callback, not extractable locally.
    Png,
    Jpg,
    Webp,
    Gif,
}

/// The format named by a lowercase extension.
pub open spec fn format_of_ext(e: Seq<char>) -> Option<DocFormat> {
    if e == "xlsx"@ {
        Some(DocFormat::Xlsx)
    } else if e == "xls"@ {
        Some(DocFormat::Xls)
    } else if e == "xlsm"@ {
        Some(DocFormat::Xlsm)
    } else if e == "ods"@ {
        Some(DocFormat::Ods)
    } else if e == "docx"@ {
        Some(DocFormat::Docx)
    } else if e == "pdf"@ {
        Some(DocFormat::Pdf)
    } else if e == "rtf"@ {
        Some(DocFormat::Rtf)
    } else if e == "pptx"@ {
        Some(DocFormat::Pptx)
    } else if e == "csv"@ {
        Some(DocFormat::Csv)
    } else if e == "txt"@ || e == "text"@ || e == "log"@ {
        Some(DocFormat::Txt)
    } else if e == "json"@ {
        Some(DocFormat::Json)
    } else if e == "md"@ || e == "markdown"@ {
        Some(DocFormat::Md)
    } else if e == "html"@ || e == "htm"@ {
        Some(DocFormat::Html)
    } else if e == "png"@ {
        Some(DocFormat::Png)
    } else if e == "jpg"@ || e == "jpeg"@ {
        Some(DocFormat::Jpg)
    } else if e == "webp"@ {
        Some(DocFormat::Webp)
    } else if e == "gif"@ {
        Some(DocFormat::Gif)
    } else {
        None
    }
}

/// Whether a format is an image format.
pub open spec fn format_is_image(f: DocFormat) -> bool {
    f == DocFormat::Png || f == DocFormat::Jpg || f == DocFormat::Webp || f == DocFormat::Gif
}

/// Whether a format is routed through the vision callback (images and PDFs).
pub open spec fn format_needs_callback(f: DocFormat) -> bool {
    format_is_image(f) || f == DocFormat::Pdf
}

/// What `Path::extension` gives for a path, as a string (`None` when the final
/// component has no extension).
pub uninterp spec fn std_path_extension(path: Seq<char>) -> Option<Seq<char>>;

/// `Path::extension` from std, for a path given as a string slice (a string's
/// extension is always valid UTF-8, so the conversion back to `&str` succeeds).
#[verifier::external_body]
pub(crate) fn path_extension(path: &str) -> (r: Option<&str>)
    ensures
        match std_path_extension(path@) {
            Some(e) => r matches Some(s) && s@ == e,
            None => r is None,
        },
{
    std::path::Path::new(path).extension().and_then(|e| e.to_str())
}

/// The format of a lowercase extension.
pub fn format_from_lower(e: &Vec<char>) -> (r: Option<DocFormat>)
    ensures
        r == format_of_ext(e@),
{
    if chars_eq_str(e, "xlsx") {
        Some(DocFormat::Xlsx)
    } else if chars_eq_str(e, "xls") {
        Some(DocFormat::Xls)
    } else if chars_eq_str(e, "xlsm") {
        Some(DocFormat::Xlsm)
    } else if chars_eq_str(e, "ods") {
        Some(DocFormat::Ods)
    } else if chars_eq_str(e, "docx") {
        Some(DocFormat::Docx)
    } else if chars_eq_str(e, "pdf") {
        Some(DocFormat::Pdf)
    } else if chars_eq_str(e, "rtf") {
        Some(DocFormat::Rtf)
    } else if chars_eq_str(e, "pptx") {
        Some(DocFormat::Pptx)
    } else if chars_eq_str(e, "csv") {
        Some(DocFormat::Csv)
    } else if chars_eq_str(e, "txt") || chars_eq_str(e, "text") || chars_eq_str(e, "log") {
        Some(DocFormat::Txt)
    } else if chars_eq_str(e, "json") {
        Some(DocFormat::Json)
    } else if chars_eq_str(e, "md") || chars_eq_str(e, "markdown") {
        Some(DocFormat::Md)
    } else if chars_eq_str(e, "html") || chars_eq_str(e, "htm") {
        Some(DocFormat::Html)
    } else if chars_eq_str(e, "png") {
        Some(DocFormat::Png)
    } else if chars_eq_str(e, "jpg") || chars_eq_str(e, "jpeg") {
        Some(DocFormat::Jpg)
    } else if chars_eq_str(e, "webp") {
        Some(DocFormat::Webp)
    } else if chars_eq_str(e, "gif") {
        Some(DocFormat::Gif)
    } else {
        None
    }
}

impl DocFormat {
    /// Detect format from a bare extension string (case-insensitive).
    pub fn from_ext(ext: &str) -> (r: Option<Self>)
        ensures
            r == format_of_ext(unicode_lowercase(ext@)),
            is_ascii_chars(ext@) ==> r == format_of_ext(ascii_lower_seq(ext@)),
    {
        let lower = to_lowercase(ext);
        let v = str_chars(lower.as_str());
        format_from_lower(&v)
    }

    /// Returns true for image formats that have no local extraction fallback.
    pub fn is_image(&self) -> (r: bool)
        ensures
            r == format_is_image(*self),
    {
        match self {
            DocFormat::Png | DocFormat::Jpg | DocFormat::Webp | DocFormat::Gif => true,
            _ => false,
        }
    }

    /// Returns true for formats that should be routed through the vision
    /// callback (images and PDFs).
    pub fn needs_callback(&self) -> (r: bool)
        ensures
            r == format_needs_callback(*self),
    {
        self.is_image() || match self {
            DocFormat::Pdf => true,
            _ => false,
        }
    }

    /// Resolve the read mode: an explicit choice wins; otherwise images and PDFs
    /// use vision when a callback is present, everything else is structural.
    pub fn resolve_mode(&self, explicit: Option<ReadMode>, has_vision: bool) -> (r: ReadMode)
        ensures
            r == match explicit {
                Some(m) => m,
                None => if has_vision && format_needs_callback(*self) {
                    ReadMode::Vision
                } else {
                    ReadMode::Structured
                },
            },
    {
        if let Some(mode) = explicit {
            return mode;
        }
        if has_vision && self.needs_callback() {
            ReadMode::Vision
        } else {
            ReadMode::Structured
        }
    }

    /// Detect format from the file extension of a path (case-insensitive).
    pub fn from_extension(path: &str) -> (r: Option<Self>)
        ensures
            r == match std_path_extension(path@) {
                Some(e) => format_of_ext(unicode_lowercase(e)),
                None => None,
            },
    {
        let ext = path_extension(path)?;
        Self::from_ext(ext)
    }
}

/// For an ASCII extension, format detection does not depend on case: the
/// lower-cased extension is ASCII too, and detecting the format of it gives
/// the same answer as detecting the format of the extension itself.
pub proof fn law_from_ext_ignores_case(ext: Seq<char>)
    requires
        is_ascii_chars(ext),
    ensures
        is_ascii_chars(ascii_lower_seq(ext)),
        format_of_ext(ascii_lower_seq(ascii_lower_seq(ext))) == format_of_ext(ascii_lower_seq(ext)),
{
    let l = ascii_lower_seq(ext);
    assert forall|i: int| 0 <= i < l.len() implies '\0' <= #[trigger] l[i] <= '\u{7f}' by {
        assert(l[i] == ascii_lower(ext[i]));
    }
    assert(ascii_lower_seq(l) =~= l);
}

// ── Page ranges ──────────────────────────────────────────────────────

/// `s` split at every occurrence of `sep`, as `str::split` does with a
/// character pattern (always at least one piece).
pub open spec fn split_char(s: Seq<char>, sep: char) -> Seq<Seq<char>>
    decreases s.len(),
{
    if s.len() == 0 {
        seq![seq![]]
    } else {
        let rest = split_char(s.drop_last(), sep);
        if s.last() == sep {
            rest.push(seq![])
        } else {
            rest.update(rest.len() - 1, rest.last().push(s.last()))
        }
    }
}

pub(crate) proof fn lemma_split_nonempty(s: Seq<char>, sep: char)
    ensures
        split_char(s, sep).len() >= 1,
    decreases s.len(),
{
    if s.len() > 0 {
        lemma_split_nonempty(s.drop_last(), sep);
    }
}

/// The pieces of `v` split at every `sep`.
pub fn split_chars(v: &Vec<char>, sep: char) -> (r: Vec<Vec<char>>)
    ensures
        r@.map_values(|p: Vec<char>| p@) == split_char(v@, sep),
{
    let mut parts: Vec<Vec<char>> = Vec::new();
    let mut cur: Vec<char> = Vec::new();
    let mut i: usize = 0;
    while i < v.len()
        invariant
            i <= v.len(),
            split_char(v@.take(i as int), sep) == parts@.map_values(|p: Vec<char>| p@).push(cur@),
        decreases v.len() - i,
    {
        assert(v@.take(i + 1).drop_last() =~= v@.take(i as int));
        let ghost before = parts@.map_values(|p: Vec<char>| p@);
        if v[i] == sep {
            let done = cur;
            parts.push(done);
            cur = Vec::new();
            assert(parts@.map_values(|p: Vec<char>| p@) =~= before.push(done@));
        } else {
            let ghost old_cur = cur@;
            cur.push(v[i]);
            assert(before.push(old_cur).update(before.len() as int, old_cur.push(v@[i as int]))
                =~= before.push(cur@));
        }
        i += 1;
        assert(split_char(v@.take(i as int), sep) =~= parts@.map_values(|p: Vec<char>| p@).push(
            cur@,
        ));
    }
    assert(v@.take(v@.len() as int) =~= v@);
    let ghost before = parts@.map_values(|p: Vec<char>| p@);
    parts.push(cur);
    assert(parts@.map_values(|p: Vec<char>| p@) =~= before.push(cur@));
    parts
}

/// The index of the first `c` in `s`.
pub open spec fn index_of(s: Seq<char>, c: char) -> Option<int>
    decreases s.len(),
{
    if s.len() == 0 {
        None
    } else if s[0] == c {
        Some(0)
    } else {
        match index_of(s.drop_first(), c) {
            Some(i) => Some(i + 1),
            None => None,
        }
    }
}

proof fn lemma_index_of(s: Seq<char>, c: char, i: int)
    requires
        0 <= i <= s.len(),
        forall|j: int| 0 <= j < i ==> s[j] != c,
    ensures
        i < s.len() && s[i] == c ==> index_of(s, c) == Some(i),
        i == s.len() ==> index_of(s, c) is None,
    decreases i,
{
    if i > 0 {
        lemma_index_of(s.drop_first(), c, i - 1);
    }
}

/// The index of the first `c` in `v`.
pub fn index_of_char(v: &Vec<char>, c: char) -> (r: Option<usize>)
    ensures
        match index_of(v@, c) {
            Some(i) => r == Some(i as usize),
            None => r is None,
        },
        r matches Some(i) ==> i < v.len() && index_of(v@, c) == Some(i as int),
        r is None ==> index_of(v@, c) is None,
{
    let mut i: usize = 0;
    while i < v.len()
        invariant
            i <= v.len(),
            forall|j: int| 0 <= j < i ==> v@[j] != c,
        decreases v.len() - i,
    {
        if v[i] == c {
            proof {
                lemma_index_of(v@, c, i as int);
            }
            return Some(i);
        }
        i += 1;
    }
    proof {
        lemma_index_of(v@, c, i as int);
    }
    None
}

/// The error for a page number that does not parse.
pub open spec fn invalid_page_error(s: Seq<char>) -> Seq<char> {
    "invalid page number: '"@ + s + "'"@
}

/// The 0-indexed pages `start - 1 ..= end - 1`.
pub open spec fn page_span(start: nat, end: nat) -> Seq<u16> {
    Seq::new((end + 1 - start) as nat, |k: int| (start - 1 + k) as u16)
}

/// The pages selected by one comma-separated part (already trimmed, non-empty).
pub open spec fn page_part(part: Seq<char>, total: nat) -> Result<Seq<u16>, Seq<char>> {
    match index_of(part, '-') {
        Some(d) => {
            let start_str = trim(part.take(d));
            let end_str = trim(part.skip(d + 1));
            match parse_unsigned(start_str, 65535) {
                None => Err(invalid_page_error(start_str)),
                Some(start) => match parse_unsigned(end_str, 65535) {
                    None => Err(invalid_page_error(end_str)),
                    Some(end) => if start == 0 || end == 0 {
                        Err("page numbers are 1-indexed"@)
                    } else if start > total || end > total {
                        Err(
                            "page range "@ + decimal(start) + "-"@ + decimal(end)
                                + " exceeds document page count ("@ + decimal(total) + ")"@,
                        )
                    } else if start > end {
                        Err("invalid range: "@ + decimal(start) + " > "@ + decimal(end))
                    } else {
                        Ok(page_span(start, end))
                    },
                },
            }
        },
        None => match parse_unsigned(part, 65535) {
            None => Err(invalid_page_error(part)),
            Some(page) => if page == 0 {
                Err("page numbers are 1-indexed"@)
            } else if page > total {
                Err(
                    "page "@ + decimal(page) + " exceeds document page count ("@ + decimal(total)
                        + ")"@,
                )
            } else {
                Ok(seq![(page - 1) as u16])
            },
        },
    }
}

/// The pages selected by the comma-separated parts `parts`, in order; empty
/// parts are skipped and the first failing part decides the error.
pub open spec fn page_parts(parts: Seq<Seq<char>>, total: nat) -> Result<Seq<u16>, Seq<char>>
    decreases parts.len(),
{
    if parts.len() == 0 {
        Ok(seq![])
    } else {
        let rest = page_parts(parts.drop_last(), total);
        let part = trim(parts.last());
        match rest {
            Err(e) => Err(e),
            Ok(pages) => if part.len() == 0 {
                Ok(pages)
            } else {
                match page_part(part, total) {
                    Err(e) => Err(e),
                    Ok(more) => Ok(pages + more),
                }
            },
        }
    }
}

/// What `parse_page_range` returns: the 0-indexed pages of a 1-indexed range
/// list such as `"1-3, 5"`.
pub open spec fn page_range_spec(range: Seq<char>, total: nat) -> Result<Seq<u16>, Seq<char>> {
    page_parts(split_char(trim(range), ','), total)
}

proof fn lemma_decimal_digits(n: nat)
    ensures
        decimal(n).len() >= 1,
        all_digits(decimal(n)),
        digits_value(decimal(n)) == n,
    decreases n,
{
    lemma_digit_char(n % 10);
    if n >= 10 {
        lemma_decimal_digits(n / 10);
        let s = decimal(n / 10).push(digit_char(n % 10));
        assert(s.drop_last() =~= decimal(n / 10));
        assert(s.last() == digit_char(n % 10));
        assert(forall|i: int| 0 <= i < s.len() - 1 ==> s[i] == decimal(n / 10)[i]);
        assert(digits_value(s) == digits_value(decimal(n / 10)) * 10 + digit_value(digit_char(n % 10)));
    } else {
        let s = seq![digit_char(n)];
        assert(s.drop_last() =~= Seq::<char>::empty());
        assert(digits_value(s) == digits_value(s.drop_last()) * 10 + digit_value(s.last()));
    }
}

proof fn lemma_digit_char(d: nat)
    requires
        d < 10,
    ensures
        is_digit(digit_char(d)),
        digit_value(digit_char(d)) == d,
{
}

proof fn lemma_digits_not_ws(s: Seq<char>)
    requires
        all_digits(s),
    ensures
        forall|i: int| 0 <= i < s.len() ==> !is_ws(#[trigger] s[i]) && s[i] != '-' && s[i] != ',',
{
    assert forall|i: int| 0 <= i < s.len() implies !is_ws(#[trigger] s[i]) && s[i] != '-' && s[i] != ','
        by {
        assert(is_digit(s[i]));
    }
}

proof fn lemma_trim_unchanged(s: Seq<char>)
    requires
        s.len() > 0,
        !is_ws(s[0]),
        !is_ws(s.last()),
    ensures
        trim(s) == s,
{
    assert(trim_start(s) == s);
}

proof fn lemma_split_without_sep(s: Seq<char>, sep: char)
    requires
        forall|i: int| 0 <= i < s.len() ==> s[i] != sep,
    ensures
        split_char(s, sep) == seq![s],
    decreases s.len(),
{
    if s.len() > 0 {
        assert forall|i: int| 0 <= i < s.drop_last().len() implies s.drop_last()[i] != sep by {
            assert(s.drop_last()[i] == s[i]);
        }
        lemma_split_without_sep(s.drop_last(), sep);
        assert(s.last() != sep);
        assert(s.drop_last().push(s.last()) =~= s);
        let rest = split_char(s.drop_last(), sep);
        assert(rest.len() - 1 == 0);
        assert(rest.last() == s.drop_last());
        assert(rest.update(0, s.drop_last().push(s.last())) =~= seq![s]);
    } else {
        assert(s =~= Seq::<char>::empty());
        assert(split_char(s, sep) =~= seq![s]);
    }
}

proof fn lemma_parse_decimal(n: nat, max: nat)
    requires
        n <= max,
    ensures
        parse_unsigned(decimal(n), max) == Some(n),
        trim(decimal(n)) == decimal(n),
{
    lemma_decimal_digits(n);
    lemma_digits_not_ws(decimal(n));
    assert(is_digit(decimal(n)[0]));
    lemma_trim_unchanged(decimal(n));
}

proof fn lemma_range_text(s: nat, e: nat, total: nat)
    requires
        1 <= s <= 65535,
        1 <= e <= 65535,
    ensures
        ({
            let t = decimal(s) + "-"@ + decimal(e);
            &&& page_range_spec(t, total) == match page_part(t, total) {
                Err(x) => Err(x),
                Ok(m) => Ok(Seq::<u16>::empty() + m),
            }
            &&& index_of(t, '-') == Some(decimal(s).len() as int)
            &&& trim(t.take(decimal(s).len() as int)) == decimal(s)
            &&& trim(t.skip(decimal(s).len() as int + 1)) == decimal(e)
            &&& parse_unsigned(decimal(s), 65535) == Some(s)
            &&& parse_unsigned(decimal(e), 65535) == Some(e)
        }),
{
    reveal_strlit("-");
    let ds = decimal(s);
    let de = decimal(e);
    let t = ds + "-"@ + de;
    lemma_parse_decimal(s, 65535);
    lemma_parse_decimal(e, 65535);
    lemma_decimal_digits(s);
    lemma_decimal_digits(e);
    lemma_digits_not_ws(ds);
    lemma_digits_not_ws(de);
    assert(t[0] == ds[0]);
    assert(t.last() == de.last());
    lemma_trim_unchanged(t);
    assert forall|i: int| 0 <= i < t.len() implies t[i] != ',' by {
        if i < ds.len() {
            assert(t[i] == ds[i]);
        } else if i > ds.len() {
            assert(t[i] == de[i - ds.len() - 1]);
        }
    }
    lemma_split_without_sep(t, ',');
    let parts = seq![t];
    assert(parts.drop_last() =~= Seq::<Seq<char>>::empty());
    assert(forall|j: int| 0 <= j < ds.len() ==> t[j] == ds[j]);
    lemma_index_of(t, '-', ds.len() as int);
    assert(t.take(ds.len() as int) =~= ds);
    assert(t.skip(ds.len() as int + 1) =~= de);
    assert(split_char(trim(t), ',') == parts);
    assert(page_parts(parts.drop_last(), total) == Ok::<Seq<u16>, Seq<char>>(seq![]));
    assert(trim(parts.last()) == t);
}

/// A page range `s-e` with `1 <= s <= e <= total` selects exactly the pages
/// `s` to `e`, as the 0-indexed pages `s - 1 ..= e - 1` in order; the last
/// page of the document can end a range.
pub proof fn law_page_range_span(s: nat, e: nat, total: nat)
    requires
        1 <= s <= e <= total <= 65535,
    ensures
        page_range_spec(decimal(s) + "-"@ + decimal(e), total) matches Ok(p) && p.len() == e - s + 1
            && forall|k: int| 0 <= k < p.len() ==> p[k] as int == s - 1 + k,
{
    lemma_range_text(s, e, total);
    let p = page_span(s, e);
    assert(page_part(decimal(s) + "-"@ + decimal(e), total) == Ok::<Seq<u16>, Seq<char>>(p));
    assert(Seq::<u16>::empty() + p =~= p);
}

/// A single page number `n` with `1 <= n <= total` selects exactly that
/// page, as the 0-indexed page `n - 1`.
pub proof fn law_single_page(n: nat, total: nat)
    requires
        1 <= n <= total <= 65535,
    ensures
        page_range_spec(decimal(n), total) == Ok::<Seq<u16>, Seq<char>>(seq![(n - 1) as u16]),
{
    let t = decimal(n);
    lemma_parse_decimal(n, 65535);
    lemma_decimal_digits(n);
    lemma_digits_not_ws(t);
    lemma_split_without_sep(t, ',');
    let parts = seq![t];
    assert(parts.drop_last() =~= Seq::<Seq<char>>::empty());
    lemma_index_of(t, '-', t.len() as int);
    assert(split_char(trim(t), ',') == parts);
    assert(page_parts(parts.drop_last(), total) == Ok::<Seq<u16>, Seq<char>>(seq![]));
    assert(trim(parts.last()) == t);
    assert(Seq::<u16>::empty() + seq![(n - 1) as u16] =~= seq![(n - 1) as u16]);
}

/// A page range `s-e` of pages numbered from 1 is refused as exceeding the
/// document exactly when one of its ends lies past the last page.
pub proof fn law_page_range_past_end(s: nat, e: nat, total: nat)
    requires
        1 <= s <= 65535,
        1 <= e <= 65535,
        total <= 65535,
    ensures
        (s > total || e > total) <==> page_range_spec(decimal(s) + "-"@ + decimal(e), total) == Err::<
            Seq<u16>,
            Seq<char>,
        >(
            "page range "@ + decimal(s) + "-"@ + decimal(e) + " exceeds document page count ("@
                + decimal(total) + ")"@,
        ),
{
    lemma_range_text(s, e, total);
    reveal_strlit("page range ");
    reveal_strlit("invalid range: ");
    if !(s > total || e > total) && s > e {
        let x = "invalid range: "@ + decimal(s) + " > "@ + decimal(e);
        let y = "page range "@ + decimal(s) + "-"@ + decimal(e) + " exceeds document page count ("@
            + decimal(total) + ")"@;
        assert(x[0] != y[0]);
    }
}

fn invalid_page(s: &Vec<char>) -> (r: String)
    ensures
        r@ == invalid_page_error(s@),
{
    let mut m = str_chars("invalid page number: '");
    push_all(&mut m, s);
    push_str_chars(&mut m, "'");
    string_of(&m)
}

fn parse_part(part: &Vec<char>, total_pages: u16, out: &mut Vec<u16>) -> (r: Result<(), String>)
    ensures
        match page_part(part@, total_pages as nat) {
            Ok(p) => r is Ok && final(out)@ == old(out)@ + p,
            Err(e) => r matches Err(m) && m@ == e,
        },
{
    match index_of_char(part, '-') {
        Some(d) => {
            let start_str = trim_chars(&slice_chars(part, 0, d));
            let end_str = trim_chars(&slice_chars(part, d + 1, part.len()));
            assert(part@.subrange(0, d as int) == part@.take(d as int));
            assert(part@.subrange(d + 1, part@.len() as int) == part@.skip(d + 1));
            assert(start_str@ == trim(part@.take(d as int)));
            assert(end_str@ == trim(part@.skip(d + 1)));
            let start = match parse_unsigned_chars(&start_str, 65535) {
                Some(n) => n,
                None => return Err(invalid_page(&start_str)),
            };
            let end = match parse_unsigned_chars(&end_str, 65535) {
                Some(n) => n,
                None => return Err(invalid_page(&end_str)),
            };
            if start == 0 || end == 0 {
                return Err(string_of(&str_chars("page numbers are 1-indexed")));
            }
            if start > total_pages as u64 || end > total_pages as u64 {
                let mut m = str_chars("page range ");
                push_decimal(&mut m, start);
                push_str_chars(&mut m, "-");
                push_decimal(&mut m, end);
                push_str_chars(&mut m, " exceeds document page count (");
                push_decimal(&mut m, total_pages as u64);
                push_str_chars(&mut m, ")");
                return Err(string_of(&m));
            }
            if start > end {
                let mut m = str_chars("invalid range: ");
                push_decimal(&mut m, start);
                push_str_chars(&mut m, " > ");
                push_decimal(&mut m, end);
                return Err(string_of(&m));
            }
            let ghost before = out@;
            let mut i: u64 = start;
            while i <= end
                invariant
                    1 <= start <= i <= end + 1,
                    end <= 65535,
                    out@ == before + page_span(start as nat, (i - 1) as nat),
                decreases end + 1 - i,
            {
                let ghost prev = out@;
                out.push((i - 1) as u16);
                assert(page_span(start as nat, i as nat) =~= page_span(
                    start as nat,
                    (i - 1) as nat,
                ).push((i - 1) as u16));
                i += 1;
            }
            Ok(())
        },
        None => {
            let page = match parse_unsigned_chars(part, 65535) {
                Some(n) => n,
                None => return Err(invalid_page(part)),
            };
            if page == 0 {
                return Err(string_of(&str_chars("page numbers are 1-indexed")));
            }
            if page > total_pages as u64 {
                let mut m = str_chars("page ");
                push_decimal(&mut m, page);
                push_str_chars(&mut m, " exceeds document page count (");
                push_decimal(&mut m, total_pages as u64);
                push_str_chars(&mut m, ")");
                return Err(string_of(&m));
            }
            out.push((page - 1) as u16);
            Ok(())
        },
    }
}

/// Parse a page range string like "1-3" or "5" into 0-indexed page indices.
/// Pages in the range string are 1-indexed (user-facing).
pub fn parse_page_range(range: &str, total_pages: u16) -> (r: Result<Vec<u16>, String>)
    ensures
        match page_range_spec(range@, total_pages as nat) {
            Ok(p) => r matches Ok(v) && v@ == p,
            Err(e) => r matches Err(m) && m@ == e,
        },
{
    let trimmed = trim_str(range);
    let parts = split_chars(&trimmed, ',');
    let ghost views = parts@.map_values(|p: Vec<char>| p@);
    let mut indices: Vec<u16> = Vec::new();
    let mut i: usize = 0;
    while i < parts.len()
        invariant
            i <= parts.len(),
            views == parts@.map_values(|p: Vec<char>| p@),
            views == split_char(trim(range@), ','),
            page_parts(views.take(i as int), total_pages as nat) == Ok::<Seq<u16>, Seq<char>>(
                indices@,
            ),
        decreases parts.len() - i,
    {
        assert(views.take(i + 1).drop_last() =~= views.take(i as int));
        assert(views.take(i + 1).last() == parts@[i as int]@);
        let part = trim_chars(&parts[i]);
        if part.len() > 0 {
            match parse_part(&part, total_pages, &mut indices) {
                Ok(()) => {},
                Err(m) => {
                    proof {
                        lemma_page_parts_error(views, i as int, total_pages as nat);
                    }
                    return Err(m);
                },
            }
        }
        i += 1;
    }
    assert(views.take(parts.len() as int) =~= views);
    Ok(indices)
}

proof fn lemma_page_parts_error(views: Seq<Seq<char>>, i: int, total: nat)
    requires
        0 <= i < views.len(),
        page_parts(views.take(i + 1), total) is Err,
    ensures
        page_parts(views, total) == page_parts(views.take(i + 1), total),
    decreases views.len() - i,
{
    if i + 1 < views.len() {
        assert(views.take(i + 2).drop_last() =~= views.take(i + 1));
        lemma_page_parts_error(views, i + 1, total);
    } else {
        assert(views.take(i + 1) =~= views);
    }
}

/// Public entry to `parse_page_range` for the PDF operations of the `doc` module.
pub fn parse_page_range_public(range: &str, total_pages: u16) -> (r: Result<Vec<u16>, String>)
    ensures
        match page_range_spec(range@, total_pages as nat) {
            Ok(p) => r matches Ok(v) && v@ == p,
            Err(e) => r matches Err(m) && m@ == e,
        },
{
    parse_page_range(range, total_pages)
}

} // verus!

verus! {

// ── Slide numbers ────────────────────────────────────────────────────

/// The number in a slide part name such as `ppt/slides/slide12.xml` (0 when the
/// last path segment is not `slide<N>.xml` with `N` a `usize`).
pub open spec fn slide_number(name: Seq<char>) -> nat {
    let seg = split_char(name, '/').last();
    let after = if has_prefix(seg, "slide"@) {
        seg.skip(5)
    } else {
        seq![]
    };
    let num = if has_suffix(after, ".xml"@) {
        after.take(after.len() - 4)
    } else {
        seq![]
    };
    match parse_unsigned(num, usize::MAX as nat) {
        Some(n) => n,
        None => 0,
    }
}

proof fn lemma_split_last(s: Seq<char>, sep: char, i: int)
    requires
        -1 <= i < s.len(),
        i == -1 || s[i] == sep,
        forall|j: int| i < j < s.len() ==> s[j] != sep,
    ensures
        split_char(s, sep).len() >= 1,
        split_char(s, sep).last() == s.skip(i + 1),
    decreases s.len(),
{
    lemma_split_nonempty(s, sep);
    if s.len() > 0 {
        if i == s.len() - 1 {
            assert(s.skip(i + 1) =~= Seq::<char>::empty());
        } else {
            lemma_split_last(s.drop_last(), sep, i);
            assert(s.drop_last().skip(i + 1).push(s.last()) =~= s.skip(i + 1));
        }
    } else {
        assert(s.skip(0) =~= s);
    }
}

/// The slide number of a slide part name; see `slide_number`.
pub fn extract_slide_number(name: &str) -> (r: usize)
    ensures
        r == slide_number(name@),
{
    let v = str_chars(name);
    let mut i: usize = v.len();
    while i > 0 && v[i - 1] != '/'
        invariant
            i <= v.len(),
            forall|j: int| i <= j < v.len() ==> v@[j] != '/',
        decreases i,
    {
        i -= 1;
    }
    proof {
        lemma_split_last(v@, '/', i - 1);
    }
    let seg = slice_chars(&v, i, v.len());
    assert(seg@ == v@.skip(i as int));
    let prefix = str_chars("slide");
    let suffix = str_chars(".xml");
    proof {
        reveal_strlit("slide");
        reveal_strlit(".xml");
    }
    let after = if starts_with_chars(&seg, &prefix) {
        slice_chars(&seg, 5, seg.len())
    } else {
        Vec::new()
    };
    assert(has_prefix(seg@, "slide"@) ==> after@ == seg@.skip(5));
    let num = if ends_with_chars(&after, &suffix) {
        slice_chars(&after, 0, after.len() - 4)
    } else {
        Vec::new()
    };
    assert(has_suffix(after@, ".xml"@) ==> num@ == after@.take(after@.len() - 4));
    match parse_unsigned_chars(&num, usize::MAX as u64) {
        Some(n) => n as usize,
        None => 0,
    }
}

// ── Render formats and simple conversions ────────────────────────────

/// The render format name of a file extension (case-sensitive).
pub open spec fn render_format_spec(ext: Seq<char>) -> Option<Seq<char>> {
    if ext == "md"@ || ext == "markdown"@ {
        Some("markdown"@)
    } else if ext == "html"@ || ext == "htm"@ {
        Some("html"@)
    } else if ext == "txt"@ || ext == "text"@ || ext == "log"@ {
        Some("text"@)
    } else if ext == "pdf"@ {
        Some("pdf"@)
    } else {
        None
    }
}

/// Map a file extension to a render format name used by `render_document`.
pub fn render_format_from_ext(ext: &str) -> (r: Option<&'static str>)
    ensures
        match render_format_spec(ext@) {
            Some(f) => r matches Some(s) && s@ == f,
            None => r is None,
        },
{
    if str_eq(ext, "md") || str_eq(ext, "markdown") {
        Some("markdown")
    } else if str_eq(ext, "html") || str_eq(ext, "htm") {
        Some("html")
    } else if str_eq(ext, "txt") || str_eq(ext, "text") || str_eq(ext, "log") {
        Some("text")
    } else if str_eq(ext, "pdf") {
        Some("pdf")
    } else {
        None
    }
}

/// Returns true if the given conversion produces binary output (PDF).
pub fn is_binary_conversion(to: &str) -> (r: bool)
    ensures
        r == (to@ == "pdf"@),
{
    str_eq(to, "pdf")
}

/// The characters of `s` outside `<...>` tags, and whether `s` ends inside a tag.
pub open spec fn strip_state(s: Seq<char>) -> (Seq<char>, bool)
    decreases s.len(),
{
    if s.len() == 0 {
        (seq![], false)
    } else {
        let (o, in_tag) = strip_state(s.drop_last());
        let c = s.last();
        if c == '<' {
            (o, true)
        } else if c == '>' {
            (o, false)
        } else if !in_tag {
            (o.push(c), in_tag)
        } else {
            (o, in_tag)
        }
    }
}

/// Simple fallback: strip HTML tags without a parser, then trim.
pub fn strip_tags_simple(html: &str) -> (r: String)
    ensures
        r@ == trim(strip_state(html@).0),
{
    let v = str_chars(html);
    let mut output: Vec<char> = Vec::new();
    let mut in_tag = false;
    let mut i: usize = 0;
    while i < v.len()
        invariant
            i <= v.len(),
            strip_state(v@.take(i as int)) == (output@, in_tag),
        decreases v.len() - i,
    {
        assert(v@.take(i + 1).drop_last() =~= v@.take(i as int));
        let ch = v[i];
        if ch == '<' {
            in_tag = true;
        } else if ch == '>' {
            in_tag = false;
        } else if !in_tag {
            output.push(ch);
        }
        i += 1;
    }
    assert(v@.take(v@.len() as int) =~= v@);
    let t = trim_chars(&output);
    string_of(&t)
}

proof fn lemma_strip_no_brackets(s: Seq<char>)
    ensures
        forall|k: int| 0 <= k < strip_state(s).0.len() ==> #[trigger] strip_state(s).0[k] != '<'
            && strip_state(s).0[k] != '>',
    decreases s.len(),
{
    if s.len() > 0 {
        lemma_strip_no_brackets(s.drop_last());
        let o = strip_state(s.drop_last()).0;
        let r = strip_state(s).0;
        assert(r == o || (r == o.push(s.last()) && s.last() != '<' && s.last() != '>'));
        assert forall|k: int| 0 <= k < r.len() implies #[trigger] r[k] != '<' && r[k] != '>' by {
            if k < o.len() {
                assert(r[k] == o[k]);
            }
        }
    }
}

/// The text that `strip_tags_simple` returns never holds `<` or `>`.
pub proof fn law_strip_tags_no_brackets(html: Seq<char>)
    ensures
        forall|k: int|
            0 <= k < trim(strip_state(html).0).len() ==> #[trigger] trim(strip_state(html).0)[k]
                != '<' && trim(strip_state(html).0)[k] != '>',
{
    let o = strip_state(html).0;
    lemma_strip_no_brackets(html);
    lemma_trim_elements(o);
}


} // verus!
