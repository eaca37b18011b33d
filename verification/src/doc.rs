//! Helpers of the `doc` module: vision media types, rendering policy checks,
//! PDF color and error text, and the vision cache key.

use vstd::prelude::*;
use vstd::string::StringSliceAdditionalSpecFns;
use vstd::utf8::encode_utf8;
use crate::doc_reader::{path_extension, std_path_extension, DocFormat};
use crate::text::{
    ascii_lower_chars, ascii_lower_seq, has_prefix, push_all, push_str_chars, slice_chars,
    starts_with_chars, str_chars, str_eq, string_of,
};

verus! {

// ── Vision media types ───────────────────────────────────────────────

/// The media type sent with a document of the given format.
pub open spec fn media_type_spec(f: DocFormat) -> Seq<char> {
    match f {
        DocFormat::Png => "image/png"@,
        DocFormat::Jpg => "image/jpeg"@,
        DocFormat::Webp => "image/webp"@,
        DocFormat::Gif => "image/gif"@,
        DocFormat::Pdf => "application/pdf"@,
        DocFormat::Txt => "text/plain"@,
        DocFormat::Csv => "text/csv"@,
        DocFormat::Json => "application/json"@,
        DocFormat::Md => "text/markdown"@,
        DocFormat::Html => "text/html"@,
        DocFormat::Xlsx => "application/vnd.openxmlformats-officedocument.spreadsheetml.sheet"@,
        DocFormat::Xls => "application/vnd.ms-excel"@,
        DocFormat::Xlsm => "application/vnd.ms-excel.sheet.macroenabled.12"@,
        DocFormat::Ods => "application/vnd.oasis.opendocument.spreadsheet"@,
        DocFormat::Docx => "application/vnd.openxmlformats-officedocument.wordprocessingml.document"@,
        DocFormat::Rtf => "application/rtf"@,
        DocFormat::Pptx => "application/vnd.openxmlformats-officedocument.presentationml.presentation"@,
    }
}

/// The media type sent to the vision callback for a document format.
pub fn vision_media_type(format: DocFormat) -> (r: &'static str)
    ensures
        r@ == media_type_spec(format),
{
    match format {
        DocFormat::Png => "image/png",
        DocFormat::Jpg => "image/jpeg",
        DocFormat::Webp => "image/webp",
        DocFormat::Gif => "image/gif",
        DocFormat::Pdf => "application/pdf",
        DocFormat::Txt => "text/plain",
        DocFormat::Csv => "text/csv",
        DocFormat::Json => "application/json",
        DocFormat::Md => "text/markdown",
        DocFormat::Html => "text/html",
        DocFormat::Xlsx => "application/vnd.openxmlformats-officedocument.spreadsheetml.sheet",
        DocFormat::Xls => "application/vnd.ms-excel",
        DocFormat::Xlsm => "application/vnd.ms-excel.sheet.macroenabled.12",
        DocFormat::Ods => "application/vnd.oasis.opendocument.spreadsheet",
        DocFormat::Docx => "application/vnd.openxmlformats-officedocument.wordprocessingml.document",
        DocFormat::Rtf => "application/rtf",
        DocFormat::Pptx => "application/vnd.openxmlformats-officedocument.presentationml.presentation",
    }
}

// ── Rendering policy ─────────────────────────────────────────────────

/// Whether a direct text conversion renders through the web view (to PDF from
/// HTML or Markdown; names compared exactly).
pub open spec fn direct_webview_spec(from: Seq<char>, to: Seq<char>) -> bool {
    to == "pdf"@ && (from == "html"@ || from == "markdown"@ || from == "md"@)
}

/// Whether a file conversion renders through the web view (to PDF from HTML or
/// Markdown; extensions compared ignoring ASCII case).
pub open spec fn file_webview_spec(from: Seq<char>, to: Seq<char>) -> bool {
    ascii_lower_seq(to) == "pdf"@ && {
        let f = ascii_lower_seq(from);
        f == "html"@ || f == "htm"@ || f == "markdown"@ || f == "md"@
    }
}

/// Whether a direct text conversion uses the web view renderer.
pub fn direct_render_uses_webview(from: &str, to: &str) -> (r: bool)
    ensures
        r == direct_webview_spec(from@, to@),
{
    str_eq(to, "pdf") && (str_eq(from, "html") || str_eq(from, "markdown") || str_eq(from, "md"))
}

/// Whether a file conversion uses the web view renderer.
pub fn file_render_uses_webview(from: &str, to: &str) -> (r: bool)
    ensures
        r == file_webview_spec(from@, to@),
{
    let to_lower = ascii_lower_chars(&str_chars(to));
    let from_lower = ascii_lower_chars(&str_chars(from));
    crate::text::chars_eq_str(&to_lower, "pdf") && (crate::text::chars_eq_str(&from_lower, "html")
        || crate::text::chars_eq_str(&from_lower, "htm") || crate::text::chars_eq_str(
        &from_lower,
        "markdown",
    ) || crate::text::chars_eq_str(&from_lower, "md"))
}

/// The refusal of a rendering that the policy does not allow.
#[derive(Debug, Clone, Copy, PartialEq, Eq, Structural)]
pub enum RenderPolicyError {
    /// PDF rendering through the web view under a network policy that is not
    /// fully unrestricted.
    WebviewPdfNotAllowed,
}

/// Refuses a rendering that uses the web view when web view PDF rendering is
/// not allowed.
pub fn deny_disallowed_webview_pdf(uses_webview: bool, allow_webview_pdf_rendering: bool) -> (r: Result<
    (),
    RenderPolicyError,
>)
    ensures
        r is Err <==> uses_webview && !allow_webview_pdf_rendering,
{
    if uses_webview && !allow_webview_pdf_rendering {
        return Err(RenderPolicyError::WebviewPdfNotAllowed);
    }
    Ok(())
}

/// The format of a rendered file: the override option when given, else the
/// path's extension; the error when that is empty.
pub open spec fn format_for_path_spec(path: Seq<char>, override_format: Option<Seq<char>>, override_field: Seq<char>, kind: Seq<char>) -> Result<Seq<char>, Seq<char>> {
    let format = match override_format {
        Some(f) => f,
        None => match std_path_extension(path) {
            Some(e) => e,
            None => seq![],
        },
    };
    if format.len() == 0 {
        Err("cannot infer "@ + kind + " format from '"@ + path + "' \u{2014} pass {"@ + override_field + "=\"...\"}"@)
    } else {
        Ok(format)
    }
}

/// The format of the file at `path` for `doc.renderFile`-style calls.
pub fn format_for_path(path: &str, override_format: Option<&str>, override_field: &str, kind: &str) -> (r: Result<String, String>)
    ensures
        match format_for_path_spec(
            path@,
            match override_format {
                Some(f) => Some(f@),
                None => None,
            },
            override_field@,
            kind@,
        ) {
            Ok(f) => r matches Ok(s) && s@ == f,
            Err(e) => r matches Err(m) && m@ == e,
        },
{
    let format = match override_format {
        Some(f) => str_chars(f),
        None => match path_extension(path) {
            Some(e) => str_chars(e),
            None => Vec::new(),
        },
    };
    if format.len() == 0 {
        let mut m = str_chars("cannot infer ");
        push_str_chars(&mut m, kind);
        push_str_chars(&mut m, " format from '");
        push_str_chars(&mut m, path);
        push_str_chars(&mut m, "' \u{2014} pass {");
        push_str_chars(&mut m, override_field);
        push_str_chars(&mut m, "=\"...\"}");
        Err(string_of(&m))
    } else {
        Ok(string_of(&format))
    }
}

// ── PDF backend errors ───────────────────────────────────────────────

/// The legacy prefixes of PDF backend errors and their `doc.`-qualified forms.
pub open spec fn pdf_error_prefixes() -> Seq<(Seq<char>, Seq<char>)> {
    seq![
        ("pdfInfo:"@, "doc.pdfInfo:"@),
        ("formFields:"@, "doc.formFields:"@),
        ("fillForm:"@, "doc.fillForm:"@),
        ("mergePdf:"@, "doc.mergePdf:"@),
        ("splitPdf:"@, "doc.splitPdf:"@),
        ("editPages:"@, "doc.editPages:"@),
        ("addAnnotation:"@, "doc.addAnnotation:"@),
        ("watermark:"@, "doc.watermark:"@),
    ]
}

/// The error text with the first matching legacy prefix replaced (from index `i` on).
pub open spec fn canonical_error_from(e: Seq<char>, i: int) -> Seq<char>
    decreases 8 - i,
{
    if i < 0 || i >= 8 {
        e
    } else if has_prefix(e, pdf_error_prefixes()[i].0) {
        pdf_error_prefixes()[i].1 + e.skip(pdf_error_prefixes()[i].0.len() as int)
    } else {
        canonical_error_from(e, i + 1)
    }
}

/// Qualifies a PDF backend error with the `doc.` namespace when it starts with
/// one of the legacy operation prefixes.
pub fn canonical_pdf_backend_error(error: String) -> (r: String)
    ensures
        r@ == canonical_error_from(error@, 0),
{
    let legacy: [&str; 8] = [
        "pdfInfo:",
        "formFields:",
        "fillForm:",
        "mergePdf:",
        "splitPdf:",
        "editPages:",
        "addAnnotation:",
        "watermark:",
    ];
    let canonical: [&str; 8] = [
        "doc.pdfInfo:",
        "doc.formFields:",
        "doc.fillForm:",
        "doc.mergePdf:",
        "doc.splitPdf:",
        "doc.editPages:",
        "doc.addAnnotation:",
        "doc.watermark:",
    ];
    assert(forall|k: int|
        0 <= k < 8 ==> (#[trigger] legacy@[k])@ == pdf_error_prefixes()[k].0 && canonical@[k]@
            == pdf_error_prefixes()[k].1);
    let v = str_chars(error.as_str());
    let mut i: usize = 0;
    while i < 8
        invariant
            i <= 8,
            v@ == error@,
            forall|k: int|
                0 <= k < 8 ==> (#[trigger] legacy@[k])@ == pdf_error_prefixes()[k].0
                    && canonical@[k]@ == pdf_error_prefixes()[k].1,
            canonical_error_from(error@, 0) == canonical_error_from(error@, i as int),
        decreases 8 - i,
    {
        let p = str_chars(legacy[i]);
        if starts_with_chars(&v, &p) {
            let mut out = str_chars(canonical[i]);
            let rest = slice_chars(&v, p.len(), v.len());
            assert(rest@ == v@.skip(p@.len() as int));
            push_all(&mut out, &rest);
            return string_of(&out);
        }
        i += 1;
    }
    error
}

proof fn lemma_canonical_shape(e: Seq<char>, i: int)
    requires
        0 <= i <= 8,
    ensures
        (canonical_error_from(e, i) == e && forall|k: int| i <= k < 8 ==> !has_prefix(e, #[trigger] pdf_error_prefixes()[k].0))
            || (canonical_error_from(e, i).len() > 0 && canonical_error_from(e, i)[0] == 'd'),
    decreases 8 - i,
{
    reveal_strlit("doc.pdfInfo:");
    reveal_strlit("doc.formFields:");
    reveal_strlit("doc.fillForm:");
    reveal_strlit("doc.mergePdf:");
    reveal_strlit("doc.splitPdf:");
    reveal_strlit("doc.editPages:");
    reveal_strlit("doc.addAnnotation:");
    reveal_strlit("doc.watermark:");
    if i < 8 {
        if has_prefix(e, pdf_error_prefixes()[i].0) {
            let r = pdf_error_prefixes()[i].1 + e.skip(pdf_error_prefixes()[i].0.len() as int);
            assert(r[0] == pdf_error_prefixes()[i].1[0]);
        } else {
            lemma_canonical_shape(e, i + 1);
        }
    }
}

proof fn lemma_canonical_unchanged(e: Seq<char>, i: int)
    requires
        0 <= i <= 8,
        forall|k: int| i <= k < 8 ==> !has_prefix(e, #[trigger] pdf_error_prefixes()[k].0),
    ensures
        canonical_error_from(e, i) == e,
    decreases 8 - i,
{
    if i < 8 {
        assert(!has_prefix(e, pdf_error_prefixes()[i].0));
        lemma_canonical_unchanged(e, i + 1);
    }
}

/// Qualifying a PDF backend error twice changes nothing more than qualifying
/// it once: a qualified error starts with `doc.`, which no legacy prefix does.
pub proof fn law_canonical_error_idempotent(e: Seq<char>)
    ensures
        canonical_error_from(canonical_error_from(e, 0), 0) == canonical_error_from(e, 0),
{
    reveal_strlit("pdfInfo:");
    reveal_strlit("formFields:");
    reveal_strlit("fillForm:");
    reveal_strlit("mergePdf:");
    reveal_strlit("splitPdf:");
    reveal_strlit("editPages:");
    reveal_strlit("addAnnotation:");
    reveal_strlit("watermark:");
    lemma_canonical_shape(e, 0);
    let r = canonical_error_from(e, 0);
    assert forall|k: int| 0 <= k < 8 implies !has_prefix(r, #[trigger] pdf_error_prefixes()[k].0) by {
        if r.len() > 0 && r[0] == 'd' {
            assert(pdf_error_prefixes()[k].0[0] != 'd');
            if has_prefix(r, pdf_error_prefixes()[k].0) {
                assert(r.take(pdf_error_prefixes()[k].0.len() as int)[0] == r[0]);
            }
        } else {
            assert(r == e);
        }
    }
    lemma_canonical_unchanged(r, 0);
}

// ── PDF colors ───────────────────────────────────────────────────────

/// The value of an ASCII hexadecimal digit byte.
pub open spec fn hex_digit(b: u8) -> Option<nat> {
    if 48 <= b <= 57 {
        Some((b - 48) as nat)
    } else if 97 <= b <= 102 {
        Some((b - 87) as nat)
    } else if 65 <= b <= 70 {
        Some((b - 55) as nat)
    } else {
        None
    }
}

/// The value of a color component written as two hexadecimal digits
/// (`0-9`, `a-f`, `A-F`); `None` for anything else.
pub open spec fn hex_pair(b0: u8, b1: u8) -> Option<u8> {
    match (hex_digit(b0), hex_digit(b1)) {
        (Some(h), Some(l)) => Some((h * 16 + l) as u8),
        _ => None,
    }
}

/// The color text without one leading `#`.
pub open spec fn strip_hash(s: Seq<char>) -> Seq<char> {
    if s.len() > 0 && s[0] == '#' {
        s.drop_first()
    } else {
        s
    }
}

/// The error for a color text of the wrong length.
pub open spec fn color_format_error(stripped: Seq<char>) -> Seq<char> {
    "invalid color format '"@ + stripped + "' (expected #RRGGBB or #RRGGBBAA)"@
}

/// The error for a color component that is not hexadecimal.
pub open spec fn color_value_error(stripped: Seq<char>) -> Seq<char> {
    "invalid color: #"@ + stripped
}

/// What `parse_hex_color` returns for a color text `s`.
pub open spec fn hex_color_spec(s: Seq<char>) -> Result<(u8, u8, u8, u8), Seq<char>> {
    let t = strip_hash(s);
    let b = encode_utf8(t);
    if b.len() != 6 && b.len() != 8 {
        Err(color_format_error(t))
    } else {
        match hex_pair(b[0], b[1]) {
            None => Err(color_value_error(t)),
            Some(r) => match hex_pair(b[2], b[3]) {
                None => Err(color_value_error(t)),
                Some(g) => match hex_pair(b[4], b[5]) {
                    None => Err(color_value_error(t)),
                    Some(bl) => if b.len() == 6 {
                        Ok((r, g, bl, 255u8))
                    } else {
                        match hex_pair(b[6], b[7]) {
                            None => Err(color_value_error(t)),
                            Some(a) => Ok((r, g, bl, a)),
                        }
                    },
                },
            },
        }
    }
}

fn hex_digit_exec(b: u8) -> (r: Option<u8>)
    ensures
        match hex_digit(b) {
            Some(d) => r == Some(d as u8),
            None => r is None,
        },
{
    if 48 <= b && b <= 57 {
        Some(b - 48)
    } else if 97 <= b && b <= 102 {
        Some(b - 87)
    } else if 65 <= b && b <= 70 {
        Some(b - 55)
    } else {
        None
    }
}

fn parse_hex_byte(b: &[u8], start: usize, stripped: &Vec<char>) -> (r: Result<u8, String>)
    requires
        start + 2 <= b.len(),
    ensures
        match hex_pair(b@[start as int], b@[start + 1]) {
            Some(v) => r == Ok::<u8, String>(v),
            None => r matches Err(m) && m@ == color_value_error(stripped@),
        },
{
    let b0 = b[start];
    let b1 = b[start + 1];
    let v = match (hex_digit_exec(b0), hex_digit_exec(b1)) {
        (Some(h), Some(l)) => Some(h * 16 + l),
        _ => None,
    };
    match v {
        Some(x) => Ok(x),
        None => {
            let mut m = str_chars("invalid color: #");
            push_all(&mut m, stripped);
            Err(string_of(&m))
        },
    }
}

/// Parse a hex color string like "#RRGGBB" or "#RRGGBBAA" into (r, g, b, a):
/// every component is two hexadecimal digits, anything else is an error.
pub fn parse_hex_color(s: &str) -> (r: Result<(u8, u8, u8, u8), String>)
    ensures
        match hex_color_spec(s@) {
            Ok(c) => r == Ok::<(u8, u8, u8, u8), String>(c),
            Err(e) => r matches Err(m) && m@ == e,
        },
{
    let v = str_chars(s);
    let stripped = if v.len() > 0 && v[0] == '#' {
        slice_chars(&v, 1, v.len())
    } else {
        v
    };
    assert(stripped@ == strip_hash(s@));
    let t = string_of(&stripped);
    let b = t.as_str().as_bytes();
    assert(b@ == encode_utf8(stripped@));
    if b.len() != 6 && b.len() != 8 {
        let mut m = str_chars("invalid color format '");
        push_all(&mut m, &stripped);
        push_str_chars(&mut m, "' (expected #RRGGBB or #RRGGBBAA)");
        return Err(string_of(&m));
    }
    let red = parse_hex_byte(b, 0, &stripped)?;
    let green = parse_hex_byte(b, 2, &stripped)?;
    let blue = parse_hex_byte(b, 4, &stripped)?;
    if b.len() == 6 {
        Ok((red, green, blue, 255))
    } else {
        let alpha = parse_hex_byte(b, 6, &stripped)?;
        Ok((red, green, blue, alpha))
    }
}

// ── Vision cache keys ────────────────────────────────────────────────

/// The SHA-256 digest of a byte sequence.
pub uninterp spec fn sha256(data: Seq<u8>) -> Seq<u8>;

/// `Sha256::digest` from the `sha2` crate; the 32-byte digest is named by `sha256`.
#[verifier::external_body]
pub(crate) fn sha256_digest(data: &[u8]) -> (r: Vec<u8>)
    ensures
        r@ == sha256(data@),
        r@.len() == 32,
{
    <sha2::Sha256 as sha2::Digest>::digest(data).to_vec()
}

/// The lowercase hexadecimal character of a nibble.
pub open spec fn hex_char(n: nat) -> char {
    if n < 10 {
        (n + 48) as char
    } else {
        (n + 87) as char
    }
}

/// Lowercase hexadecimal text of a byte sequence, two characters per byte.
pub open spec fn hex_lower(data: Seq<u8>) -> Seq<char>
    decreases data.len(),
{
    if data.len() == 0 {
        seq![]
    } else {
        hex_lower(data.drop_last()).push(hex_char((data.last() / 16) as nat)).push(
            hex_char((data.last() % 16) as nat),
        )
    }
}

/// `hex::encode` from the `hex` crate: lowercase hexadecimal, high nibble first.
#[verifier::external_body]
pub(crate) fn hex_encode(data: &[u8]) -> (r: String)
    ensures
        r@ == hex_lower(data@),
{
    hex::encode(data)
}

/// The cache key of a vision read: `{sha256(file)}-{sha256(query)}`, both in
/// lowercase hexadecimal.
pub fn cache_key(file_bytes: &[u8], query: &str) -> (r: String)
    ensures
        r@ == hex_lower(sha256(file_bytes@)) + "-"@ + hex_lower(sha256(query.spec_bytes())),
{
    let file_hash = hex_encode(sha256_digest(file_bytes).as_slice());
    let query_hash = hex_encode(sha256_digest(query.as_bytes()).as_slice());
    let mut out = str_chars(file_hash.as_str());
    push_str_chars(&mut out, "-");
    push_str_chars(&mut out, query_hash.as_str());
    string_of(&out)
}

// ── Resolving a deferred read ────────────────────────────────────────

/// What to do next for a deferred read, once the cache has been looked at.
#[derive(Debug, Clone, PartialEq, Eq)]
pub enum ReadStep {
    /// The cache held the text: the read is done with it.
    Cached(String),
    /// Ask the vision callback; its answer, text or error, is final.
    AskCallback,
    /// There is no callback: extract the text locally.
    ExtractLocally,
}

/// The first decision of a deferred read: a cached text wins, then the
/// callback where there is one, else local extraction. `cached` is what the
/// cache held under the read's key (`None` where there is no cache).
pub fn pending_read_step(cached: Option<String>, has_callback: bool) -> (r: ReadStep)
    ensures
        match cached {
            Some(t) => r == ReadStep::Cached(t),
            None => r == (if has_callback { ReadStep::AskCallback } else { ReadStep::ExtractLocally }),
        },
{
    match cached {
        Some(t) => ReadStep::Cached(t),
        None => if has_callback {
            ReadStep::AskCallback
        } else {
            ReadStep::ExtractLocally
        },
    }
}

/// What becomes of the callback's answer: it is the read's result as it
/// stands (an error has no fallback), and a text is also to be written to
/// the cache where there is one. Returns the result and whether to cache it.
pub fn callback_outcome(reply: Result<String, String>, has_cache: bool) -> (r: (Result<String, String>, bool))
    ensures
        r.0 == reply,
        r.1 == (has_cache && reply is Ok),
{
    let store = has_cache && reply.is_ok();
    (reply, store)
}

// ── Data types of the PDF operations ─────────────────────────────────

/// Information about a single form field in a PDF.
#[derive(Debug, Clone)]
pub struct FormFieldInfo {
    pub name: String,
    pub field_type: String,
    pub value: String,
    pub read_only: bool,
}

/// Edit operations on the pages of a PDF (page numbers 0-indexed).
#[derive(Debug, Clone)]
pub enum PageOperation {
    /// Delete pages.
    Delete(Vec<u16>),
    /// Rotate pages: (page, degrees), degrees one of 0/90/180/270.
    Rotate(Vec<(u16, u16)>),
    /// Reorder: the new order as page indices.
    Reorder(Vec<u16>),
}

/// Annotation type supported by `doc.addAnnotation()`.
#[derive(Debug, Clone, Copy, PartialEq, Eq)]
pub enum AnnotationType {
    /// Sticky note icon at a point.
    Text,
    /// Free-form text directly on the page.
    FreeText,
    /// Highlight markup over a rectangular area.
    Highlight,
    /// Underline markup over a rectangular area.
    Underline,
    /// Strikeout markup over a rectangular area.
    Strikeout,
    /// Rectangle outline.
    Square,
    /// Rubber stamp.
    Stamp,
}

} // verus!
