//! Text conversions of documents: Markdown to HTML, HTML to plain text, and the
//! text of the elements of one tag in an XML document (DOCX and PPTX bodies).
//!
//! XML is read with quick-xml one event at a time; what the conversions do with
//! the events is verified for every sequence of events the reader may give.

use vstd::prelude::*;
use pulldown_cmark::{Options, Parser};
use quick_xml::events::Event;
use quick_xml::reader::Reader;
use crate::doc_reader::{
    format_of_ext, index_of, index_of_char, is_binary_conversion, render_format_from_ext,
    render_format_spec, split_char, split_chars, strip_state, strip_tags_simple, DocFormat,
};
use crate::text::{
    chars_eq, chars_eq_str, push_all, push_str_chars, str_chars, str_eq, string_of, to_lowercase,
    trim, trim_chars, unicode_lowercase,
};

verus! {

// ── Reading XML ──────────────────────────────────────────────────────

/// One event of quick-xml's reader, with the values the conversions read.
pub enum XmlEvent {
    /// A start tag, with its qualified name.
    Start(String),
    /// An empty element tag, with its qualified name.
    Empty(String),
    /// An end tag, with its qualified name.
    End(String),
    /// Character data, with XML 1.0 line ends.
    Text(String),
    /// Any other event (comments, CDATA, declarations, references).
    Other,
}

/// The reading of a document: its events before the end of the document or
/// the first syntax error, and the message of that error if there is one.
pub type XmlReading = (Seq<XmlEvent>, Option<Seq<char>>);

/// The view of an optional message.
pub open spec fn message_view(m: Option<String>) -> Option<Seq<char>> {
    match m {
        Some(s) => Some(s@),
        None => None,
    }
}

/// What quick-xml's reader gives for `xml`, with its `check_end_names` option
/// set as given: the events before the end of the document or the first
/// error, and that error's message.
pub uninterp spec fn xml_events(xml: Seq<char>, check_end_names: bool) -> XmlReading;

/// `Reader::from_str` and repeated `Reader::read_event` from quick-xml, with the
/// reader's `check_end_names` option set: the events of the document up to its
/// end or its first error, named by `xml_events`.
#[verifier::external_body]
fn read_xml_events(xml: &str, check_end_names: bool) -> (r: (Vec<XmlEvent>, Option<String>))
    ensures
        (r.0@, message_view(r.1)) == xml_events(xml@, check_end_names),
{
    let mut reader = Reader::from_str(xml);
    reader.config_mut().check_end_names = check_end_names;
    let mut events = Vec::new();
    loop {
        let event = match reader.read_event() {
            Ok(Event::Start(e)) => XmlEvent::Start(e.name().0.to_string()),
            Ok(Event::Empty(e)) => XmlEvent::Empty(e.name().0.to_string()),
            Ok(Event::End(e)) => XmlEvent::End(e.name().0.to_string()),
            Ok(Event::Text(e)) => XmlEvent::Text(e.xml10_content().into_owned()),
            Ok(Event::Eof) => return (events, None),
            Err(e) => return (events, Some(e.to_string())),
            _ => XmlEvent::Other,
        };
        events.push(event);
    }
}

/// The local part of a qualified name: what follows its first `:`.
pub open spec fn local_name(name: Seq<char>) -> Seq<char> {
    match index_of(name, ':') {
        Some(i) => name.skip(i + 1),
        None => name,
    }
}

/// The prefix of a qualified name: what precedes its first `:`.
pub open spec fn name_prefix(name: Seq<char>) -> Option<Seq<char>> {
    match index_of(name, ':') {
        Some(i) => Some(name.take(i)),
        None => None,
    }
}

fn local_name_exec(name: &Vec<char>) -> (r: Vec<char>)
    ensures
        r@ == local_name(name@),
{
    match index_of_char(name, ':') {
        Some(i) => {
            let mut out: Vec<char> = Vec::new();
            let mut k = i + 1;
            while k < name.len()
                invariant
                    i < k <= name.len(),
                    out@ == name@.subrange(i + 1, k as int),
                decreases name.len() - k,
            {
                out.push(name[k]);
                k += 1;
                assert(out@ =~= name@.subrange(i + 1, k as int));
            }
            assert(out@ =~= name@.skip(i + 1));
            out
        },
        None => name.clone(),
    }
}

// ── Text of the elements of one tag ──────────────────────────────────

/// Whether a start tag named `name` opens an element of `tag`: the local names
/// agree (that of `tag` follows its last `:`), and when `tag` has a prefix, the
/// name has the same one.
pub open spec fn opens_tag(name: Seq<char>, tag: Seq<char>) -> bool {
    let parts = split_char(tag, ':');
    &&& local_name(name) == parts.last()
    &&& parts.len() > 1 ==> name_prefix(name) == Some(parts[0])
}

/// The text of the elements of `tag` gathered from the events `evs[i..]`, with
/// `out` gathered so far and `inside` telling whether the last start tag of
/// `tag` has not been closed yet by an end tag.
pub open spec fn tag_text_from(
    evs: Seq<XmlEvent>,
    tag: Seq<char>,
    i: int,
    out: Seq<char>,
    inside: bool,
) -> Seq<char>
    decreases evs.len() - i,
{
    if i < 0 || i >= evs.len() {
        out
    } else {
        match evs[i] {
            XmlEvent::Start(n) => tag_text_from(evs, tag, i + 1, out, inside || opens_tag(n@, tag)),
            XmlEvent::Empty(n) => tag_text_from(evs, tag, i + 1, out, inside || opens_tag(n@, tag)),
            XmlEvent::Text(t) => tag_text_from(
                evs,
                tag,
                i + 1,
                if inside {
                    out + t@
                } else {
                    out
                },
                inside,
            ),
            XmlEvent::End(_) => tag_text_from(evs, tag, i + 1, out, false),
            XmlEvent::Other => tag_text_from(evs, tag, i + 1, out, inside),
        }
    }
}

/// The text of the elements of `tag` in a read document, or the error for its
/// syntax error.
pub open spec fn tag_text(reading: XmlReading, tag: Seq<char>) -> Result<Seq<char>, Seq<char>> {
    match reading.1 {
        Some(m) => Err("XML parse error: "@ + m),
        None => Ok(tag_text_from(reading.0, tag, 0, seq![], false)),
    }
}

/// The views of a string result.
pub open spec fn result_view(r: Result<String, String>) -> Result<Seq<char>, Seq<char>> {
    match r {
        Ok(s) => Ok(s@),
        Err(e) => Err(e@),
    }
}

fn opens_tag_exec(name: &Vec<char>, tag_parts: &Vec<Vec<char>>, tag: Ghost<Seq<char>>) -> (r: bool)
    requires
        tag_parts@.map_values(|p: Vec<char>| p@) == split_char(tag@, ':'),
    ensures
        r == opens_tag(name@, tag@),
{
    let ghost views = tag_parts@.map_values(|p: Vec<char>| p@);
    let local = local_name_exec(name);
    let n = tag_parts.len();
    assert(n > 0) by {
        crate::doc_reader::lemma_split_nonempty(tag@, ':');
    }
    assert(views.last() == tag_parts@[n - 1]@);
    if !chars_eq(&local, &tag_parts[n - 1]) {
        return false;
    }
    if n > 1 {
        assert(views[0] == tag_parts@[0]@);
        match index_of_char(name, ':') {
            Some(i) => {
                let mut prefix: Vec<char> = Vec::new();
                let mut k: usize = 0;
                while k < i
                    invariant
                        k <= i < name.len(),
                        prefix@ == name@.take(k as int),
                    decreases i - k,
                {
                    prefix.push(name[k]);
                    k += 1;
                    assert(prefix@ =~= name@.take(k as int));
                }
                chars_eq(&prefix, &tag_parts[0])
            },
            None => false,
        }
    } else {
        true
    }
}

/// The text of the elements of `tag_name` gathered from the events of a
/// document: the character data inside them, or, when reading stopped at a
/// syntax error, the error.
pub fn collect_tag_text(events: &Vec<XmlEvent>, error: &Option<String>, tag_name: &str) -> (r: Result<
    String,
    String,
>)
    ensures
        result_view(r) == tag_text((events@, message_view(*error)), tag_name@),
{
    match error {
        Some(m) => {
            let mut e = str_chars("XML parse error: ");
            push_str_chars(&mut e, m.as_str());
            return Err(string_of(&e));
        },
        None => {},
    }
    let tag = str_chars(tag_name);
    let parts = split_chars(&tag, ':');
    let mut out: Vec<char> = Vec::new();
    let mut inside = false;
    let mut i: usize = 0;
    while i < events.len()
        invariant
            i <= events.len(),
            tag@ == tag_name@,
            parts@.map_values(|p: Vec<char>| p@) == split_char(tag_name@, ':'),
            tag_text_from(events@, tag_name@, 0, seq![], false) == tag_text_from(
                events@,
                tag_name@,
                i as int,
                out@,
                inside,
            ),
        decreases events.len() - i,
    {
        match &events[i] {
            XmlEvent::Start(n) => {
                let nv = str_chars(n.as_str());
                let opens = opens_tag_exec(&nv, &parts, Ghost(tag_name@));
                inside = inside || opens;
            },
            XmlEvent::Empty(n) => {
                let nv = str_chars(n.as_str());
                let opens = opens_tag_exec(&nv, &parts, Ghost(tag_name@));
                inside = inside || opens;
            },
            XmlEvent::Text(t) => {
                if inside {
                    push_str_chars(&mut out, t.as_str());
                }
            },
            XmlEvent::End(_) => {
                inside = false;
            },
            XmlEvent::Other => {},
        }
        i += 1;
    }
    Ok(string_of(&out))
}

/// The text of the elements of `tag_name` (such as `w:t` or `a:t`) in an XML
/// document, or the error for its first syntax error.
pub fn extract_text_from_xml(xml: &str, tag_name: &str) -> (r: Result<String, String>)
    ensures
        result_view(r) == tag_text(xml_events(xml@, true), tag_name@),
{
    let (events, error) = read_xml_events(xml, true);
    collect_tag_text(&events, &error, tag_name)
}

// ── HTML to plain text ───────────────────────────────────────────────

/// The elements whose content the plain text leaves out.
pub open spec fn is_hidden_tag(l: Seq<char>) -> bool {
    l == "script"@ || l == "style"@
}

/// The elements that start on a new line of the plain text.
pub open spec fn is_block_tag(l: Seq<char>) -> bool {
    l == "br"@ || l == "p"@ || l == "div"@ || l == "h1"@ || l == "h2"@ || l == "h3"@ || l == "h4"@
        || l == "h5"@ || l == "h6"@ || l == "li"@ || l == "tr"@ || l == "blockquote"@
}

/// `out` followed by a line break, unless it is empty or already ends with one.
pub open spec fn new_line(out: Seq<char>) -> Seq<char> {
    if out.len() > 0 && out.last() != '\n' {
        out.push('\n')
    } else {
        out
    }
}

/// The plain text gathered from the events `evs[i..]` of an HTML document, with
/// `out` gathered so far and `depth` open `script`/`style` elements.
pub open spec fn html_text_from(evs: Seq<XmlEvent>, i: int, out: Seq<char>, depth: nat) -> Seq<char>
    decreases evs.len() - i,
{
    if i < 0 || i >= evs.len() {
        out
    } else {
        match evs[i] {
            XmlEvent::Start(n) => {
                let l = local_name(n@);
                if is_hidden_tag(l) {
                    html_text_from(evs, i + 1, out, depth + 1)
                } else if is_block_tag(l) {
                    html_text_from(evs, i + 1, new_line(out), depth)
                } else {
                    html_text_from(evs, i + 1, out, depth)
                }
            },
            XmlEvent::End(n) => html_text_from(
                evs,
                i + 1,
                out,
                if is_hidden_tag(local_name(n@)) && depth > 0 {
                    (depth - 1) as nat
                } else {
                    depth
                },
            ),
            XmlEvent::Text(t) => html_text_from(
                evs,
                i + 1,
                if depth == 0 {
                    out + t@
                } else {
                    out
                },
                depth,
            ),
            XmlEvent::Empty(n) => html_text_from(
                evs,
                i + 1,
                if local_name(n@) == "br"@ {
                    out.push('\n')
                } else {
                    out
                },
                depth,
            ),
            XmlEvent::Other => html_text_from(evs, i + 1, out, depth),
        }
    }
}

/// The plain text of an HTML document given the reading of the document
/// wrapped in a root element: the gathered text, trimmed, or, when reading
/// stopped at a syntax error, the document with its tags stripped.
pub open spec fn html_text_of_events(reading: XmlReading, html: Seq<char>) -> Seq<char> {
    match reading.1 {
        Some(_) => trim(strip_state(html).0),
        None => trim(html_text_from(reading.0, 0, seq![], 0)),
    }
}

fn local_is(name: &String, s: &str) -> (r: bool)
    ensures
        r == (local_name(name@) == s@),
{
    let nv = str_chars(name.as_str());
    let l = local_name_exec(&nv);
    chars_eq_str(&l, s)
}

fn is_block_local(name: &String) -> (r: bool)
    ensures
        r == is_block_tag(local_name(name@)),
{
    local_is(name, "br") || local_is(name, "p") || local_is(name, "div") || local_is(name, "h1")
        || local_is(name, "h2") || local_is(name, "h3") || local_is(name, "h4") || local_is(
        name,
        "h5",
    ) || local_is(name, "h6") || local_is(name, "li") || local_is(name, "tr") || local_is(
        name,
        "blockquote",
    )
}

/// The plain text of an HTML document given the reading of
/// `<root>html</root>`: text outside `script` and `style`, block elements on
/// new lines, trimmed; after a syntax error, the document with its tags
/// stripped.
pub fn html_text_from_events(events: &Vec<XmlEvent>, error: &Option<String>, html: &str) -> (r: String)
    ensures
        r@ == html_text_of_events((events@, message_view(*error)), html@),
{
    if error.is_some() {
        return strip_tags_simple(html);
    }
    let mut out: Vec<char> = Vec::new();
    let mut depth: u64 = 0;
    let mut i: usize = 0;
    while i < events.len()
        invariant
            i <= events.len(),
            depth <= i,
            html_text_from(events@, 0, seq![], 0) == html_text_from(
                events@,
                i as int,
                out@,
                depth as nat,
            ),
        decreases events.len() - i,
    {
        match &events[i] {
            XmlEvent::Start(n) => {
                if local_is(n, "script") || local_is(n, "style") {
                    depth = depth + 1;
                } else if is_block_local(n) {
                    if out.len() > 0 && out[out.len() - 1] != '\n' {
                        out.push('\n');
                    }
                }
            },
            XmlEvent::End(n) => {
                if (local_is(n, "script") || local_is(n, "style")) && depth > 0 {
                    depth = depth - 1;
                }
            },
            XmlEvent::Text(t) => {
                if depth == 0 {
                    push_str_chars(&mut out, t.as_str());
                }
            },
            XmlEvent::Empty(n) => {
                if local_is(n, "br") {
                    out.push('\n');
                }
            },
            XmlEvent::Other => {},
        }
        i += 1;
    }
    string_of(&trim_chars(&out))
}

/// An HTML document wrapped in a root element.
pub open spec fn wrapped_html(html: Seq<char>) -> Seq<char> {
    "<root>"@ + html + "</root>"@
}

/// The plain text of an HTML document: the document is read as XML inside a
/// root element (end tags need not match); see `html_text_from_events`.
pub fn html_to_text(html: &str) -> (r: String)
    ensures
        r@ == html_text_of_events(xml_events(wrapped_html(html@), false), html@),
{
    let mut wrapped = str_chars("<root>");
    push_str_chars(&mut wrapped, html);
    push_str_chars(&mut wrapped, "</root>");
    let w = string_of(&wrapped);
    let (events, error) = read_xml_events(w.as_str(), false);
    html_text_from_events(&events, &error, html)
}

// ── Markdown to HTML ─────────────────────────────────────────────────

/// What pulldown-cmark renders as HTML for a Markdown text, with tables,
/// strikethrough and task lists enabled.
pub uninterp spec fn cmark_html(md: Seq<char>) -> Seq<char>;

/// `pulldown_cmark::html::push_html` from pulldown-cmark over a parser with
/// tables, strikethrough and task lists enabled; its result is named by
/// `cmark_html`.
#[verifier::external_body]
fn cmark_to_html(md: &str) -> (r: String)
    ensures
        r@ == cmark_html(md@),
{
    let mut options = Options::empty();
    options.insert(Options::ENABLE_TABLES);
    options.insert(Options::ENABLE_STRIKETHROUGH);
    options.insert(Options::ENABLE_TASKLISTS);
    let parser = Parser::new_ext(md, options);
    let mut html_output = String::new();
    pulldown_cmark::html::push_html(&mut html_output, parser);
    html_output
}

/// The HTML rendering of a Markdown text (tables, strikethrough and task lists
/// enabled).
pub fn markdown_to_html(md: &str) -> (r: String)
    ensures
        r@ == cmark_html(md@),
{
    cmark_to_html(md)
}

// ── Conversions ──────────────────────────────────────────────────────

/// The error for a conversion that `render_document` does not make.
pub open spec fn unsupported_render(from: Seq<char>, to: Seq<char>) -> Seq<char> {
    "unsupported conversion: "@ + from + " → "@ + to
        + " (supported: markdown→html, html→text, markdown→pdf, html→pdf)"@
}

/// What converting `text` from format `from` to format `to` gives: the HTML of
/// Markdown, the plain text of HTML, or the error for any other pair.
pub open spec fn render_spec(text: Seq<char>, from: Seq<char>, to: Seq<char>) -> Result<Seq<char>, Seq<char>> {
    if (from == "markdown"@ || from == "md"@) && to == "html"@ {
        Ok(cmark_html(text))
    } else if from == "html"@ && (to == "text"@ || to == "txt"@) {
        Ok(html_text_of_events(xml_events(wrapped_html(text), false), text))
    } else {
        Err(unsupported_render(from, to))
    }
}

/// Convert text between formats (text output): Markdown (`markdown` or `md`)
/// to `html`, or `html` to plain text (`text` or `txt`).
pub fn render_document(text: &str, from: &str, to: &str) -> (r: Result<String, String>)
    ensures
        result_view(r) == render_spec(text@, from@, to@),
{
    if (str_eq(from, "markdown") || str_eq(from, "md")) && str_eq(to, "html") {
        Ok(markdown_to_html(text))
    } else if str_eq(from, "html") && (str_eq(to, "text") || str_eq(to, "txt")) {
        Ok(html_to_text(text))
    } else {
        let mut e = str_chars("unsupported conversion: ");
        push_str_chars(&mut e, from);
        push_str_chars(&mut e, " → ");
        push_str_chars(&mut e, to);
        push_str_chars(&mut e, " (supported: markdown→html, html→text, markdown→pdf, html→pdf)");
        Err(string_of(&e))
    }
}


// ── File conversions ─────────────────────────────────────────────────

/// How a file is converted from one extension to another.
pub enum ConversionPlan {
    /// Extract the text of a binary document of this format; the conversion
    /// succeeds with that text when `to_text`, and fails with `error` otherwise.
    Extract { format: DocFormat, to_text: bool, error: String },
    /// Read the input as UTF-8 text and render it between these render formats
    /// (to bytes when `binary`).
    Render { from: String, to: String, binary: bool },
    /// Read the input as a document of this format and write its text.
    Passthrough(DocFormat),
    /// No conversion applies; the error says so.
    Unsupported(String),
}

/// Whether a (lowercase) extension names plain text.
pub open spec fn is_text_ext(e: Seq<char>) -> bool {
    e == "txt"@ || e == "text"@ || e == "log"@
}

/// Whether a format is one whose text is extracted from a binary document.
pub open spec fn is_binary_input(f: DocFormat) -> bool {
    f == DocFormat::Xlsx || f == DocFormat::Xls || f == DocFormat::Xlsm || f == DocFormat::Ods || f
        == DocFormat::Docx || f == DocFormat::Pdf || f == DocFormat::Rtf || f == DocFormat::Pptx
}

/// Whether `p` is the plan that `convert_file` follows for the extensions
/// `from` and `to` (either case; the input format is looked up by
/// `DocFormat::from_ext` on the lowercased extension).
pub open spec fn is_conversion_plan(p: ConversionPlan, from: Seq<char>, to: Seq<char>) -> bool {
    let fl = unicode_lowercase(from);
    let tl = unicode_lowercase(to);
    let input = format_of_ext(unicode_lowercase(fl));
    if input is Some && is_binary_input(input->0) {
        p matches ConversionPlan::Extract { format, to_text, error } && format == input->0 && to_text
            == is_text_ext(tl) && error@ == "unsupported conversion: ."@ + from + " → ."@ + to
            + " (binary formats can only extract to .txt)"@
    } else if render_format_spec(fl) is Some && render_format_spec(tl) is Some {
        p matches ConversionPlan::Render { from: rf, to: rt, binary } && rf@ == render_format_spec(
            fl,
        )->0 && rt@ == render_format_spec(tl)->0 && binary == (render_format_spec(tl)->0 == "pdf"@)
    } else if is_text_ext(tl) && input is Some {
        p == ConversionPlan::Passthrough(input->0)
    } else {
        p matches ConversionPlan::Unsupported(e) && e@ == "unsupported conversion: ."@ + from + " → ."@
            + to
    }
}

fn is_text_ext_exec(e: &str) -> (r: bool)
    ensures
        r == is_text_ext(e@),
{
    str_eq(e, "txt") || str_eq(e, "text") || str_eq(e, "log")
}

/// The plan by which a file is converted from extension `from_ext` to
/// `to_ext` (either case): binary documents are extracted (to text only), text
/// formats are rendered, other documents are passed through to text.
pub fn conversion_plan(from_ext: &str, to_ext: &str) -> (r: ConversionPlan)
    ensures
        is_conversion_plan(r, from_ext@, to_ext@),
{
    let from_lower = to_lowercase(from_ext);
    let to_lower = to_lowercase(to_ext);
    let input_format = DocFormat::from_ext(from_lower.as_str());
    let to_text = is_text_ext_exec(to_lower.as_str());
    match input_format {
        Some(f) => {
            let binary = match f {
                DocFormat::Xlsx | DocFormat::Xls | DocFormat::Xlsm | DocFormat::Ods | DocFormat::Docx
                | DocFormat::Pdf | DocFormat::Rtf | DocFormat::Pptx => true,
                _ => false,
            };
            if binary {
                let mut e = str_chars("unsupported conversion: .");
                push_str_chars(&mut e, from_ext);
                push_str_chars(&mut e, " → .");
                push_str_chars(&mut e, to_ext);
                push_str_chars(&mut e, " (binary formats can only extract to .txt)");
                return ConversionPlan::Extract { format: f, to_text, error: string_of(&e) };
            }
        },
        None => {},
    }
    match (render_format_from_ext(from_lower.as_str()), render_format_from_ext(to_lower.as_str())) {
        (Some(rf), Some(rt)) => {
            let binary = is_binary_conversion(rt);
            return ConversionPlan::Render {
                from: string_of(&str_chars(rf)),
                to: string_of(&str_chars(rt)),
                binary,
            };
        },
        _ => {},
    }
    if to_text {
        match input_format {
            Some(f) => {
                return ConversionPlan::Passthrough(f);
            },
            None => {},
        }
    }
    let mut e = str_chars("unsupported conversion: .");
    push_str_chars(&mut e, from_ext);
    push_str_chars(&mut e, " → .");
    push_str_chars(&mut e, to_ext);
    ConversionPlan::Unsupported(string_of(&e))
}

} // verus!
