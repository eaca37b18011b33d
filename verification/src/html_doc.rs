//! The `html` module: CSS selection over a parsed document, the texts of
//! documents and elements, and the handle's preview.

use vstd::prelude::*;
use crate::text::{push_decimal, push_str_chars, str_chars, str_eq, string_of};

verus! {

/// An element found by a selector: its tag, text, inner and outer HTML and
/// attributes.
pub struct HtmlElement {
    pub tag: String,
    pub text: String,
    pub html: String,
    pub attrs: Vec<(String, String)>,
    pub outer_html: String,
}

/// What an element holds.
pub struct ElementView {
    pub tag: Seq<char>,
    pub text: Seq<char>,
    pub html: Seq<char>,
    pub attrs: Seq<(Seq<char>, Seq<char>)>,
    pub outer_html: Seq<char>,
}

impl View for HtmlElement {
    type V = ElementView;

    open spec fn view(&self) -> ElementView {
        ElementView {
            tag: self.tag@,
            text: self.text@,
            html: self.html@,
            attrs: self.attrs@.map_values(|a: (String, String)| (a.0@, a.1@)),
            outer_html: self.outer_html@,
        }
    }
}

/// Whether the `scraper` crate accepts a CSS selector.
pub uninterp spec fn selector_valid(selector: Seq<char>) -> bool;

/// The `scraper` crate's error for a selector it refuses, as `{:?}` prints it.
pub uninterp spec fn selector_error_text(selector: Seq<char>) -> Seq<char>;

/// The elements of the document parsed from `source` that the selector
/// matches, in document order.
pub uninterp spec fn selected_elements(source: Seq<char>, selector: Seq<char>) -> Seq<ElementView>;

/// The text of the document parsed from `source`: its text nodes joined.
pub uninterp spec fn document_text(source: Seq<char>) -> Seq<char>;

/// The inner HTML of the root element of the document parsed from `source`.
pub uninterp spec fn document_inner_html(source: Seq<char>) -> Seq<char>;

/// The HTML of the root element of the document parsed from `source`.
pub uninterp spec fn document_outer_html(source: Seq<char>) -> Seq<char>;

/// `Html::parse_document`, `Selector::parse` and `Html::select` from the
/// `scraper` crate, each element converted with `value().name()`, `text()`
/// joined, `inner_html()`, `value().attrs()` and `html()`: the elements,
/// named by `selected_elements`, or the selector's error as `{:?}` prints it.
#[verifier::external_body]
fn scraper_select(source: &str, selector: &str) -> (r: Result<Vec<HtmlElement>, String>)
    ensures
        selector_valid(selector@) <==> r is Ok,
        match r {
            Ok(v) => v@.map_values(|e: HtmlElement| e@) == selected_elements(source@, selector@),
            Err(e) => e@ == selector_error_text(selector@),
        },
{
    let sel = scraper::Selector::parse(selector).map_err(|e| format!("{:?}", e))?;
    let doc = scraper::Html::parse_document(source);
    Ok(doc.select(&sel).map(|el| HtmlElement {
        tag: el.value().name().to_string(),
        text: el.text().collect(),
        html: el.inner_html(),
        attrs: el.value().attrs().map(|(n, v)| (n.to_string(), v.to_string())).collect(),
        outer_html: el.html(),
    }).collect())
}

/// `Html::parse_document` and `root_element().text()` (joined) from the
/// `scraper` crate; named by `document_text`.
#[verifier::external_body]
fn scraper_text(source: &str) -> (r: String)
    ensures
        r@ == document_text(source@),
{
    scraper::Html::parse_document(source).root_element().text().collect()
}

/// `Html::parse_document` and `root_element().inner_html()` from the
/// `scraper` crate; named by `document_inner_html`.
#[verifier::external_body]
fn scraper_inner_html(source: &str) -> (r: String)
    ensures
        r@ == document_inner_html(source@),
{
    scraper::Html::parse_document(source).root_element().inner_html()
}

/// `Html::parse_document` and `root_element().html()` from the `scraper`
/// crate; named by `document_outer_html`.
#[verifier::external_body]
fn scraper_outer_html(source: &str) -> (r: String)
    ensures
        r@ == document_outer_html(source@),
{
    scraper::Html::parse_document(source).root_element().html()
}

/// The error of a function given a selector it cannot parse.
pub open spec fn selector_error(fn_name: Seq<char>, selector: Seq<char>) -> Seq<char> {
    fn_name + ": invalid CSS selector '"@ + selector + "': "@ + selector_error_text(selector)
}

fn selector_message(fn_name: &str, selector: &str, e: &String) -> (r: String)
    requires
        e@ == selector_error_text(selector@),
    ensures
        r@ == selector_error(fn_name@, selector@),
{
    let mut m = str_chars(fn_name);
    push_str_chars(&mut m, ": invalid CSS selector '");
    push_str_chars(&mut m, selector);
    push_str_chars(&mut m, "': ");
    push_str_chars(&mut m, e.as_str());
    string_of(&m)
}

/// `html.select`: every element of the document that the selector matches.
pub fn select(source: &str, selector: &str) -> (r: Result<Vec<HtmlElement>, String>)
    ensures
        selector_valid(selector@) <==> r is Ok,
        match r {
            Ok(v) => v@.map_values(|e: HtmlElement| e@) == selected_elements(source@, selector@),
            Err(e) => e@ == selector_error("html.select"@, selector@),
        },
{
    match scraper_select(source, selector) {
        Ok(v) => Ok(v),
        Err(e) => Err(selector_message("html.select", selector, &e)),
    }
}

/// `html.select_one`: the first element of the document that the selector
/// matches, if any.
pub fn select_one(source: &str, selector: &str) -> (r: Result<Option<HtmlElement>, String>)
    ensures
        selector_valid(selector@) <==> r is Ok,
        match r {
            Ok(Some(e)) => selected_elements(source@, selector@).len() > 0 && e@ == selected_elements(
                source@,
                selector@,
            )[0],
            Ok(None) => selected_elements(source@, selector@).len() == 0,
            Err(e) => e@ == selector_error("html.select_one"@, selector@),
        },
{
    match scraper_select(source, selector) {
        Ok(mut v) => {
            let ghost all = v@.map_values(|e: HtmlElement| e@);
            if v.len() == 0 {
                Ok(None)
            } else {
                let first = v.remove(0);
                assert(first@ == all[0]);
                Ok(Some(first))
            }
        },
        Err(e) => Err(selector_message("html.select_one", selector, &e)),
    }
}

/// What the `html` functions take: a document handle (its source), an
/// element found by a selector, or an HTML string.
pub enum HtmlValue {
    Document(String),
    Element(HtmlElement),
    Source(String),
}

/// `html.text`: the text of a document or HTML string, or an element's text.
pub fn text_of(v: &HtmlValue) -> (r: String)
    ensures
        r@ == match v {
            HtmlValue::Document(s) => document_text(s@),
            HtmlValue::Element(e) => e.text@,
            HtmlValue::Source(s) => document_text(s@),
        },
{
    match v {
        HtmlValue::Document(s) => scraper_text(s.as_str()),
        HtmlValue::Element(e) => string_of(&str_chars(e.text.as_str())),
        HtmlValue::Source(s) => scraper_text(s.as_str()),
    }
}

/// `html.inner_html`: the inner HTML of the root element of a document or
/// HTML string, or an element's inner HTML.
pub fn inner_html_of(v: &HtmlValue) -> (r: String)
    ensures
        r@ == match v {
            HtmlValue::Document(s) => document_inner_html(s@),
            HtmlValue::Element(e) => e.html@,
            HtmlValue::Source(s) => document_inner_html(s@),
        },
{
    match v {
        HtmlValue::Document(s) => scraper_inner_html(s.as_str()),
        HtmlValue::Element(e) => string_of(&str_chars(e.html.as_str())),
        HtmlValue::Source(s) => scraper_inner_html(s.as_str()),
    }
}

/// `html.outer_html`: the HTML of the root element of a document or HTML
/// string, or an element's outer HTML.
pub fn outer_html_of(v: &HtmlValue) -> (r: String)
    ensures
        r@ == match v {
            HtmlValue::Document(s) => document_outer_html(s@),
            HtmlValue::Element(e) => e.outer_html@,
            HtmlValue::Source(s) => document_outer_html(s@),
        },
{
    match v {
        HtmlValue::Document(s) => scraper_outer_html(s.as_str()),
        HtmlValue::Element(e) => string_of(&str_chars(e.outer_html.as_str())),
        HtmlValue::Source(s) => scraper_outer_html(s.as_str()),
    }
}

/// The value of the first attribute named `name`, if any.
pub open spec fn attr_spec(attrs: Seq<(Seq<char>, Seq<char>)>, name: Seq<char>) -> Option<Seq<char>>
    decreases attrs.len(),
{
    if attrs.len() == 0 {
        None
    } else if attrs[0].0 == name {
        Some(attrs[0].1)
    } else {
        attr_spec(attrs.drop_first(), name)
    }
}

/// `html.attr`: the value of an element's attribute, if it has it.
pub fn attr(element: &HtmlElement, name: &str) -> (r: Option<String>)
    ensures
        match attr_spec(element@.attrs, name@) {
            Some(v) => r matches Some(s) && s@ == v,
            None => r is None,
        },
{
    let ghost all = element@.attrs;
    let mut i: usize = 0;
    assert(all.skip(0) =~= all);
    while i < element.attrs.len()
        invariant
            i <= element.attrs@.len(),
            all == element.attrs@.map_values(|a: (String, String)| (a.0@, a.1@)),
            attr_spec(all, name@) == attr_spec(all.skip(i as int), name@),
        decreases element.attrs.len() - i,
    {
        assert(all.skip(i as int).drop_first() =~= all.skip(i + 1));
        assert(all.skip(i as int)[0] == all[i as int]);
        if str_eq(element.attrs[i].0.as_str(), name) {
            return Some(string_of(&str_chars(element.attrs[i].1.as_str())));
        }
        i += 1;
    }
    None
}

/// The first `n` characters of a text (all of it when shorter).
pub open spec fn first_chars(s: Seq<char>, n: nat) -> Seq<char> {
    if s.len() <= n {
        s
    } else {
        s.take(n as int)
    }
}

/// How a document handle prints: the source's length in bytes and the start
/// of its text.
pub open spec fn preview_spec(source_len: nat, text: Seq<char>) -> Seq<char> {
    "HtmlDocument("@ + crate::text::decimal(source_len) + " chars, \""@ + first_chars(text, 80) + "...\")"@
}

/// The printed form of the handle that `html.parse` returns for a source.
pub fn document_preview(source: &str) -> (r: String)
    ensures
        r@ == preview_spec(vstd::utf8::encode_utf8(source@).len(), document_text(source@)),
{
    let text = str_chars(scraper_text(source).as_str());
    let mut out = str_chars("HtmlDocument(");
    let byte_len = source.as_bytes().len();
    push_decimal(&mut out, byte_len as u64);
    push_str_chars(&mut out, " chars, \"");
    let n: usize = if text.len() < 80 {
        text.len()
    } else {
        80
    };
    let mut i: usize = 0;
    let ghost before = out@;
    while i < n
        invariant
            i <= n <= text@.len(),
            out@ == before + text@.take(i as int),
        decreases n - i,
    {
        out.push(text[i]);
        i += 1;
        assert(out@ =~= before + text@.take(i as int));
    }
    assert(text@.take(n as int) =~= first_chars(text@, 80));
    push_str_chars(&mut out, "...\")");
    assert(out@ =~= preview_spec(vstd::utf8::encode_utf8(source@).len(), document_text(source@)));
    string_of(&out)
}

} // verus!
