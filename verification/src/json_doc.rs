//! Parsed JSON documents and the values at paths into them, read with the
//! `serde_json` crate.

use vstd::prelude::*;
use crate::text::{str_chars, string_of};

verus! {

/// A step into a JSON value: an object member or an array element.
pub enum PathStep {
    Key(String),
    Index(usize),
}

/// What a step names.
pub enum StepView {
    Key(Seq<char>),
    Index(nat),
}

impl View for PathStep {
    type V = StepView;

    open spec fn view(&self) -> StepView {
        match self {
            PathStep::Key(k) => StepView::Key(k@),
            PathStep::Index(i) => StepView::Index(*i as nat),
        }
    }
}

/// The steps of a path.
pub open spec fn path_view(p: Seq<PathStep>) -> Seq<StepView> {
    p.map_values(|s: PathStep| s@)
}

/// The message of `serde_json`'s error for a text that is not JSON, or `None`
/// for JSON.
pub uninterp spec fn json_error(text: Seq<char>) -> Option<Seq<char>>;

/// Whether the value parsed from a JSON text has a value at the path (each
/// step taken as `Value::get` takes it).
pub uninterp spec fn json_has_value_at(text: Seq<char>, path: Seq<StepView>) -> bool;

/// The string at the path of the value parsed from a JSON text, if there is
/// one there.
pub uninterp spec fn json_string_at(text: Seq<char>, path: Seq<StepView>) -> Option<Seq<char>>;

/// The length of the array at the path of the value parsed from a JSON text,
/// if there is an array there.
pub uninterp spec fn json_array_len_at(text: Seq<char>, path: Seq<StepView>) -> Option<nat>;

/// The boolean at the path of the value parsed from a JSON text, if there is
/// one there.
pub uninterp spec fn json_bool_at(text: Seq<char>, path: Seq<StepView>) -> Option<bool>;

#[verifier::external_type_specification]
#[verifier::external_body]
pub struct ExJsonValue(serde_json::Value);

/// A parsed JSON document. It is made only by `parse_json`, so `value` is
/// the value parsed from `text`.
pub struct JsonDoc {
    text: String,
    value: serde_json::Value,
}

impl JsonDoc {
    /// The text the document was parsed from.
    pub closed spec fn text_view(&self) -> Seq<char> {
        self.text@
    }
}

/// `serde_json::from_str` into a `Value` from the `serde_json` crate: the
/// value, or the message of the error, named by `json_error`.
#[verifier::external_body]
fn json_from_str(text: &str) -> (r: Result<serde_json::Value, String>)
    ensures
        match json_error(text@) {
            None => r is Ok,
            Some(e) => r matches Err(m) && m@ == e,
        },
{
    serde_json::from_str(text).map_err(|e| e.to_string())
}

/// `Value::get` along the path and `Value::as_str` from `serde_json`, on the
/// document's value; named by `json_string_at`.
#[verifier::external_body]
pub(crate) fn doc_string_at(doc: &JsonDoc, path: &Vec<PathStep>) -> (r: Option<String>)
    ensures
        r matches Some(s) ==> json_string_at(doc.text_view(), path_view(path@)) == Some(s@),
        r is None ==> json_string_at(doc.text_view(), path_view(path@)) is None,
{
    path.iter().try_fold(&doc.value, |cur, step| match step {
        PathStep::Key(k) => cur.get(k.as_str()),
        PathStep::Index(i) => cur.get(*i),
    }).and_then(|v| v.as_str()).map(|s| s.to_string())
}

/// `Value::get` along the path and `Value::as_array` (its length) from
/// `serde_json`, on the document's value; named by `json_array_len_at`.
#[verifier::external_body]
pub(crate) fn doc_array_len_at(doc: &JsonDoc, path: &Vec<PathStep>) -> (r: Option<usize>)
    ensures
        r matches Some(n) ==> json_array_len_at(doc.text_view(), path_view(path@)) == Some(n as nat),
        r is None ==> json_array_len_at(doc.text_view(), path_view(path@)) is None,
{
    path.iter().try_fold(&doc.value, |cur, step| match step {
        PathStep::Key(k) => cur.get(k.as_str()),
        PathStep::Index(i) => cur.get(*i),
    }).and_then(|v| v.as_array()).map(|a| a.len())
}

/// `Value::get` along the path from `serde_json`: whether it reaches a value
/// of the document (`null` included); named by `json_has_value_at`.
#[verifier::external_body]
pub(crate) fn doc_has_value_at(doc: &JsonDoc, path: &Vec<PathStep>) -> (r: bool)
    ensures
        r == json_has_value_at(doc.text_view(), path_view(path@)),
{
    path.iter().try_fold(&doc.value, |cur, step| match step {
        PathStep::Key(k) => cur.get(k.as_str()),
        PathStep::Index(i) => cur.get(*i),
    }).is_some()
}

pub fn key(k: &str) -> (r: PathStep)
    ensures
        r@ == StepView::Key(k@),
{
    PathStep::Key(string_of(&str_chars(k)))
}

/// Two member names.
pub open spec fn keys2(a: Seq<char>, b: Seq<char>) -> Seq<StepView> {
    seq![StepView::Key(a), StepView::Key(b)]
}

pub fn path2(a: &str, b: &str) -> (r: Vec<PathStep>)
    ensures
        path_view(r@) == keys2(a@, b@),
{
    let mut p: Vec<PathStep> = Vec::new();
    p.push(key(a));
    p.push(key(b));
    assert(path_view(p@) =~= keys2(a@, b@));
    p
}

pub fn extend(p: &Vec<PathStep>, s: PathStep) -> (r: Vec<PathStep>)
    ensures
        path_view(r@) == path_view(p@).push(s@),
{
    let mut out: Vec<PathStep> = Vec::new();
    let mut i: usize = 0;
    while i < p.len()
        invariant
            i <= p@.len(),
            path_view(out@) == path_view(p@).take(i as int),
        decreases p.len() - i,
    {
        let step = match &p[i] {
            PathStep::Key(k) => PathStep::Key(string_of(&str_chars(k.as_str()))),
            PathStep::Index(j) => PathStep::Index(*j),
        };
        assert(step@ == p@[i as int]@);
        let ghost before = out@;
        out.push(step);
        assert(path_view(out@) =~= path_view(before).push(p@[i as int]@));
        i += 1;
        assert(path_view(p@).take(i as int) =~= path_view(p@).take(i - 1).push(p@[i - 1]@));
    }
    assert(path_view(p@).take(p@.len() as int) =~= path_view(p@));
    let ghost before = out@;
    let ghost sv = s@;
    out.push(s);
    assert(path_view(out@) =~= path_view(before).push(sv));
    out
}

pub fn one_key(k: &str) -> (r: Vec<PathStep>)
    ensures
        path_view(r@) == seq![StepView::Key(k@)],
{
    let mut v: Vec<PathStep> = Vec::new();
    v.push(key(k));
    assert(path_view(v@) =~= seq![StepView::Key(k@)]);
    v
}

pub fn key_then_first(k: &str) -> (r: Vec<PathStep>)
    ensures
        path_view(r@) == seq![StepView::Key(k@), StepView::Index(0)],
{
    let mut v: Vec<PathStep> = Vec::new();
    v.push(key(k));
    v.push(PathStep::Index(0));
    assert(path_view(v@) =~= seq![StepView::Key(k@), StepView::Index(0)]);
    v
}

/// `Value::get` along the path and `Value::as_bool` from `serde_json`, on the
/// document's value; named by `json_bool_at`.
#[verifier::external_body]
pub(crate) fn doc_bool_at(doc: &JsonDoc, path: &Vec<PathStep>) -> (r: Option<bool>)
    ensures
        r == json_bool_at(doc.text_view(), path_view(path@)),
{
    path.iter().try_fold(&doc.value, |cur, step| match step {
        PathStep::Key(k) => cur.get(k.as_str()),
        PathStep::Index(i) => cur.get(*i),
    }).and_then(|v| v.as_bool())
}

impl JsonDoc {
    /// The document of a JSON text, or the message of `serde_json`'s error.
    pub fn parse(text: &str) -> (r: Result<JsonDoc, String>)
        ensures
            json_error(text@) is None <==> r is Ok,
            r matches Ok(d) ==> d.text_view() == text@,
            r matches Err(e) ==> json_error(text@) == Some(e@),
    {
        match json_from_str(text) {
            Ok(value) => Ok(JsonDoc { text: string_of(&str_chars(text)), value }),
            Err(e) => Err(e),
        }
    }

    /// The text the document was parsed from.
    pub fn text(&self) -> (r: &str)
        ensures
            r@ == self.text_view(),
    {
        self.text.as_str()
    }
}

} // verus!
