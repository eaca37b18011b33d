//! The decisions of the PDF operations that PDFium carries out: how the texts
//! of the pages make the text of a document, which pages a split, a deletion,
//! a rotation or a reordering touches, what a form field reads as, what filling
//! a form does with each widget, and how an annotation is made.

use vstd::prelude::*;
use crate::doc::{AnnotationType, FormFieldInfo};
use crate::doc_reader::{page_range_spec, parse_page_range};
use crate::text::{decimal, push_decimal, push_str_chars, str_chars, str_eq, string_of};

verus! {

// ── Text of a document ───────────────────────────────────────────────

/// What PDFium gave for one page of a document.
pub enum PageText {
    /// The text of the page.
    Text(String),
    /// Getting the page failed with this error.
    PageFailed(String),
    /// Extracting the page's text failed with this error.
    TextFailed(String),
}

/// The text of a document from what PDFium gave for its pages `pages[i..]`,
/// after `out`: the non-empty texts of the pages one per line, or the error
/// of the first page that failed (pages counted from 0).
pub open spec fn pages_text_spec(pages: Seq<PageText>, i: int, out: Seq<char>) -> Result<Seq<char>, Seq<char>>
    decreases pages.len() - i,
{
    if i < 0 || i >= pages.len() {
        Ok(out)
    } else {
        match pages[i] {
            PageText::PageFailed(e) => Err("cannot read page "@ + decimal(i as nat) + ": "@ + e@),
            PageText::TextFailed(e) => Err(
                "cannot extract text from page "@ + decimal(i as nat) + ": "@ + e@,
            ),
            PageText::Text(t) => pages_text_spec(
                pages,
                i + 1,
                if t@.len() == 0 {
                    out
                } else if out.len() == 0 {
                    t@
                } else {
                    out.push('\n') + t@
                },
            ),
        }
    }
}

/// The text of a PDF document from what PDFium gave: the error of loading it,
/// or the pages' texts joined as `pages_text_spec` says.
pub fn pdf_text(reading: &Result<Vec<PageText>, String>) -> (r: Result<String, String>)
    ensures
        match reading {
            Err(e) => r matches Err(m) && m@ == "cannot load PDF: "@ + e@,
            Ok(pages) => match pages_text_spec(pages@, 0, seq![]) {
                Ok(t) => r matches Ok(s) && s@ == t,
                Err(e) => r matches Err(m) && m@ == e,
            },
        },
{
    match reading {
        Err(e) => {
            let mut m = str_chars("cannot load PDF: ");
            push_str_chars(&mut m, e.as_str());
            Err(string_of(&m))
        },
        Ok(pages) => pages_text(pages),
    }
}

/// The text of a document from what PDFium gave for its pages; see
/// `pages_text_spec`.
pub fn pages_text(pages: &Vec<PageText>) -> (r: Result<String, String>)
    ensures
        match pages_text_spec(pages@, 0, seq![]) {
            Ok(t) => r matches Ok(s) && s@ == t,
            Err(e) => r matches Err(m) && m@ == e,
        },
{
    let mut out: Vec<char> = Vec::new();
    let mut i: usize = 0;
    while i < pages.len()
        invariant
            i <= pages.len(),
            pages_text_spec(pages@, 0, seq![]) == pages_text_spec(pages@, i as int, out@),
        decreases pages.len() - i,
    {
        match &pages[i] {
            PageText::PageFailed(e) => {
                let mut m = str_chars("cannot read page ");
                push_decimal(&mut m, i as u64);
                push_str_chars(&mut m, ": ");
                push_str_chars(&mut m, e.as_str());
                return Err(string_of(&m));
            },
            PageText::TextFailed(e) => {
                let mut m = str_chars("cannot extract text from page ");
                push_decimal(&mut m, i as u64);
                push_str_chars(&mut m, ": ");
                push_str_chars(&mut m, e.as_str());
                return Err(string_of(&m));
            },
            PageText::Text(t) => {
                if !t.as_str().is_empty() {
                    if out.len() > 0 {
                        out.push('\n');
                    }
                    push_str_chars(&mut out, t.as_str());
                }
            },
        }
        i += 1;
    }
    Ok(string_of(&out))
}

// ── Merging and splitting ────────────────────────────────────────────

/// A merge needs at least one PDF.
pub fn check_merge_inputs(count: usize) -> (r: Result<(), String>)
    ensures
        count > 0 <==> r is Ok,
        r matches Err(e) ==> e@ == "mergePdf: 'paths' must contain at least one PDF"@,
{
    if count == 0 {
        Err(string_of(&str_chars("mergePdf: 'paths' must contain at least one PDF")))
    } else {
        Ok(())
    }
}

/// A split needs at least one range.
pub fn check_split_ranges(count: usize) -> (r: Result<(), String>)
    ensures
        count > 0 <==> r is Ok,
        r matches Err(e) ==> e@ == "splitPdf: 'ranges' must contain at least one range"@,
{
    if count == 0 {
        Err(string_of(&str_chars("splitPdf: 'ranges' must contain at least one range")))
    } else {
        Ok(())
    }
}

/// What one part of a split takes: the pages of its range, in order, or the
/// range's error, or the error for a range that selects no page.
pub open spec fn split_part_spec(range: Seq<char>, total: nat) -> Result<Seq<u16>, Seq<char>> {
    match page_range_spec(range, total) {
        Err(e) => Err(e),
        Ok(p) => if p.len() == 0 {
            Err("splitPdf: range '"@ + range + "' selects no pages"@)
        } else {
            Ok(p)
        },
    }
}

/// The 0-indexed pages of one part of a split.
pub fn split_part_pages(range: &str, total_pages: u16) -> (r: Result<Vec<u16>, String>)
    ensures
        match split_part_spec(range@, total_pages as nat) {
            Ok(p) => r matches Ok(v) && v@ == p,
            Err(e) => r matches Err(m) && m@ == e,
        },
{
    let pages = match parse_page_range(range, total_pages) {
        Ok(p) => p,
        Err(e) => {
            return Err(e);
        },
    };
    if pages.len() == 0 {
        let mut m = str_chars("splitPdf: range '");
        push_str_chars(&mut m, range);
        push_str_chars(&mut m, "' selects no pages");
        return Err(string_of(&m));
    }
    Ok(pages)
}

// ── Editing pages ────────────────────────────────────────────────────

/// The error for a page past the end of the document.
pub open spec fn missing_page(idx: u16, count: u16) -> Seq<char> {
    "editPages: page "@ + decimal(idx as nat + 1) + " does not exist (document has "@ + decimal(count as nat)
        + " pages)"@
}

fn missing_page_message(idx: u16, count: u16) -> (r: String)
    ensures
        r@ == missing_page(idx, count),
{
    let mut m = str_chars("editPages: page ");
    push_decimal(&mut m, idx as u64 + 1);
    push_str_chars(&mut m, " does not exist (document has ");
    push_decimal(&mut m, count as u64);
    push_str_chars(&mut m, " pages)");
    string_of(&m)
}

/// Whether a sequence is strictly decreasing.
pub open spec fn strictly_decreasing(s: Seq<u16>) -> bool {
    forall|a: int, b: int| 0 <= a < b < s.len() ==> s[a] > s[b]
}

/// The order in which a deletion removes pages: each page once, the last
/// first (so that earlier indices stay valid); or, when the largest index is
/// past the end, the error for it.
pub fn deletion_order(indices: &Vec<u16>, page_count: u16) -> (r: Result<Vec<u16>, String>)
    ensures
        match r {
            Ok(order) => {
                &&& strictly_decreasing(order@)
                &&& order@.to_set() == indices@.to_set()
                &&& forall|i: int| 0 <= i < indices@.len() ==> indices@[i] < page_count
            },
            Err(e) => exists|i: int|
                0 <= i < indices@.len() && indices@[i] >= page_count && (forall|j: int|
                    0 <= j < indices@.len() ==> indices@[j] <= indices@[i]) && e@ == missing_page(
                    indices@[i],
                    page_count,
                ),
        },
{
    let mut order: Vec<u16> = Vec::new();
    let mut bound: u32 = 65536;
    loop
        invariant
            bound <= 65536,
            strictly_decreasing(order@),
            forall|k: int| 0 <= k < order@.len() ==> order@[k] >= bound && indices@.contains(#[trigger] order@[k]),
            forall|i: int| 0 <= i < indices@.len() && indices@[i] >= bound ==> order@.contains(#[trigger] indices@[i]),
            order@.len() > 0 ==> bound == order@.last(),
            order@.len() > 0 ==> order@[0] < page_count,
            order@.len() > 0 ==> forall|j: int| 0 <= j < indices@.len() ==> indices@[j] <= order@[0],
            order@.len() == 0 ==> bound == 65536,
        ensures
            strictly_decreasing(order@),
            forall|k: int| 0 <= k < order@.len() ==> indices@.contains(#[trigger] order@[k]),
            forall|i: int| 0 <= i < indices@.len() && indices@[i] >= bound ==> order@.contains(#[trigger] indices@[i]),
            forall|j: int| 0 <= j < indices@.len() ==> #[trigger] indices@[j] >= bound,
            order@.len() > 0 ==> order@[0] < page_count,
            order@.len() > 0 ==> forall|j: int| 0 <= j < indices@.len() ==> indices@[j] <= order@[0],
        decreases bound,
    {
        let mut best: Option<u16> = None;
        let mut i: usize = 0;
        while i < indices.len()
            invariant
                i <= indices@.len(),
                match best {
                    Some(b) => b < bound && indices@.contains(b) && forall|j: int|
                        0 <= j < i && indices@[j] < bound ==> indices@[j] <= b,
                    None => forall|j: int| 0 <= j < i ==> indices@[j] >= bound,
                },
            decreases indices.len() - i,
        {
            let x = indices[i];
            if (x as u32) < bound {
                match best {
                    Some(b) => if x > b {
                        best = Some(x);
                    },
                    None => {
                        best = Some(x);
                    },
                }
            }
            i += 1;
        }
        match best {
            None => {
                break;
            },
            Some(b) => {
                if order.len() == 0 && b >= page_count {
                    return Err(missing_page_message(b, page_count));
                }
                let ghost before = order@;
                order.push(b);
                proof {
                    assert forall|k: int| 0 <= k < order@.len() implies order@[k] >= b && indices@.contains(
                        #[trigger] order@[k],
                    ) by {
                        if k < before.len() {
                            assert(before[k] >= bound);
                        }
                    }
                    assert forall|ii: int| 0 <= ii < indices@.len() && indices@[ii] >= b implies order@.contains(
                        #[trigger] indices@[ii],
                    ) by {
                        if indices@[ii] >= bound {
                            assert(before.contains(indices@[ii]));
                            let k = choose|k: int| 0 <= k < before.len() && before[k] == indices@[ii];
                            assert(order@[k] == indices@[ii]);
                        } else {
                            assert(indices@[ii] == b);
                            assert(order@[order@.len() - 1] == b);
                        }
                    }
                }
                bound = b as u32;
            },
        }
    }
    proof {
        assert forall|x: u16| order@.to_set().contains(x) <==> indices@.to_set().contains(x) by {
            if indices@.to_set().contains(x) {
                let i = choose|i: int| 0 <= i < indices@.len() && indices@[i] == x;
                assert(indices@[i] >= bound);
                assert(order@.contains(indices@[i]));
            }
        }
        assert(order@.to_set() =~= indices@.to_set());
        assert forall|i: int| 0 <= i < indices@.len() implies indices@[i] < page_count by {
            assert(indices@[i] >= bound);
            assert(order@.contains(indices@[i]));
        }
    }
    Ok(order)
}

/// The rotations of a page.
#[derive(Debug, Clone, Copy, PartialEq, Eq, Structural)]
pub enum PageRotation {
    Upright,
    Degrees90,
    Degrees180,
    Degrees270,
}

/// What a rotation of page `idx` by `degrees` gives: the error for a page
/// past the end, then the rotation, or the error for an angle that is not a
/// quarter turn.
pub open spec fn rotation_spec(idx: u16, degrees: u16, page_count: u16) -> Result<PageRotation, Seq<char>> {
    if idx >= page_count {
        Err(missing_page(idx, page_count))
    } else if degrees == 0 {
        Ok(PageRotation::Upright)
    } else if degrees == 90 {
        Ok(PageRotation::Degrees90)
    } else if degrees == 180 {
        Ok(PageRotation::Degrees180)
    } else if degrees == 270 {
        Ok(PageRotation::Degrees270)
    } else {
        Err("editPages: invalid rotation "@ + decimal(degrees as nat) + " (must be 0, 90, 180, or 270)"@)
    }
}

/// The rotation of one entry of a rotate operation.
pub fn page_rotation(idx: u16, degrees: u16, page_count: u16) -> (r: Result<PageRotation, String>)
    ensures
        match rotation_spec(idx, degrees, page_count) {
            Ok(p) => r == Ok::<PageRotation, String>(p),
            Err(e) => r matches Err(m) && m@ == e,
        },
{
    if idx >= page_count {
        return Err(missing_page_message(idx, page_count));
    }
    if degrees == 0 {
        Ok(PageRotation::Upright)
    } else if degrees == 90 {
        Ok(PageRotation::Degrees90)
    } else if degrees == 180 {
        Ok(PageRotation::Degrees180)
    } else if degrees == 270 {
        Ok(PageRotation::Degrees270)
    } else {
        let mut m = str_chars("editPages: invalid rotation ");
        push_decimal(&mut m, degrees as u64);
        push_str_chars(&mut m, " (must be 0, 90, 180, or 270)");
        Err(string_of(&m))
    }
}

/// What checking a reordering gives: the error for a list of the wrong
/// length, or for its first index past the end; else success.
pub open spec fn reorder_spec(new_order: Seq<u16>, page_count: u16) -> Result<(), Seq<char>> {
    if new_order.len() != page_count {
        Err("editPages: reorder list has "@ + decimal(new_order.len()) + " entries but document has "@
            + decimal(page_count as nat) + " pages"@)
    } else if exists|i: int| 0 <= i < new_order.len() && new_order[i] >= page_count {
        let i = choose|i: int|
            0 <= i < new_order.len() && new_order[i] >= page_count && forall|j: int|
                0 <= j < i ==> new_order[j] < page_count;
        Err("editPages: reorder references page "@ + decimal(new_order[i] as nat + 1) + " but document has "@
            + decimal(page_count as nat) + " pages"@)
    } else {
        Ok(())
    }
}

/// Checks the list of a reorder operation against the page count.
pub fn check_reorder(new_order: &Vec<u16>, page_count: u16) -> (r: Result<(), String>)
    ensures
        match reorder_spec(new_order@, page_count) {
            Ok(_) => r is Ok,
            Err(e) => r matches Err(m) && m@ == e,
        },
{
    if new_order.len() != page_count as usize {
        let mut m = str_chars("editPages: reorder list has ");
        push_decimal(&mut m, new_order.len() as u64);
        push_str_chars(&mut m, " entries but document has ");
        push_decimal(&mut m, page_count as u64);
        push_str_chars(&mut m, " pages");
        return Err(string_of(&m));
    }
    let mut i: usize = 0;
    while i < new_order.len()
        invariant
            i <= new_order@.len(),
            new_order@.len() == page_count,
            forall|j: int| 0 <= j < i ==> new_order@[j] < page_count,
        decreases new_order.len() - i,
    {
        let idx = new_order[i];
        if idx >= page_count {
            proof {
                assert(new_order@.len() == page_count);
                assert(new_order@[i as int] >= page_count);
                let k = choose|k: int|
                    0 <= k < new_order@.len() && new_order@[k] >= page_count && forall|j: int|
                        0 <= j < k ==> new_order@[j] < page_count;
                if k < i {
                    assert(new_order@[k] < page_count);
                }
                if k > i {
                    assert(new_order@[i as int] < page_count);
                }
            }
            let mut m = str_chars("editPages: reorder references page ");
            push_decimal(&mut m, idx as u64 + 1);
            push_str_chars(&mut m, " but document has ");
            push_decimal(&mut m, page_count as u64);
            push_str_chars(&mut m, " pages");
            return Err(string_of(&m));
        }
        i += 1;
    }
    Ok(())
}

// ── Reading form fields ──────────────────────────────────────────────

/// The kinds of form fields.
#[derive(Debug, Clone, Copy, PartialEq, Eq, Structural)]
pub enum FormFieldKind {
    Text,
    Checkbox,
    RadioButton,
    ComboBox,
    ListBox,
    Signature,
    PushButton,
    Unknown,
}

/// The name `doc.formFields` gives a kind of field.
pub fn field_type_name(kind: FormFieldKind) -> (r: &'static str)
    ensures
        r@ == match kind {
            FormFieldKind::Text => "text"@,
            FormFieldKind::Checkbox => "checkbox"@,
            FormFieldKind::RadioButton => "radio"@,
            FormFieldKind::ComboBox => "combobox"@,
            FormFieldKind::ListBox => "listbox"@,
            FormFieldKind::Signature => "signature"@,
            FormFieldKind::PushButton => "pushbutton"@,
            FormFieldKind::Unknown => "unknown"@,
        },
{
    match kind {
        FormFieldKind::Text => "text",
        FormFieldKind::Checkbox => "checkbox",
        FormFieldKind::RadioButton => "radio",
        FormFieldKind::ComboBox => "combobox",
        FormFieldKind::ListBox => "listbox",
        FormFieldKind::Signature => "signature",
        FormFieldKind::PushButton => "pushbutton",
        FormFieldKind::Unknown => "unknown",
    }
}

/// What PDFium reports of a field's value.
pub enum FieldReading {
    /// A text, combo box or list box value.
    Value(Option<String>),
    /// A check box or radio button: its group's value and whether it is
    /// checked, when PDFium can tell.
    Toggle { group_value: Option<String>, is_checked: Option<bool> },
    /// No value.
    Other,
}

/// Whether a check box or radio button is checked: any group value but
/// `Off` counts as checked (forms use values such as `1`), else what PDFium
/// says (unchecked when it cannot tell).
pub open spec fn toggle_checked(group_value: Option<Seq<char>>, is_checked: Option<bool>) -> bool {
    match group_value {
        Some(v) => if v.len() > 0 && v != "Off"@ {
            true
        } else {
            is_checked == Some(true)
        },
        None => is_checked == Some(true),
    }
}

/// The value text `doc.formFields` shows for a reading.
pub open spec fn reading_text(r: FieldReading) -> Seq<char> {
    match r {
        FieldReading::Value(v) => match v {
            Some(s) => s@,
            None => seq![],
        },
        FieldReading::Toggle { group_value, is_checked } => if toggle_checked(
            match group_value {
                Some(g) => Some(g@),
                None => None,
            },
            is_checked,
        ) {
            "true"@
        } else {
            "false"@
        },
        FieldReading::Other => seq![],
    }
}

/// The entry of `doc.formFields` for a field.
pub fn form_field_info(name: Option<String>, kind: FormFieldKind, reading: FieldReading, read_only: bool) -> (r: FormFieldInfo)
    ensures
        r.name@ == match name {
            Some(n) => n@,
            None => seq![],
        },
        r.field_type@ == field_type_name_spec(kind),
        r.value@ == reading_text(reading),
        r.read_only == read_only,
{
    let value = match reading {
        FieldReading::Value(v) => match v {
            Some(s) => s,
            None => String::new(),
        },
        FieldReading::Toggle { group_value, is_checked } => {
            let checked = match &group_value {
                Some(v) => if !v.as_str().is_empty() && !str_eq(v.as_str(), "Off") {
                    true
                } else {
                    is_checked == Some(true)
                },
                None => is_checked == Some(true),
            };
            if checked {
                string_of(&str_chars("true"))
            } else {
                string_of(&str_chars("false"))
            }
        },
        FieldReading::Other => String::new(),
    };
    FormFieldInfo {
        name: match name {
            Some(n) => n,
            None => String::new(),
        },
        field_type: string_of(&str_chars(field_type_name(kind))),
        value,
        read_only,
    }
}

/// The name of a kind of field, as a sequence.
pub open spec fn field_type_name_spec(kind: FormFieldKind) -> Seq<char> {
    match kind {
        FormFieldKind::Text => "text"@,
        FormFieldKind::Checkbox => "checkbox"@,
        FormFieldKind::RadioButton => "radio"@,
        FormFieldKind::ComboBox => "combobox"@,
        FormFieldKind::ListBox => "listbox"@,
        FormFieldKind::Signature => "signature"@,
        FormFieldKind::PushButton => "pushbutton"@,
        FormFieldKind::Unknown => "unknown"@,
    }
}

// ── Filling forms ──────────────────────────────────────────────────

/// PDFium's form field type of text fields.
pub const FIELD_TEXT: u32 = 6;
/// PDFium's form field type of check boxes.
pub const FIELD_CHECKBOX: u32 = 2;
/// PDFium's form field type of radio buttons.
pub const FIELD_RADIO: u32 = 3;
/// PDFium's form field type of combo boxes.
pub const FIELD_COMBOBOX: u32 = 4;
/// PDFium's form field type of list boxes.
pub const FIELD_LISTBOX: u32 = 5;
/// The field flag of read-only fields.
pub const FLAG_READ_ONLY: u32 = 1;
/// The field flag of combo boxes that take typed text.
pub const FLAG_CHOICE_EDIT: u32 = 0x40000;

/// What PDFium reports of a widget annotation of a form.
pub struct Widget {
    pub name: String,
    pub field_type: u32,
    pub flags: u32,
    pub is_checked: bool,
    pub options: Vec<String>,
}

/// What filling a form does with a widget.
pub enum FillAction {
    /// The widget's field is not among those filled.
    Skip,
    /// Replace the field's text with the value (and set its `/V` entry).
    ReplaceText(String),
    /// Toggle the check box or radio button.
    Toggle,
    /// Leave the check box or radio button as it is.
    Keep,
    /// Select the option at this index (and set `/V` to the value).
    SelectOption(usize, String),
    /// Stop with this error.
    Fail(String),
}

/// What a fill action is.
pub enum ActionView {
    Skip,
    ReplaceText(Seq<char>),
    Toggle,
    Keep,
    SelectOption(nat, Seq<char>),
    Fail(Seq<char>),
}

impl View for FillAction {
    type V = ActionView;

    open spec fn view(&self) -> ActionView {
        match self {
            FillAction::Skip => ActionView::Skip,
            FillAction::ReplaceText(v) => ActionView::ReplaceText(v@),
            FillAction::Toggle => ActionView::Toggle,
            FillAction::Keep => ActionView::Keep,
            FillAction::SelectOption(i, v) => ActionView::SelectOption(*i as nat, v@),
            FillAction::Fail(e) => ActionView::Fail(e@),
        }
    }
}

/// The values to fill, by field name.
pub open spec fn pairs_view(values: Seq<(String, String)>) -> Seq<(Seq<char>, Seq<char>)> {
    values.map_values(|p: (String, String)| (p.0@, p.1@))
}

/// The value given for a field: the last one given for its name (as a map
/// built from the pairs keeps it).
pub open spec fn value_for(values: Seq<(Seq<char>, Seq<char>)>, name: Seq<char>) -> Option<Seq<char>>
    decreases values.len(),
{
    if values.len() == 0 {
        None
    } else if values.last().0 == name {
        Some(values.last().1)
    } else {
        value_for(values.drop_last(), name)
    }
}

/// Whether a value asks for a check box to be checked.
pub open spec fn wants_checked(v: Seq<char>) -> bool {
    v == "true"@ || v == "1"@ || v == "yes"@
}

/// `{:?}` of a list of strings, from std: brackets, the strings quoted with
/// their special characters escaped, separated by `, `.
pub uninterp spec fn debug_strings(list: Seq<Seq<char>>) -> Seq<char>;

/// `format!("{:?}", list)` from std for a list of strings; named by
/// `debug_strings`.
#[verifier::external_body]
fn debug_list(list: &Vec<String>) -> (r: String)
    ensures
        r@ == debug_strings(list@.map_values(|s: String| s@)),
{
    format!("{:?}", list)
}

/// The index of the first option labelled `value`, if any.
pub open spec fn option_index(options: Seq<Seq<char>>, value: Seq<char>) -> Option<nat> {
    if exists|i: int| 0 <= i < options.len() && options[i] == value {
        Some(
            (choose|i: int|
                0 <= i < options.len() && options[i] == value && forall|j: int|
                    0 <= j < i ==> options[j] != value) as nat,
        )
    } else {
        None
    }
}

/// What filling a form does with a widget named `name` of the given type,
/// flags, check state and option labels, for the values to fill.
pub open spec fn fill_action_spec(
    name: Seq<char>,
    field_type: u32,
    flags: u32,
    is_checked: bool,
    options: Seq<Seq<char>>,
    values: Seq<(Seq<char>, Seq<char>)>,
) -> ActionView {
    match value_for(values, name) {
        None => ActionView::Skip,
        Some(v) => if field_type == FIELD_TEXT {
            if flags % 2 == 1 {
                ActionView::Fail("field '"@ + name + "' is read-only"@)
            } else {
                ActionView::ReplaceText(v)
            }
        } else if field_type == FIELD_CHECKBOX || field_type == FIELD_RADIO {
            if wants_checked(v) != is_checked {
                ActionView::Toggle
            } else {
                ActionView::Keep
            }
        } else if field_type == FIELD_COMBOBOX || field_type == FIELD_LISTBOX {
            if flags % 2 == 1 {
                ActionView::Fail("field '"@ + name + "' is read-only"@)
            } else if field_type == FIELD_COMBOBOX && (flags / 0x40000) % 2 == 1 {
                ActionView::ReplaceText(v)
            } else {
                match option_index(options, v) {
                    Some(i) => ActionView::SelectOption(i, v),
                    None => ActionView::Fail(
                        "field '"@ + name + "': value '"@ + v + "' not found. Valid options: "@ + debug_strings(
                            options,
                        ),
                    ),
                }
            }
        } else {
            ActionView::Fail("field '"@ + name + "' has unsupported type ("@ + decimal(field_type as nat) + ")"@)
        },
    }
}

fn value_lookup(values: &Vec<(String, String)>, name: &str) -> (r: Option<String>)
    ensures
        match value_for(pairs_view(values@), name@) {
            Some(v) => r matches Some(s) && s@ == v,
            None => r is None,
        },
{
    let mut i = values.len();
    let ghost all = pairs_view(values@);
    assert(all.take(i as int) =~= all);
    while i > 0
        invariant
            i <= values@.len(),
            all == pairs_view(values@),
            value_for(all, name@) == value_for(all.take(i as int), name@),
        decreases i,
    {
        let ghost t = all.take(i as int);
        assert(t.last() == (values@[i - 1].0@, values@[i - 1].1@));
        assert(t.drop_last() =~= all.take(i - 1));
        if str_eq(values[i - 1].0.as_str(), name) {
            return Some(string_of(&str_chars(values[i - 1].1.as_str())));
        }
        i -= 1;
    }
    None
}

fn read_only_message(name: &str) -> (r: String)
    ensures
        r@ == "field '"@ + name@ + "' is read-only"@,
{
    let mut m = str_chars("field '");
    push_str_chars(&mut m, name);
    push_str_chars(&mut m, "' is read-only");
    string_of(&m)
}

/// What filling a form does with one widget.
#[verifier::loop_isolation(false)]
pub fn fill_action(widget: &Widget, values: &Vec<(String, String)>) -> (r: FillAction)
    ensures
        r@ == fill_action_spec(
            widget.name@,
            widget.field_type,
            widget.flags,
            widget.is_checked,
            widget.options@.map_values(|s: String| s@),
            pairs_view(values@),
        ),
{
    let name = widget.name.as_str();
    let v = match value_lookup(values, name) {
        Some(v) => v,
        None => {
            return FillAction::Skip;
        },
    };
    let ft = widget.field_type;
    let read_only = widget.flags % 2 == 1;
    if ft == FIELD_TEXT {
        if read_only {
            return FillAction::Fail(read_only_message(name));
        }
        return FillAction::ReplaceText(v);
    }
    if ft == FIELD_CHECKBOX || ft == FIELD_RADIO {
        let want = str_eq(v.as_str(), "true") || str_eq(v.as_str(), "1") || str_eq(v.as_str(), "yes");
        if want != widget.is_checked {
            return FillAction::Toggle;
        }
        return FillAction::Keep;
    }
    if ft == FIELD_COMBOBOX || ft == FIELD_LISTBOX {
        if read_only {
            return FillAction::Fail(read_only_message(name));
        }
        if ft == FIELD_COMBOBOX && (widget.flags / 0x40000) % 2 == 1 {
            return FillAction::ReplaceText(v);
        }
        let ghost opts = widget.options@.map_values(|s: String| s@);
        let mut i: usize = 0;
        while i < widget.options.len()
            invariant
                i <= widget.options@.len(),
                opts == widget.options@.map_values(|s: String| s@),
                forall|j: int| 0 <= j < i ==> opts[j] != v@,
            decreases widget.options.len() - i,
        {
            if str_eq(widget.options[i].as_str(), v.as_str()) {
                proof {
                    assert(opts[i as int] == v@);
                    assert(0 <= i < opts.len() && opts[i as int] == v@ && forall|j: int| 0 <= j < i ==> opts[j] != v@);
                    let k = choose|k: int|
                        0 <= k < opts.len() && opts[k] == v@ && forall|j: int| 0 <= j < k ==> opts[j] != v@;
                    if k < i {
                        assert(opts[k] != v@);
                    }
                    if k > i {
                        assert(opts[i as int] != v@);
                    }
                }
                return FillAction::SelectOption(i, v);
            }
            i += 1;
        }
        let mut m = str_chars("field '");
        push_str_chars(&mut m, name);
        push_str_chars(&mut m, "': value '");
        push_str_chars(&mut m, v.as_str());
        push_str_chars(&mut m, "' not found. Valid options: ");
        push_str_chars(&mut m, debug_list(&widget.options).as_str());
        return FillAction::Fail(string_of(&m));
    }
    let mut m = str_chars("field '");
    push_str_chars(&mut m, name);
    push_str_chars(&mut m, "' has unsupported type (");
    push_decimal(&mut m, ft as u64);
    push_str_chars(&mut m, ")");
    FillAction::Fail(string_of(&m))
}

/// The error for the first field to fill that no widget had, if any.
pub open spec fn missing_field_spec(values: Seq<(Seq<char>, Seq<char>)>, matched: Seq<Seq<char>>) -> Option<Seq<char>> {
    if exists|i: int| 0 <= i < values.len() && !matched.contains(values[i].0) {
        let i = choose|i: int|
            0 <= i < values.len() && !matched.contains(values[i].0) && forall|j: int|
                0 <= j < i ==> matched.contains(values[j].0);
        Some("field '"@ + values[i].0 + "' does not exist in the PDF"@)
    } else {
        None
    }
}

fn contains_name(names: &Vec<String>, name: &str) -> (r: bool)
    ensures
        r == names@.map_values(|s: String| s@).contains(name@),
{
    let ghost v = names@.map_values(|s: String| s@);
    let mut i: usize = 0;
    while i < names.len()
        invariant
            i <= names@.len(),
            v == names@.map_values(|s: String| s@),
            forall|j: int| 0 <= j < i ==> v[j] != name@,
        decreases names.len() - i,
    {
        if str_eq(names[i].as_str(), name) {
            assert(v[i as int] == name@);
            return true;
        }
        i += 1;
    }
    false
}

/// After every widget is done: the error for the first field to fill that
/// matched no widget, if any.
pub fn missing_field(values: &Vec<(String, String)>, matched: &Vec<String>) -> (r: Option<String>)
    ensures
        match missing_field_spec(pairs_view(values@), matched@.map_values(|s: String| s@)) {
            Some(e) => r matches Some(m) && m@ == e,
            None => r is None,
        },
{
    let ghost vs = pairs_view(values@);
    let ghost ms = matched@.map_values(|s: String| s@);
    let mut i: usize = 0;
    while i < values.len()
        invariant
            i <= values@.len(),
            vs == pairs_view(values@),
            ms == matched@.map_values(|s: String| s@),
            forall|j: int| 0 <= j < i ==> ms.contains(#[trigger] vs[j].0),
        decreases values.len() - i,
    {
        let name = values[i].0.as_str();
        if !contains_name(matched, name) {
            proof {
                assert(vs[i as int].0 == name@);
                let k = choose|k: int|
                    0 <= k < vs.len() && !ms.contains(vs[k].0) && forall|j: int| 0 <= j < k ==> ms.contains(vs[j].0);
                if k < i {
                    assert(ms.contains(vs[k].0));
                }
                if k > i {
                    assert(!ms.contains(vs[i as int].0));
                }
            }
            let mut m = str_chars("field '");
            push_str_chars(&mut m, name);
            push_str_chars(&mut m, "' does not exist in the PDF");
            return Some(string_of(&m));
        }
        i += 1;
    }
    None
}

/// The UTF-16 code units of a little-endian buffer up to its first zero
/// unit (a trailing odd byte is ignored).
pub open spec fn utf16le_units_spec(buf: Seq<u8>) -> Seq<u16>
    decreases buf.len(),
{
    if buf.len() < 2 {
        seq![]
    } else {
        let u = (buf[0] as u16 + 256 * (buf[1] as u16)) as u16;
        if u == 0 {
            seq![]
        } else {
            seq![u] + utf16le_units_spec(buf.skip(2))
        }
    }
}

/// The code units of a field name as PDFium writes it (UTF-16LE, ended by a
/// zero unit).
pub fn utf16le_units(buf: &[u8]) -> (r: Vec<u16>)
    ensures
        r@ == utf16le_units_spec(buf@),
{
    let mut out: Vec<u16> = Vec::new();
    let mut i: usize = 0;
    assert(buf@.skip(0) =~= buf@);
    while i + 1 < buf.len()
        invariant
            i <= buf@.len(),
            i % 2 == 0,
            out@ + utf16le_units_spec(buf@.skip(i as int)) == utf16le_units_spec(buf@),
        decreases buf.len() - i,
    {
        let u: u16 = buf[i] as u16 + 256 * (buf[i + 1] as u16);
        let ghost rest = buf@.skip(i as int);
        assert(rest[0] == buf@[i as int] && rest[1] == buf@[i + 1]);
        if u == 0 {
            assert(out@ + utf16le_units_spec(rest) =~= out@);
            return out;
        }
        assert(rest.skip(2) =~= buf@.skip(i + 2));
        let ghost before = out@;
        out.push(u);
        assert(out@ + utf16le_units_spec(buf@.skip(i + 2)) =~= before + utf16le_units_spec(rest));
        i += 2;
    }
    assert(utf16le_units_spec(buf@.skip(i as int)) =~= seq![]);
    assert(out@ =~= utf16le_units_spec(buf@));
    out
}

/// What `String::from_utf16_lossy` gives for code units (each unpaired
/// surrogate replaced by U+FFFD).
pub uninterp spec fn utf16_lossy(units: Seq<u16>) -> Seq<char>;

/// `String::from_utf16_lossy` from std; named by `utf16_lossy`.
#[verifier::external_body]
fn from_utf16_lossy(units: &[u16]) -> (r: String)
    ensures
        r@ == utf16_lossy(units@),
{
    String::from_utf16_lossy(units)
}

/// The name of a form field from the UTF-16LE buffer PDFium fills.
pub fn field_name_from_utf16le(buf: &[u8]) -> (r: String)
    ensures
        r@ == utf16_lossy(utf16le_units_spec(buf@)),
{
    let units = utf16le_units(buf);
    from_utf16_lossy(units.as_slice())
}

// ── Annotations ──────────────────────────────────────────────────────

/// The name of an annotation type in `doc.addAnnotation`.
pub open spec fn annotation_name(kind: AnnotationType) -> Seq<char> {
    match kind {
        AnnotationType::Text => "text"@,
        AnnotationType::FreeText => "freeText"@,
        AnnotationType::Highlight => "highlight"@,
        AnnotationType::Underline => "underline"@,
        AnnotationType::Strikeout => "strikeout"@,
        AnnotationType::Square => "square"@,
        AnnotationType::Stamp => "stamp"@,
    }
}

/// The name of an annotation type; see `annotation_name`.
pub fn annotation_type_name(kind: AnnotationType) -> (r: &'static str)
    ensures
        r@ == annotation_name(kind),
{
    match kind {
        AnnotationType::Text => "text",
        AnnotationType::FreeText => "freeText",
        AnnotationType::Highlight => "highlight",
        AnnotationType::Underline => "underline",
        AnnotationType::Strikeout => "strikeout",
        AnnotationType::Square => "square",
        AnnotationType::Stamp => "stamp",
    }
}

/// The error for an annotation type name that is not known.
pub open spec fn unknown_annotation(name: Seq<char>) -> Seq<char> {
    "doc.addAnnotation: unknown type '"@ + name
        + "' (expected: text, freeText, highlight, underline, strikeout, square, stamp)"@
}

/// The annotation type with the given name, or the error for an unknown name.
pub fn parse_annotation_type(name: &str) -> (r: Result<AnnotationType, String>)
    ensures
        match r {
            Ok(kind) => annotation_name(kind) == name@,
            Err(e) => e@ == unknown_annotation(name@) && forall|k: AnnotationType|
                annotation_name(k) != name@,
        },
{
    if str_eq(name, "text") {
        Ok(AnnotationType::Text)
    } else if str_eq(name, "freeText") {
        Ok(AnnotationType::FreeText)
    } else if str_eq(name, "highlight") {
        Ok(AnnotationType::Highlight)
    } else if str_eq(name, "underline") {
        Ok(AnnotationType::Underline)
    } else if str_eq(name, "strikeout") {
        Ok(AnnotationType::Strikeout)
    } else if str_eq(name, "square") {
        Ok(AnnotationType::Square)
    } else if str_eq(name, "stamp") {
        Ok(AnnotationType::Stamp)
    } else {
        let mut e = str_chars("doc.addAnnotation: unknown type '");
        push_str_chars(&mut e, name);
        push_str_chars(
            &mut e,
            "' (expected: text, freeText, highlight, underline, strikeout, square, stamp)",
        );
        Err(string_of(&e))
    }
}

/// Different annotation types have different names, so `parse_annotation_type`
/// reads each type back from its name.
pub proof fn law_annotation_names_distinct(kind: AnnotationType)
    ensures
        forall|k: AnnotationType| annotation_name(k) == annotation_name(kind) ==> k == kind,
{
    reveal_strlit("text");
    reveal_strlit("freeText");
    reveal_strlit("highlight");
    reveal_strlit("underline");
    reveal_strlit("strikeout");
    reveal_strlit("square");
    reveal_strlit("stamp");
    assert forall|k: AnnotationType| annotation_name(k) == annotation_name(kind) implies k == kind by {
        if k != kind {
            assert(annotation_name(k).len() != annotation_name(kind).len() || annotation_name(k)[0]
                != annotation_name(kind)[0]);
        }
    }
}

/// Which color of an annotation the optional color sets.
pub enum ColorTarget {
    Fill,
    Stroke,
}

/// How an annotation of one type is made on a page.
pub struct AnnotationSteps {
    /// It is created with its contents text (empty when none is given).
    pub created_with_contents: bool,
    /// A quadrilateral of its bounds is attached to it (markup annotations).
    pub attachment_points: bool,
    /// The color it is given, when one is, is its fill or its stroke color.
    pub color: ColorTarget,
    /// Its contents, when given, are set after it is created.
    pub sets_contents: bool,
}

/// The steps of making an annotation of type `kind`: text and free-text notes
/// carry their contents from creation; highlight, underline and strikeout
/// marks get attachment points; underline, strikeout and square take the
/// color as their stroke; all but text and free-text set the contents later.
pub open spec fn annotation_steps_spec(kind: AnnotationType) -> AnnotationSteps {
    AnnotationSteps {
        created_with_contents: kind == AnnotationType::Text || kind == AnnotationType::FreeText,
        attachment_points: kind == AnnotationType::Highlight || kind == AnnotationType::Underline
            || kind == AnnotationType::Strikeout,
        color: if kind == AnnotationType::Underline || kind == AnnotationType::Strikeout || kind
            == AnnotationType::Square {
            ColorTarget::Stroke
        } else {
            ColorTarget::Fill
        },
        sets_contents: !(kind == AnnotationType::Text || kind == AnnotationType::FreeText),
    }
}

/// The steps of making an annotation; see `annotation_steps_spec`.
pub fn annotation_steps(kind: AnnotationType) -> (r: AnnotationSteps)
    ensures
        r == annotation_steps_spec(kind),
{
    match kind {
        AnnotationType::Text | AnnotationType::FreeText => AnnotationSteps {
            created_with_contents: true,
            attachment_points: false,
            color: ColorTarget::Fill,
            sets_contents: false,
        },
        AnnotationType::Highlight => AnnotationSteps {
            created_with_contents: false,
            attachment_points: true,
            color: ColorTarget::Fill,
            sets_contents: true,
        },
        AnnotationType::Underline | AnnotationType::Strikeout => AnnotationSteps {
            created_with_contents: false,
            attachment_points: true,
            color: ColorTarget::Stroke,
            sets_contents: true,
        },
        AnnotationType::Square => AnnotationSteps {
            created_with_contents: false,
            attachment_points: false,
            color: ColorTarget::Stroke,
            sets_contents: true,
        },
        AnnotationType::Stamp => AnnotationSteps {
            created_with_contents: false,
            attachment_points: false,
            color: ColorTarget::Fill,
            sets_contents: true,
        },
    }
}

/// The 0-indexed page of an annotation must exist; the error counts pages from 1.
pub fn check_annotation_page(page: u16, page_count: u16) -> (r: Result<(), String>)
    requires
        page < u16::MAX,
    ensures
        page < page_count <==> r is Ok,
        r matches Err(e) ==> e@ == "addAnnotation: page "@ + decimal((page + 1) as nat) + " does not exist (document has "@
            + decimal(page_count as nat) + " pages)"@,
{
    if page >= page_count {
        let mut e = str_chars("addAnnotation: page ");
        push_decimal(&mut e, page as u64 + 1);
        push_str_chars(&mut e, " does not exist (document has ");
        push_decimal(&mut e, page_count as u64);
        push_str_chars(&mut e, " pages)");
        Err(string_of(&e))
    } else {
        Ok(())
    }
}

} // verus!
