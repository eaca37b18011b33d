use cpsl::doc::AnnotationType;
use cpsl::pdf_plan::{
    annotation_steps, annotation_type_name, check_annotation_page, parse_annotation_type,
    pages_text, pdf_text, ColorTarget, PageText, check_merge_inputs, check_reorder, check_split_ranges, deletion_order, field_name_from_utf16le,
    fill_action, form_field_info, missing_field, page_rotation, split_part_pages, utf16le_units,
    FieldReading, FillAction, FormFieldKind, PageRotation, Widget, FIELD_CHECKBOX, FIELD_COMBOBOX,
    FIELD_LISTBOX, FIELD_TEXT, FLAG_CHOICE_EDIT, FLAG_READ_ONLY,
};

fn pairs(v: &[(&str, &str)]) -> Vec<(String, String)> {
    v.iter().map(|(a, b)| (a.to_string(), b.to_string())).collect()
}

fn widget(name: &str, field_type: u32, flags: u32, checked: bool, options: &[&str]) -> Widget {
    Widget {
        name: name.to_string(),
        field_type,
        flags,
        is_checked: checked,
        options: options.iter().map(|s| s.to_string()).collect(),
    }
}

#[test]
fn merge_and_split_inputs() {
    assert_eq!(check_merge_inputs(0), Err("mergePdf: 'paths' must contain at least one PDF".to_string()));
    assert!(check_merge_inputs(2).is_ok());
    assert_eq!(check_split_ranges(0), Err("splitPdf: 'ranges' must contain at least one range".to_string()));
    assert_eq!(split_part_pages("1-3, 5", 6).ok().unwrap(), vec![0, 1, 2, 4]);
    assert_eq!(split_part_pages(" , ", 6).err(), Some("splitPdf: range ' , ' selects no pages".to_string()));
    assert_eq!(split_part_pages("9", 6).err(), Some("page 9 exceeds document page count (6)".to_string()));
}

#[test]
fn deletions_run_from_the_last_page() {
    assert_eq!(deletion_order(&vec![1, 4, 1, 0], 5).ok().unwrap(), vec![4, 1, 0]);
    assert_eq!(deletion_order(&vec![], 5).ok().unwrap(), Vec::<u16>::new());
    assert_eq!(
        deletion_order(&vec![2, 9, 7], 5).err(),
        Some("editPages: page 10 does not exist (document has 5 pages)".to_string())
    );
}

#[test]
fn rotations_and_reorders() {
    assert_eq!(page_rotation(0, 90, 3).ok(), Some(PageRotation::Degrees90));
    assert_eq!(page_rotation(2, 0, 3).ok(), Some(PageRotation::Upright));
    assert_eq!(
        page_rotation(1, 45, 3).err(),
        Some("editPages: invalid rotation 45 (must be 0, 90, 180, or 270)".to_string())
    );
    assert_eq!(
        page_rotation(3, 45, 3).err(),
        Some("editPages: page 4 does not exist (document has 3 pages)".to_string())
    );
    assert!(check_reorder(&vec![2, 0, 1], 3).is_ok());
    assert_eq!(
        check_reorder(&vec![0, 1], 3).err(),
        Some("editPages: reorder list has 2 entries but document has 3 pages".to_string())
    );
    assert_eq!(
        check_reorder(&vec![0, 5, 7], 3).err(),
        Some("editPages: reorder references page 6 but document has 3 pages".to_string())
    );
}

#[test]
fn form_field_entries() {
    let f = form_field_info(
        Some("agree".to_string()),
        FormFieldKind::Checkbox,
        FieldReading::Toggle { group_value: Some("1".to_string()), is_checked: Some(false) },
        false,
    );
    assert_eq!((f.name.as_str(), f.field_type.as_str(), f.value.as_str()), ("agree", "checkbox", "true"));
    let f = form_field_info(
        None,
        FormFieldKind::RadioButton,
        FieldReading::Toggle { group_value: Some("Off".to_string()), is_checked: None },
        true,
    );
    assert_eq!((f.name.as_str(), f.field_type.as_str(), f.value.as_str(), f.read_only), ("", "radio", "false", true));
    let f = form_field_info(Some("n".to_string()), FormFieldKind::Text, FieldReading::Value(None), false);
    assert_eq!(f.value, "");
}

#[test]
fn fill_actions_per_widget() {
    let values = pairs(&[("name", "Ann"), ("agree", "yes"), ("state", "CA"), ("name", "Bob"), ("kind", "x")]);
    assert!(matches!(fill_action(&widget("other", FIELD_TEXT, 0, false, &[]), &values), FillAction::Skip));
    match fill_action(&widget("name", FIELD_TEXT, 0, false, &[]), &values) {
        FillAction::ReplaceText(v) => assert_eq!(v, "Bob"),
        _ => panic!("text not replaced"),
    }
    match fill_action(&widget("name", FIELD_TEXT, FLAG_READ_ONLY, false, &[]), &values) {
        FillAction::Fail(e) => assert_eq!(e, "field 'name' is read-only"),
        _ => panic!("read-only field filled"),
    }
    assert!(matches!(fill_action(&widget("agree", FIELD_CHECKBOX, 0, false, &[]), &values), FillAction::Toggle));
    assert!(matches!(fill_action(&widget("agree", FIELD_CHECKBOX, 0, true, &[]), &values), FillAction::Keep));
    match fill_action(&widget("state", FIELD_LISTBOX, 0, false, &["NY", "CA", "CA"]), &values) {
        FillAction::SelectOption(i, v) => assert_eq!((i, v.as_str()), (1, "CA")),
        _ => panic!("option not selected"),
    }
    match fill_action(&widget("state", FIELD_COMBOBOX, 0, false, &["NY", "TX"]), &values) {
        FillAction::Fail(e) => assert_eq!(e, "field 'state': value 'CA' not found. Valid options: [\"NY\", \"TX\"]"),
        _ => panic!("missing option accepted"),
    }
    match fill_action(&widget("state", FIELD_COMBOBOX, FLAG_CHOICE_EDIT, false, &[]), &values) {
        FillAction::ReplaceText(v) => assert_eq!(v, "CA"),
        _ => panic!("editable combo box not typed into"),
    }
    match fill_action(&widget("kind", 7, 0, false, &[]), &values) {
        FillAction::Fail(e) => assert_eq!(e, "field 'kind' has unsupported type (7)"),
        _ => panic!("unsupported type accepted"),
    }
}

#[test]
fn missing_fields_are_reported_in_order() {
    let values = pairs(&[("a", "1"), ("b", "2"), ("c", "3")]);
    assert_eq!(missing_field(&values, &vec!["a".to_string(), "b".to_string(), "c".to_string()]), None);
    assert_eq!(
        missing_field(&values, &vec!["a".to_string()]),
        Some("field 'b' does not exist in the PDF".to_string())
    );
}

#[test]
fn field_names_decode_from_utf16le() {
    let buf = [0x4e, 0x00, 0x61, 0x00, 0x6d, 0x00, 0x65, 0x00, 0x00, 0x00, 0x41, 0x00];
    assert_eq!(utf16le_units(&buf), vec![0x4e, 0x61, 0x6d, 0x65]);
    assert_eq!(field_name_from_utf16le(&buf), "Name");
    assert_eq!(field_name_from_utf16le(&[0x3d, 0xd8, 0x00, 0x00]), "\u{fffd}");
    assert_eq!(field_name_from_utf16le(&[0x41]), "");
}

#[test]
fn annotation_types_read_back_from_their_names() {
    let kinds = [
        AnnotationType::Text,
        AnnotationType::FreeText,
        AnnotationType::Highlight,
        AnnotationType::Underline,
        AnnotationType::Strikeout,
        AnnotationType::Square,
        AnnotationType::Stamp,
    ];
    for k in kinds {
        assert_eq!(parse_annotation_type(annotation_type_name(k)), Ok(k));
    }
    assert_eq!(
        parse_annotation_type("circle").unwrap_err(),
        "doc.addAnnotation: unknown type 'circle' (expected: text, freeText, highlight, underline, strikeout, square, stamp)"
    );
}

#[test]
fn annotation_steps_per_type() {
    let t = annotation_steps(AnnotationType::Text);
    assert!(t.created_with_contents && !t.attachment_points && !t.sets_contents);
    assert!(matches!(t.color, ColorTarget::Fill));
    let u = annotation_steps(AnnotationType::Underline);
    assert!(!u.created_with_contents && u.attachment_points && u.sets_contents);
    assert!(matches!(u.color, ColorTarget::Stroke));
    let h = annotation_steps(AnnotationType::Highlight);
    assert!(h.attachment_points && matches!(h.color, ColorTarget::Fill));
    let q = annotation_steps(AnnotationType::Square);
    assert!(!q.attachment_points && matches!(q.color, ColorTarget::Stroke) && q.sets_contents);
    let s = annotation_steps(AnnotationType::Stamp);
    assert!(!s.attachment_points && matches!(s.color, ColorTarget::Fill) && s.sets_contents);
}

#[test]
fn annotation_page_must_exist() {
    assert_eq!(check_annotation_page(0, 1), Ok(()));
    assert_eq!(
        check_annotation_page(3, 3).unwrap_err(),
        "addAnnotation: page 4 does not exist (document has 3 pages)"
    );
}

#[test]
fn document_text_joins_non_empty_pages() {
    let pages = vec![
        PageText::Text("first".to_string()),
        PageText::Text(String::new()),
        PageText::Text("third".to_string()),
    ];
    assert_eq!(pages_text(&pages), Ok("first\nthird".to_string()));
    assert_eq!(pdf_text(&Ok(pages)), Ok("first\nthird".to_string()));
    assert_eq!(pdf_text(&Err("bad header".to_string())), Err("cannot load PDF: bad header".to_string()));
    let failing = vec![
        PageText::Text("a".to_string()),
        PageText::TextFailed("no text".to_string()),
        PageText::PageFailed("gone".to_string()),
    ];
    assert_eq!(pages_text(&failing), Err("cannot extract text from page 1: no text".to_string()));
    let missing = vec![PageText::PageFailed("gone".to_string())];
    assert_eq!(pages_text(&missing), Err("cannot read page 0: gone".to_string()));
}
