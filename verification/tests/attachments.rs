use cpsl::attachments::{
    attachment_candidate, attachment_paths, calendar_attachment_scope,
    is_managed_attachment_path, notes_with_attachments, safe_attachment_name, scope_text,
    split_attachment_notes,
};

const ROOT: &str = "/home/herm/calendar-attachments";

#[test]
fn safe_names() {
    assert_eq!(safe_attachment_name("report.pdf"), "report.pdf");
    assert_eq!(safe_attachment_name("my report (1).pdf"), "my-report--1-.pdf");
    assert_eq!(safe_attachment_name("..hidden.."), "hidden");
    assert_eq!(safe_attachment_name("--.--"), "attachment");
    assert_eq!(safe_attachment_name(""), "attachment");
    assert_eq!(safe_attachment_name("résumé.txt"), "r-sum-.txt");
    assert_eq!(safe_attachment_name("a_b-c"), "a_b-c");
}

#[test]
fn managed_paths() {
    assert!(is_managed_attachment_path(&format!("{ROOT}/abc/file.txt")));
    assert!(!is_managed_attachment_path(&format!("{ROOT}/abc")));
    assert!(!is_managed_attachment_path(&format!("{ROOT}/abc/d/file.txt")));
    assert!(!is_managed_attachment_path(&format!("{ROOT}/../file.txt")));
    assert!(!is_managed_attachment_path(&format!("{ROOT}/abc/..")));
    assert!(!is_managed_attachment_path(&format!("{ROOT}//file.txt")));
    assert!(!is_managed_attachment_path("/tmp/abc/file.txt"));
    assert!(!is_managed_attachment_path(ROOT));
}

#[test]
fn split_notes_with_block() {
    let notes = format!(
        "Meeting notes\n\n[Herm attachments]\n {ROOT}/a/x.pdf \n/tmp/other\n{ROOT}/a/x.pdf\n{ROOT}/b/y.txt\n[/Herm attachments]\ntrailer"
    );
    let (plain, paths) = split_attachment_notes(Some(&notes));
    assert_eq!(plain, "Meeting notes\n\n\ntrailer");
    assert_eq!(
        paths,
        vec![format!("{ROOT}/a/x.pdf"), format!("{ROOT}/b/y.txt")]
    );
    assert_eq!(attachment_paths(Some(&notes)), paths);
}

#[test]
fn split_notes_without_complete_block() {
    assert_eq!(split_attachment_notes(None), (String::new(), vec![]));
    assert_eq!(
        split_attachment_notes(Some("  just text  ")),
        ("just text".to_string(), vec![])
    );
    assert_eq!(
        split_attachment_notes(Some(" [Herm attachments]\n/x ")),
        ("[Herm attachments]\n/x".to_string(), vec![])
    );
}

#[test]
fn notes_with_new_attachments() {
    let a = format!("{ROOT}/s/a.txt");
    let b = format!("{ROOT}/s/b.txt");
    assert_eq!(notes_with_attachments(Some("  hi "), &[]), "hi");
    assert_eq!(
        notes_with_attachments(None, &[a.clone()]),
        format!("[Herm attachments]\n{a}\n[/Herm attachments]")
    );
    let first = notes_with_attachments(Some("hi"), &[a.clone()]);
    assert_eq!(first, format!("hi\n\n[Herm attachments]\n{a}\n[/Herm attachments]"));
    let second = notes_with_attachments(Some(&first), &[b.clone(), a.clone(), b.clone()]);
    assert_eq!(
        second,
        format!("hi\n\n[Herm attachments]\n{a}\n{b}\n[/Herm attachments]")
    );
    assert_eq!(attachment_paths(Some(&second)), vec![a, b]);
}

#[test]
fn scopes_are_sixteen_hex_digits() {
    assert_eq!(scope_text(0), "0000000000000000");
    assert_eq!(scope_text(0xdeadbeef), "00000000deadbeef");
    assert_eq!(scope_text(u64::MAX), "ffffffffffffffff");
    let s = calendar_attachment_scope("event-1");
    assert_eq!(s.len(), 16);
    assert!(s.chars().all(|c| c.is_ascii_hexdigit() && !c.is_ascii_uppercase()));
    assert_eq!(s, calendar_attachment_scope("event-1"));
}

#[test]
fn candidate_names() {
    assert_eq!(attachment_candidate("/d", "file.txt", 1), "/d/file.txt");
    assert_eq!(attachment_candidate("/d", "file.txt", 2), "/d/file-2.txt");
    assert_eq!(attachment_candidate("/d", "archive.tar.gz", 3), "/d/archive.tar-3.gz");
    assert_eq!(attachment_candidate("/d", "README", 12), "/d/README-12");
}
