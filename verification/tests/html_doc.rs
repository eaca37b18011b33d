use cpsl::html_doc::{
    attr, document_preview, inner_html_of, outer_html_of, select, select_one, text_of, HtmlValue,
};

const PAGE: &str = "<html><body><p class=\"a\" id=\"x\">Hello <b>World</b></p><p>Two</p></body></html>";

#[test]
fn select_finds_elements_in_order() {
    let found = select(PAGE, "p").ok().unwrap();
    assert_eq!(found.len(), 2);
    assert_eq!(found[0].tag, "p");
    assert_eq!(found[0].text, "Hello World");
    assert_eq!(found[0].html, "Hello <b>World</b>");
    assert_eq!(found[0].outer_html, "<p class=\"a\" id=\"x\">Hello <b>World</b></p>");
    assert_eq!(attr(&found[0], "id"), Some("x".to_string()));
    assert_eq!(attr(&found[0], "href"), None);
    assert_eq!(found[1].text, "Two");
}

#[test]
fn select_one_gives_the_first_match() {
    let first = select_one(PAGE, "p").ok().unwrap().unwrap();
    assert_eq!(first.text, "Hello World");
    assert!(select_one(PAGE, "table").ok().unwrap().is_none());
}

#[test]
fn invalid_selectors_are_reported() {
    match select(PAGE, "p[") {
        Err(e) => assert!(e.starts_with("html.select: invalid CSS selector 'p[': "), "got: {}", e),
        Ok(_) => panic!("bad selector accepted"),
    }
    match select_one(PAGE, "::") {
        Err(e) => assert!(e.starts_with("html.select_one: invalid CSS selector '::': "), "got: {}", e),
        Ok(_) => panic!("bad selector accepted"),
    }
}

#[test]
fn texts_of_documents_and_elements() {
    assert_eq!(text_of(&HtmlValue::Source(PAGE.to_string())), "Hello WorldTwo");
    assert_eq!(text_of(&HtmlValue::Document(PAGE.to_string())), "Hello WorldTwo");
    let el = select_one(PAGE, "b").ok().unwrap().unwrap();
    assert_eq!(inner_html_of(&HtmlValue::Element(el)), "World");
    assert!(outer_html_of(&HtmlValue::Source("<p>x</p>".to_string())).starts_with("<html>"));
    assert!(inner_html_of(&HtmlValue::Source("<p>x</p>".to_string())).contains("<p>x</p>"));
}

#[test]
fn preview_shows_length_and_start_of_text() {
    assert_eq!(document_preview("<p>Hi</p>"), "HtmlDocument(9 chars, \"Hi...\")");
    let long = format!("<p>{}</p>", "x".repeat(100));
    assert_eq!(document_preview(&long), format!("HtmlDocument(107 chars, \"{}...\")", "x".repeat(80)));
}
