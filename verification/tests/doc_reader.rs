use cpsl::doc::{
    callback_outcome, pending_read_step, ReadStep,
    cache_key, canonical_pdf_backend_error, direct_render_uses_webview, file_render_uses_webview,
    vision_media_type,
};
use cpsl::doc_reader::{extract_slide_number, parse_page_range_public, DocFormat, ReadMode};
use cpsl::doc_render::{
    conversion_plan, ConversionPlan, collect_tag_text, extract_text_from_xml, html_text_from_events, html_to_text,
    markdown_to_html, render_document, XmlEvent,
};

#[test]
fn test_format_detection() {
    assert_eq!(DocFormat::from_extension("report.xlsx"), Some(DocFormat::Xlsx));
    assert_eq!(DocFormat::from_extension("report.XLSX"), Some(DocFormat::Xlsx));
    assert_eq!(DocFormat::from_extension("data.csv"), Some(DocFormat::Csv));
    assert_eq!(DocFormat::from_extension("doc.pdf"), Some(DocFormat::Pdf));
    assert_eq!(DocFormat::from_extension("doc.docx"), Some(DocFormat::Docx));
    assert_eq!(DocFormat::from_extension("slides.pptx"), Some(DocFormat::Pptx));
    assert_eq!(DocFormat::from_extension("doc.rtf"), Some(DocFormat::Rtf));
    assert_eq!(DocFormat::from_extension("noext"), None);
    assert_eq!(DocFormat::from_extension("file.xyz"), None);
    assert_eq!(DocFormat::from_extension("photo.png"), Some(DocFormat::Png));
    assert_eq!(DocFormat::from_extension("photo.PNG"), Some(DocFormat::Png));
    assert_eq!(DocFormat::from_extension("photo.jpg"), Some(DocFormat::Jpg));
    assert_eq!(DocFormat::from_extension("photo.jpeg"), Some(DocFormat::Jpg));
    assert_eq!(DocFormat::from_extension("photo.JPEG"), Some(DocFormat::Jpg));
    assert_eq!(DocFormat::from_extension("photo.webp"), Some(DocFormat::Webp));
    assert_eq!(DocFormat::from_extension("photo.gif"), Some(DocFormat::Gif));
}

#[test]
fn test_format_needs_callback() {
    assert!(DocFormat::Png.needs_callback());
    assert!(DocFormat::Jpg.needs_callback());
    assert!(DocFormat::Webp.needs_callback());
    assert!(DocFormat::Gif.needs_callback());
    assert!(DocFormat::Pdf.needs_callback());
    assert!(!DocFormat::Xlsx.needs_callback());
    assert!(!DocFormat::Csv.needs_callback());
    assert!(!DocFormat::Txt.needs_callback());
}

#[test]
fn test_xml_text_extraction() {
    let xml = r#"<root><w:t>Hello </w:t><w:t>World</w:t></root>"#;
    let result = extract_text_from_xml(xml, "w:t").unwrap();
    assert_eq!(result, "Hello World");
}

#[test]
fn test_xml_text_extraction_pptx() {
    let xml = r#"<root><a:t>Slide </a:t><a:t>Title</a:t></root>"#;
    let result = extract_text_from_xml(xml, "a:t").unwrap();
    assert_eq!(result, "Slide Title");
}

#[test]
fn xml_text_extraction_checks_prefix_and_errors() {
    let xml = r#"<root><x:t>no</x:t><w:t>yes</w:t><t>plain</t></root>"#;
    assert_eq!(extract_text_from_xml(xml, "w:t").unwrap(), "yes");
    assert_eq!(extract_text_from_xml(xml, "t").unwrap(), "noyesplain");
    let err = extract_text_from_xml("<root><w:t>a</x:t></root>", "w:t").unwrap_err();
    assert!(err.starts_with("XML parse error: "), "got: {}", err);
}

#[test]
fn collect_tag_text_over_given_events() {
    let events = vec![
        XmlEvent::Start("w:t".to_string()),
        XmlEvent::Text("a".to_string()),
        XmlEvent::End("w:t".to_string()),
        XmlEvent::Text("b".to_string()),
        XmlEvent::Empty("w:t".to_string()),
        XmlEvent::Text("c".to_string()),
        XmlEvent::Other,
        XmlEvent::Text("d".to_string()),
    ];
    assert_eq!(collect_tag_text(&events, &None, "w:t").unwrap(), "acd");
    let boom = Some("boom".to_string());
    assert_eq!(collect_tag_text(&events, &boom, "w:t").unwrap_err(), "XML parse error: boom");
}

#[test]
fn test_slide_number_extraction() {
    assert_eq!(extract_slide_number("ppt/slides/slide1.xml"), 1);
    assert_eq!(extract_slide_number("ppt/slides/slide12.xml"), 12);
    assert_eq!(extract_slide_number("ppt/slides/slide100.xml"), 100);
}

#[test]
fn test_format_detection_html() {
    assert_eq!(DocFormat::from_extension("page.html"), Some(DocFormat::Html));
    assert_eq!(DocFormat::from_extension("page.htm"), Some(DocFormat::Html));
}

#[test]
fn test_markdown_to_html_headings() {
    let html = markdown_to_html("# Hello\n\nWorld");
    assert!(html.contains("<h1>Hello</h1>"), "got: {}", html);
    assert!(html.contains("<p>World</p>"), "got: {}", html);
}

#[test]
fn test_markdown_to_html_bold_italic() {
    let html = markdown_to_html("**bold** and *italic*");
    assert!(html.contains("<strong>bold</strong>"), "got: {}", html);
    assert!(html.contains("<em>italic</em>"), "got: {}", html);
}

#[test]
fn test_markdown_to_html_links() {
    let html = markdown_to_html("[click](https://example.com)");
    assert!(html.contains("href=\"https://example.com\""), "got: {}", html);
    assert!(html.contains("click"), "got: {}", html);
}

#[test]
fn test_markdown_to_html_code_blocks() {
    let html = markdown_to_html("```\ncode\n```");
    assert!(html.contains("<code>"), "got: {}", html);
    assert!(html.contains("code"), "got: {}", html);
}

#[test]
fn test_markdown_to_html_tables() {
    let html = markdown_to_html("| A | B |\n|---|---|\n| 1 | 2 |");
    assert!(html.contains("<table>"), "got: {}", html);
    assert!(html.contains("<td>1</td>"), "got: {}", html);
}

#[test]
fn test_html_to_text_basic() {
    let text = html_to_text("<p>Hello <b>World</b></p>");
    assert_eq!(text, "Hello World");
}

#[test]
fn test_html_to_text_strips_script() {
    let text = html_to_text("<p>Text</p><script>alert('xss')</script><p>More</p>");
    assert!(!text.contains("alert"), "should strip script: {}", text);
    assert!(text.contains("Text"), "got: {}", text);
    assert!(text.contains("More"), "got: {}", text);
}

#[test]
fn test_html_to_text_strips_style() {
    let text = html_to_text("<style>body{color:red}</style><p>Content</p>");
    assert!(!text.contains("color"), "should strip style: {}", text);
    assert!(text.contains("Content"), "got: {}", text);
}

#[test]
fn test_html_to_text_newlines_on_block_elements() {
    let text = html_to_text("<h1>Title</h1><p>Para 1</p><p>Para 2</p>");
    assert_eq!(text, "Title\nPara 1\nPara 2", "got: {}", text);
}

#[test]
fn html_text_over_given_events() {
    let events = vec![
        XmlEvent::Start("root".to_string()),
        XmlEvent::Text("  one".to_string()),
        XmlEvent::Start("p".to_string()),
        XmlEvent::Text("two".to_string()),
        XmlEvent::Empty("br".to_string()),
        XmlEvent::Start("script".to_string()),
        XmlEvent::Text("hidden".to_string()),
        XmlEvent::End("script".to_string()),
        XmlEvent::Text("three  ".to_string()),
    ];
    assert_eq!(html_text_from_events(&events, &None, "ignored"), "one\ntwo\nthree");
    let failure = Some("x".to_string());
    assert_eq!(html_text_from_events(&events, &failure, " <b>bold</b> "), "bold");
}

#[test]
fn test_render_markdown_to_html() {
    let result = render_document("# Test", "markdown", "html").unwrap();
    assert!(result.contains("<h1>Test</h1>"), "got: {}", result);
}

#[test]
fn test_render_html_to_text() {
    let result = render_document("<p>Hello</p>", "html", "text").unwrap();
    assert_eq!(result, "Hello");
}

#[test]
fn test_render_unsupported_conversion() {
    let err = render_document("text", "txt", "pdf").unwrap_err();
    assert!(err.contains("unsupported conversion"), "got: {}", err);
}

#[test]
fn render_document_accepts_md_and_txt_names() {
    assert!(render_document("# T", "md", "html").unwrap().contains("<h1>T</h1>"));
    assert_eq!(render_document("<p>x</p>", "html", "txt").unwrap(), "x");
    assert_eq!(
        render_document("x", "html", "pdf").unwrap_err(),
        "unsupported conversion: html → pdf (supported: markdown→html, html→text, markdown→pdf, html→pdf)"
    );
}

#[test]
fn test_from_ext() {
    assert_eq!(DocFormat::from_ext("xlsx"), Some(DocFormat::Xlsx));
    assert_eq!(DocFormat::from_ext("HTML"), Some(DocFormat::Html));
    assert_eq!(DocFormat::from_ext("md"), Some(DocFormat::Md));
    assert_eq!(DocFormat::from_ext("pdf"), Some(DocFormat::Pdf));
    assert_eq!(DocFormat::from_ext("png"), Some(DocFormat::Png));
    assert_eq!(DocFormat::from_ext("jpg"), Some(DocFormat::Jpg));
    assert_eq!(DocFormat::from_ext("jpeg"), Some(DocFormat::Jpg));
    assert_eq!(DocFormat::from_ext("webp"), Some(DocFormat::Webp));
    assert_eq!(DocFormat::from_ext("gif"), Some(DocFormat::Gif));
    assert_eq!(DocFormat::from_ext("xyz"), None);
}

#[test]
fn test_from_ext_matches_from_extension() {
    for (path, ext) in &[
        ("file.xlsx", "xlsx"),
        ("file.pdf", "pdf"),
        ("file.html", "html"),
        ("file.md", "md"),
        ("file.csv", "csv"),
    ] {
        assert_eq!(
            DocFormat::from_extension(path),
            DocFormat::from_ext(ext),
            "mismatch for {}/{}",
            path,
            ext
        );
    }
}

#[test]
fn webview_detection_matches_supported_render_conversions() {
    assert!(direct_render_uses_webview("html", "pdf"));
    assert!(direct_render_uses_webview("markdown", "pdf"));
    assert!(direct_render_uses_webview("md", "pdf"));
    assert!(!direct_render_uses_webview("htm", "pdf"));
    assert!(!direct_render_uses_webview("txt", "pdf"));
}

#[test]
fn webview_detection_matches_supported_file_conversions() {
    assert!(file_render_uses_webview("html", "pdf"));
    assert!(file_render_uses_webview("htm", "PDF"));
    assert!(file_render_uses_webview("markdown", "pdf"));
    assert!(file_render_uses_webview("md", "pdf"));
    assert!(!file_render_uses_webview("csv", "pdf"));
}

#[test]
fn conversion_plans() {
    match conversion_plan("MD", "HTML") {
        ConversionPlan::Render { from, to, binary } => {
            assert_eq!(from, "markdown");
            assert_eq!(to, "html");
            assert!(!binary);
        }
        _ => panic!("expected a render plan"),
    }
    match conversion_plan("html", "pdf") {
        ConversionPlan::Render { binary, .. } => assert!(binary),
        _ => panic!("expected a render plan"),
    }
    match conversion_plan("xlsx", "txt") {
        ConversionPlan::Extract { format, to_text, .. } => {
            assert_eq!(format, DocFormat::Xlsx);
            assert!(to_text);
        }
        _ => panic!("expected an extraction"),
    }
    match conversion_plan("docx", "html") {
        ConversionPlan::Extract { format, to_text, error } => {
            assert_eq!(format, DocFormat::Docx);
            assert!(!to_text);
            assert_eq!(
                error,
                "unsupported conversion: .docx → .html (binary formats can only extract to .txt)"
            );
        }
        _ => panic!("expected an extraction"),
    }
    assert!(matches!(
        conversion_plan("csv", "txt"),
        ConversionPlan::Passthrough(DocFormat::Csv)
    ));
    match conversion_plan("csv", "pdf") {
        ConversionPlan::Unsupported(e) => assert_eq!(e, "unsupported conversion: .csv → .pdf"),
        _ => panic!("expected no plan"),
    }
}

#[test]
fn read_mode_resolution() {
    assert_eq!(DocFormat::Png.resolve_mode(None, true), ReadMode::Vision);
    assert_eq!(DocFormat::Pdf.resolve_mode(None, true), ReadMode::Vision);
    assert_eq!(DocFormat::Png.resolve_mode(None, false), ReadMode::Structured);
    assert_eq!(DocFormat::Docx.resolve_mode(None, true), ReadMode::Structured);
    assert_eq!(DocFormat::Png.resolve_mode(Some(ReadMode::Structured), true), ReadMode::Structured);
    assert_eq!(DocFormat::Txt.resolve_mode(Some(ReadMode::Vision), false), ReadMode::Vision);
}

#[test]
fn public_page_ranges() {
    assert_eq!(parse_page_range_public("2-3", 5), Ok(vec![1, 2]));
    assert!(parse_page_range_public("9", 5).is_err());
}

#[test]
fn vision_media_types() {
    assert_eq!(vision_media_type(DocFormat::Png), "image/png");
    assert_eq!(vision_media_type(DocFormat::Jpg), "image/jpeg");
    assert_eq!(vision_media_type(DocFormat::Pdf), "application/pdf");
    assert_eq!(vision_media_type(DocFormat::Csv), "text/csv");
}

#[test]
fn pdf_backend_errors_name_the_doc_function() {
    assert_eq!(
        canonical_pdf_backend_error("splitPdf: range '9' selects no pages".to_string()),
        "doc.splitPdf: range '9' selects no pages"
    );
    assert_eq!(
        canonical_pdf_backend_error("addAnnotation: page 4 does not exist (document has 3 pages)".to_string()),
        "doc.addAnnotation: page 4 does not exist (document has 3 pages)"
    );
    assert_eq!(canonical_pdf_backend_error("cannot load PDF: x".to_string()), "cannot load PDF: x");
}

#[test]
fn vision_cache_key_hashes_file_and_query() {
    assert_eq!(
        cache_key(b"", "abc"),
        "e3b0c44298fc1c149afbf4c8996fb92427ae41e4649b934ca495991b7852b855-\
         ba7816bf8f01cfea414140de5dae2223b00361a396177a9cb410ff61f20015ad"
    );
}

#[test]
fn deferred_reads_prefer_cache_then_callback() {
    assert_eq!(pending_read_step(Some("cached text".to_string()), true), ReadStep::Cached("cached text".to_string()));
    assert_eq!(pending_read_step(Some("cached text".to_string()), false), ReadStep::Cached("cached text".to_string()));
    assert_eq!(pending_read_step(None, true), ReadStep::AskCallback);
    assert_eq!(pending_read_step(None, false), ReadStep::ExtractLocally);
}

#[test]
fn callback_answers_are_final() {
    assert_eq!(callback_outcome(Ok("seen".to_string()), true), (Ok("seen".to_string()), true));
    assert_eq!(callback_outcome(Ok("seen".to_string()), false), (Ok("seen".to_string()), false));
    assert_eq!(callback_outcome(Err("vision down".to_string()), true), (Err("vision down".to_string()), false));
}

#[test]
fn extensions_ignore_case() {
    for ext in ["pdf", "PDF", "Pdf", "xlsx", "XLSX", "MarkDown", "HTM", "JPEG"] {
        assert_eq!(DocFormat::from_ext(ext), DocFormat::from_ext(&ext.to_lowercase()));
    }
    assert_eq!(DocFormat::from_ext("PDF"), Some(DocFormat::Pdf));
    assert_eq!(DocFormat::from_ext("JPEG"), Some(DocFormat::Jpg));
    assert_eq!(DocFormat::from_ext("EXE"), None);
}
