use cpsl::doc_extract::{
    convert_file, push_cell_text, read_docx, read_document, read_pptx, read_rtf, read_spreadsheet,
    rtf_escapes_safe_exec, slide_order, try_convert_file, try_read_document, whole_double_value,
    ConvertedFile, SheetCell,
};
use cpsl::doc_reader::{DocFormat, ReadOptions};
use std::io::Write;

fn zip_of(entries: &[(&str, &str)]) -> Vec<u8> {
    let mut w = zip::ZipWriter::new(std::io::Cursor::new(Vec::new()));
    for (name, text) in entries {
        w.start_file(*name, zip::write::SimpleFileOptions::default()).unwrap();
        w.write_all(text.as_bytes()).unwrap();
    }
    w.finish().unwrap().into_inner()
}

fn workbook() -> Vec<u8> {
    let rels_ns = "http://schemas.openxmlformats.org/package/2006/relationships";
    let main_ns = "http://schemas.openxmlformats.org/spreadsheetml/2006/main";
    let types = "<?xml version=\"1.0\" encoding=\"UTF-8\" standalone=\"yes\"?>\
        <Types xmlns=\"http://schemas.openxmlformats.org/package/2006/content-types\">\
        <Default Extension=\"rels\" ContentType=\"application/vnd.openxmlformats-package.relationships+xml\"/>\
        <Default Extension=\"xml\" ContentType=\"application/xml\"/>\
        <Override PartName=\"/xl/workbook.xml\" ContentType=\"application/vnd.openxmlformats-officedocument.spreadsheetml.sheet.main+xml\"/>\
        <Override PartName=\"/xl/worksheets/sheet1.xml\" ContentType=\"application/vnd.openxmlformats-officedocument.spreadsheetml.worksheet+xml\"/>\
        <Override PartName=\"/xl/worksheets/sheet2.xml\" ContentType=\"application/vnd.openxmlformats-officedocument.spreadsheetml.worksheet+xml\"/>\
        </Types>";
    let root_rels = format!(
        "<Relationships xmlns=\"{}\"><Relationship Id=\"rId1\" \
         Type=\"http://schemas.openxmlformats.org/officeDocument/2006/relationships/officeDocument\" \
         Target=\"xl/workbook.xml\"/></Relationships>",
        rels_ns
    );
    let book = format!(
        "<workbook xmlns=\"{}\" xmlns:r=\"http://schemas.openxmlformats.org/officeDocument/2006/relationships\">\
         <sheets><sheet name=\"Data\" sheetId=\"1\" r:id=\"rId1\"/><sheet name=\"Notes\" sheetId=\"2\" r:id=\"rId2\"/></sheets></workbook>",
        main_ns
    );
    let book_rels = format!(
        "<Relationships xmlns=\"{}\">\
         <Relationship Id=\"rId1\" Type=\"http://schemas.openxmlformats.org/officeDocument/2006/relationships/worksheet\" Target=\"worksheets/sheet1.xml\"/>\
         <Relationship Id=\"rId2\" Type=\"http://schemas.openxmlformats.org/officeDocument/2006/relationships/worksheet\" Target=\"worksheets/sheet2.xml\"/>\
         </Relationships>",
        rels_ns
    );
    let sheet1 = format!(
        "<worksheet xmlns=\"{}\"><sheetData>\
         <row r=\"1\"><c r=\"A1\" t=\"inlineStr\"><is><t>name</t></is></c><c r=\"B1\" t=\"inlineStr\"><is><t>qty</t></is></c></row>\
         <row r=\"2\"><c r=\"A2\" t=\"inlineStr\"><is><t>apple</t></is></c><c r=\"B2\"><v>3</v></c></row>\
         <row r=\"3\"><c r=\"A3\" t=\"inlineStr\"><is><t>pear</t></is></c><c r=\"B3\"><v>2.5</v></c></row>\
         </sheetData></worksheet>",
        main_ns
    );
    let sheet2 = format!(
        "<worksheet xmlns=\"{}\"><sheetData>\
         <row r=\"1\"><c r=\"A1\" t=\"inlineStr\"><is><t>ok</t></is></c><c r=\"B1\" t=\"b\"><v>1</v></c></row>\
         </sheetData></worksheet>",
        main_ns
    );
    zip_of(&[
        ("[Content_Types].xml", types),
        ("_rels/.rels", &root_rels),
        ("xl/workbook.xml", &book),
        ("xl/_rels/workbook.xml.rels", &book_rels),
        ("xl/worksheets/sheet1.xml", &sheet1),
        ("xl/worksheets/sheet2.xml", &sheet2),
    ])
}

fn cell(c: SheetCell) -> String {
    let mut out = Vec::new();
    push_cell_text(&mut out, &c);
    out.into_iter().collect()
}

#[test]
fn test_image_format_local_extraction_fails() {
    let data = b"fake image data";
    for format in [
        DocFormat::Png,
        DocFormat::Jpg,
        DocFormat::Webp,
        DocFormat::Gif,
    ] {
        let result = read_document(data, format, &ReadOptions::default());
        assert!(result.is_err(), "expected error for {:?}", format);
        assert!(result.unwrap_err().contains("requires vision callback"));
    }
}

#[test]
fn test_plain_text_roundtrip() {
    let data = b"Hello, world!";
    let result = read_document(data, DocFormat::Txt, &ReadOptions::default()).unwrap();
    assert_eq!(result, "Hello, world!");
}

#[test]
fn test_csv_roundtrip() {
    let data = b"a,b,c\n1,2,3\n";
    let result = read_document(data, DocFormat::Csv, &ReadOptions::default()).unwrap();
    assert_eq!(result, "a,b,c\n1,2,3\n");
}

#[test]
fn test_invalid_utf8_text_is_an_error() {
    let err = read_document(&[0x61, 0xff, 0x62], DocFormat::Json, &ReadOptions::default()).unwrap_err();
    let expected = format!("invalid UTF-8: {}", String::from_utf8(vec![0x61, 0xff, 0x62]).unwrap_err());
    assert_eq!(err, expected);
}

#[test]
fn test_html_document_text() {
    let data = b"<p>Hello</p><p>there</p><script>x()</script>";
    let text = read_document(data, DocFormat::Html, &ReadOptions::default()).unwrap();
    assert_eq!(text, "Hello\nthere");
}

#[test]
fn test_pdf_needs_pdfium() {
    let err = read_document(b"%PDF-1.4", DocFormat::Pdf, &ReadOptions::default()).unwrap_err();
    assert_eq!(
        err,
        "PDF text extraction requires PDFium (enable pdfium-render feature and provide PDFium binary)"
    );
}

#[test]
fn test_rtf_text_and_encoding_error() {
    let rtf = r"{\rtf1\ansi{\fonttbl\f0\fswiss Helvetica;}\f0\pard Voici du texte en {\b gras}.\par }";
    let text = read_document(rtf.as_bytes(), DocFormat::Rtf, &ReadOptions::default()).unwrap();
    assert_eq!(text, rtf_parser::parse_rtf(rtf.to_string()).get_text());
    assert!(text.contains("Voici du texte en"));
    let err = read_document(&[0xff], DocFormat::Rtf, &ReadOptions::default()).unwrap_err();
    assert!(err.starts_with("invalid RTF encoding: "));
    let bad = try_read_document(b"\\'", DocFormat::Rtf, &ReadOptions::default());
    assert!(bad.is_none());
}

#[test]
fn test_docx_text() {
    let xml = "<w:document xmlns:w=\"urn:w\"><w:body><w:p><w:r><w:t>Hello </w:t></w:r>\
               <w:r><w:t>World</w:t></w:r></w:p></w:body></w:document>";
    let data = zip_of(&[("word/document.xml", xml)]);
    assert_eq!(read_docx(&data).unwrap(), "Hello World");
    assert_eq!(read_document(&data, DocFormat::Docx, &ReadOptions::default()).unwrap(), "Hello World");
}

#[test]
fn test_docx_errors() {
    let data = zip_of(&[("other.xml", "<a/>")]);
    assert!(read_docx(&data).unwrap_err().starts_with("cannot read word/document.xml: "));
    assert!(read_docx(b"not a zip").unwrap_err().starts_with("cannot open docx: "));
    let broken = zip_of(&[("word/document.xml", "<w:t>a</w:x>")]);
    assert!(read_docx(&broken).unwrap_err().starts_with("XML parse error: "));
}

#[test]
fn test_pptx_slides_in_number_order() {
    let slide = |t: &str| format!("<p:sld xmlns:a=\"urn:a\" xmlns:p=\"urn:p\"><a:t>{}</a:t></p:sld>", t);
    let ten = slide("ten");
    let two = slide("two");
    let one = slide("one");
    let data = zip_of(&[
        ("ppt/slides/slide10.xml", &ten),
        ("ppt/slides/slide2.xml", &two),
        ("ppt/presentation.xml", "<p:presentation xmlns:p=\"urn:p\"/>"),
        ("ppt/slides/slide3.xml", "<p:sld xmlns:p=\"urn:p\"/>"),
        ("ppt/slides/slide1.xml", &one),
    ]);
    assert_eq!(read_pptx(&data).unwrap(), "one\ntwo\nten");
    assert!(read_pptx(b"junk").unwrap_err().starts_with("cannot open pptx: "));
}

#[test]
fn test_slide_order_is_stable_by_number() {
    let names: Vec<String> = [
        "ppt/slides/slide3.xml",
        "docProps/app.xml",
        "ppt/slides/slide1.xml",
        "ppt/slides/slideX.xml",
        "ppt/slides/slide2.xml",
        "ppt/slides/slide0.xml",
    ]
    .iter()
    .map(|s| s.to_string())
    .collect();
    assert_eq!(
        slide_order(&names),
        vec![
            "ppt/slides/slideX.xml",
            "ppt/slides/slide0.xml",
            "ppt/slides/slide1.xml",
            "ppt/slides/slide2.xml",
            "ppt/slides/slide3.xml",
        ]
    );
}

#[test]
fn test_whole_double_value_matches_integer_round_trip() {
    let values = [
        0.0f64,
        -0.0,
        1.0,
        -1.0,
        3.5,
        0.1,
        1e15,
        9007199254740992.0,
        1152921504606846976.0,
        9223372036854775808.0,
        -9223372036854775808.0,
        18446744073709551616.0,
        -18446744073709551616.0,
        1e300,
        5e-324,
        f64::NAN,
        f64::INFINITY,
        f64::NEG_INFINITY,
        123456789.0,
        -4503599627370497.0,
        2251799813685247.5,
    ];
    for f in values {
        let expected = if f == (f as i64) as f64 { Some(f as i64) } else { None };
        assert_eq!(whole_double_value(f.to_bits()), expected, "value {}", f);
    }
}

#[test]
fn test_cell_texts() {
    assert_eq!(cell(SheetCell::Float(3.0f64.to_bits(), "3".to_string())), "3");
    assert_eq!(cell(SheetCell::Float((-0.0f64).to_bits(), "-0".to_string())), "0");
    assert_eq!(cell(SheetCell::Float(2.5f64.to_bits(), "2.5".to_string())), "2.5");
    assert_eq!(
        cell(SheetCell::Float(1e20f64.to_bits(), "100000000000000000000".to_string())),
        "100000000000000000000"
    );
    assert_eq!(
        cell(SheetCell::Float(9223372036854775808.0f64.to_bits(), "9223372036854775808".to_string())),
        "9223372036854775807"
    );
    assert_eq!(cell(SheetCell::Int(-42)), "-42");
    assert_eq!(cell(SheetCell::Int(i64::MIN)), "-9223372036854775808");
    assert_eq!(cell(SheetCell::Bool(true)), "true");
    assert_eq!(cell(SheetCell::Bool(false)), "false");
    assert_eq!(cell(SheetCell::Error("Div0".to_string())), "#Div0");
    assert_eq!(cell(SheetCell::Empty), "");
    assert_eq!(cell(SheetCell::Text("abc".to_string())), "abc");
}

#[test]
fn test_spreadsheet_all_sheets() {
    let data = workbook();
    let text = read_document(&data, DocFormat::Xlsx, &ReadOptions::default()).unwrap();
    assert_eq!(text, "--- Data ---\nname\tqty\napple\t3\npear\t2.5\n\n--- Notes ---\nok\ttrue\n");
}

#[test]
fn test_spreadsheet_one_sheet_and_errors() {
    let data = workbook();
    let opts = |n: usize| ReadOptions { sheet: Some(n), mode: None };
    assert_eq!(read_spreadsheet(&data, &opts(2)).unwrap(), "--- Notes ---\nok\ttrue\n");
    assert_eq!(read_spreadsheet(&data, &opts(0)).unwrap_err(), "sheet number must be >= 1");
    assert_eq!(
        read_spreadsheet(&data, &opts(5)).unwrap_err(),
        "sheet 5 does not exist (workbook has 2 sheets)"
    );
    assert!(read_spreadsheet(b"no workbook", &ReadOptions::default())
        .unwrap_err()
        .starts_with("cannot open spreadsheet: "));
}

#[test]
fn test_unicode_text_round_trip() {
    let text = "héllo — ünïcode ✓\n第二行";
    for format in [DocFormat::Txt, DocFormat::Csv, DocFormat::Json, DocFormat::Md] {
        assert_eq!(
            read_document(text.as_bytes(), format, &ReadOptions::default()).unwrap(),
            text
        );
    }
}

fn output_bytes(converted: ConvertedFile) -> Vec<u8> {
    match converted {
        ConvertedFile::Text(text) => text.into_bytes(),
        ConvertedFile::RenderPdf { .. } => panic!("expected a text output"),
    }
}

#[test]
fn test_rtf_basic() {
    // Minimal RTF document
    let rtf = r"{\rtf1 Hello World}";
    let result = read_rtf(rtf.as_bytes()).unwrap();
    assert!(result.contains("Hello World"), "got: {}", result);
}

#[test]
fn test_convert_md_to_html() {
    let data = b"# Hello\n\nWorld";
    let result = output_bytes(convert_file(data, "md", "html", &ReadOptions::default()).unwrap());
    let html = String::from_utf8(result).unwrap();
    assert!(html.contains("<h1>Hello</h1>"), "got: {}", html);
    assert!(html.contains("<p>World</p>"), "got: {}", html);
}

#[test]
fn test_convert_html_to_txt() {
    let data = b"<p>Hello <b>World</b></p>";
    let result = output_bytes(convert_file(data, "html", "txt", &ReadOptions::default()).unwrap());
    let text = String::from_utf8(result).unwrap();
    assert_eq!(text, "Hello World");
}

#[test]
fn test_convert_csv_to_txt() {
    let data = b"a,b,c\n1,2,3\n";
    let result = output_bytes(convert_file(data, "csv", "txt", &ReadOptions::default()).unwrap());
    let text = String::from_utf8(result).unwrap();
    assert_eq!(text, "a,b,c\n1,2,3\n");
}

#[test]
fn test_convert_unsupported_pair() {
    let data = b"hello";
    let err = match convert_file(data, "csv", "pdf", &ReadOptions::default()) {
        Err(e) => e,
        Ok(_) => panic!("expected an error"),
    };
    assert!(err.contains("unsupported conversion"), "got: {}", err);
}

#[test]
fn test_convert_case_insensitive() {
    let data = b"# Test";
    let result = output_bytes(convert_file(data, "MD", "HTML", &ReadOptions::default()).unwrap());
    let html = String::from_utf8(result).unwrap();
    assert!(html.contains("<h1>Test</h1>"), "got: {}", html);
}

#[test]
fn test_convert_to_pdf_asks_for_rendering() {
    match convert_file(b"# Title", "md", "pdf", &ReadOptions::default()).unwrap() {
        ConvertedFile::RenderPdf { html, error_prefix } => {
            assert!(html.contains("<h1>Title</h1>"), "got: {}", html);
            assert_eq!(error_prefix, "markdown→PDF: ");
        }
        ConvertedFile::Text(_) => panic!("expected a rendering request"),
    }
    match convert_file(b"<p>x</p>", "htm", "pdf", &ReadOptions::default()).unwrap() {
        ConvertedFile::RenderPdf { html, error_prefix } => {
            assert_eq!(html, "<p>x</p>");
            assert_eq!(error_prefix, "HTML→PDF: ");
        }
        ConvertedFile::Text(_) => panic!("expected a rendering request"),
    }
    match convert_file(b"plain", "txt", "pdf", &ReadOptions::default()) {
        Err(e) => assert_eq!(e, "unsupported conversion: text → pdf (binary)"),
        Ok(_) => panic!("expected an error"),
    }
}

#[test]
fn test_convert_binary_documents_extract_to_text_only() {
    let xml = "<w:document xmlns:w=\"urn:w\"><w:t>Body</w:t></w:document>";
    let data = zip_of(&[("word/document.xml", xml)]);
    let text = output_bytes(convert_file(&data, "DOCX", "txt", &ReadOptions::default()).unwrap());
    assert_eq!(String::from_utf8(text).unwrap(), "Body");
    match convert_file(&data, "docx", "html", &ReadOptions::default()) {
        Err(e) => assert_eq!(
            e,
            "unsupported conversion: .docx → .html (binary formats can only extract to .txt)"
        ),
        Ok(_) => panic!("expected an error"),
    }
    assert!(try_convert_file(b"\\'", "rtf", "txt", &ReadOptions::default()).is_none());
    match convert_file(&[0xff], "md", "html", &ReadOptions::default()) {
        Err(e) => assert!(e.starts_with("invalid UTF-8 input: "), "got: {}", e),
        Ok(_) => panic!("expected an error"),
    }
}

#[test]
fn test_rtf_surrogate_escapes_are_refused() {
    let opts = ReadOptions::default();
    assert!(try_read_document(br"{\rtf1 \u55296 ?}", DocFormat::Rtf, &opts).is_none());
    assert!(try_read_document(br"{\rtf1 \u-10179 ?\u-8704 ?}", DocFormat::Rtf, &opts).is_none());
    let accented = try_read_document(br"{\rtf1 caf\'e9 \u233 ?}", DocFormat::Rtf, &opts);
    assert!(matches!(accented, Some(Ok(_))));
    assert!(rtf_escapes_safe_exec(r"{\rtf1 \u233 \uc1 \u-4000 x}"));
    assert!(!rtf_escapes_safe_exec(r"\u57343"));
    assert!(!rtf_escapes_safe_exec(r"\u-8193"));
    assert!(rtf_escapes_safe_exec(r"\u57344 \u-8192 \u5529 \u552960"));
}

#[test]
fn test_rtf_surrogate_pairs_and_unicode_counts() {
    let opts = ReadOptions::default();
    match try_read_document(br"{\rtf1 A\u55357\u56832 B}", DocFormat::Rtf, &opts) {
        Some(Ok(text)) => assert!(text.contains('\u{1F600}')),
        other => panic!("expected the text of the document, got {:?}", other),
    }
    match try_read_document(br"{\rtf1 A\u-10179\u-8704 B}", DocFormat::Rtf, &opts) {
        Some(Ok(text)) => assert!(text.contains('\u{1F600}')),
        other => panic!("expected the text of the document, got {:?}", other),
    }
    assert!(try_read_document(br"{\rtf1\uc-5\u65 A}", DocFormat::Rtf, &opts).is_none());
    assert!(try_read_document(br"{\rtf1\uc70000\u65 A}", DocFormat::Rtf, &opts).is_none());
    assert!(matches!(try_read_document(br"{\rtf1\uc0\u65 A}", DocFormat::Rtf, &opts), Some(Ok(_))));
    assert!(rtf_escapes_safe_exec(r"\uc2 \u55357\u56832\'41 x"));
    assert!(!rtf_escapes_safe_exec(r"\uc-1 x"));
    assert!(!rtf_escapes_safe_exec(r"\u55357\u56832x"));
    assert!(!rtf_escapes_safe_exec(r"\\\u55357\u56832 x"));
    assert!(!rtf_escapes_safe_exec(r"\u55357\u56832\u56832 x"));
    assert!(!rtf_escapes_safe_exec(r"\u56832\u55357 x"));
}
