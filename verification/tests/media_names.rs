use cpsl::doc::{deny_disallowed_webview_pdf, format_for_path, parse_hex_color, RenderPolicyError};
use cpsl::http::{parse_method, Method};
use cpsl::image_ops::{
    format_from_ext, format_name, parse_blend_mode, parse_filter, parse_flip_direction, parse_rotation,
    BlendMode, FilterType, FlipDirection, ImageFormat, QuarterTurn,
};

#[test]
fn filters_by_name() {
    assert_eq!(parse_filter("Nearest").ok(), Some(FilterType::Nearest));
    assert_eq!(parse_filter("bilinear").ok(), Some(FilterType::Triangle));
    assert_eq!(parse_filter("CatmullRom").ok(), Some(FilterType::CatmullRom));
    assert_eq!(parse_filter("lanczos").ok(), Some(FilterType::Lanczos3));
    match parse_filter("Box") {
        Err(e) => assert_eq!(e, "image: unknown filter 'Box'. Use: nearest, bilinear, bicubic, lanczos3"),
        Ok(_) => panic!("unknown filter accepted"),
    }
}

#[test]
fn formats_by_extension() {
    assert_eq!(format_from_ext("out/photo.JPG").ok(), Some(ImageFormat::Jpeg));
    assert_eq!(format_from_ext("a.b.tif").ok(), Some(ImageFormat::Tiff));
    assert_eq!(format_from_ext("x.webp").ok(), Some(ImageFormat::WebP));
    match format_from_ext("noext") {
        Err(e) => assert_eq!(e, "image: unsupported format '.noext'. Use: png, jpg, gif, webp, bmp, tiff"),
        Ok(_) => panic!("missing extension accepted"),
    }
    match format_from_ext("file.") {
        Err(e) => assert_eq!(e, "image: unsupported format '.'. Use: png, jpg, gif, webp, bmp, tiff"),
        Ok(_) => panic!("empty extension accepted"),
    }
    assert_eq!(format_name(ImageFormat::Jpeg), "jpeg");
    assert_eq!(format_name(ImageFormat::Other), "unknown");
}

#[test]
fn methods_by_name() {
    assert_eq!(parse_method("get").ok(), Some(Method::Get));
    assert_eq!(parse_method("Patch").ok(), Some(Method::Patch));
    assert_eq!(parse_method("OPTIONS").ok(), Some(Method::Options));
    match parse_method("brew") {
        Err(e) => assert_eq!(e, "http: unsupported method 'brew'"),
        Ok(_) => panic!("unknown method accepted"),
    }
}

#[test]
fn render_formats_and_policy() {
    assert_eq!(format_for_path("/out/report.pdf", None, "to", "output").ok().unwrap(), "pdf");
    assert_eq!(format_for_path("/out/report", Some("html"), "to", "output").ok().unwrap(), "html");
    match format_for_path("/out/report", None, "to", "output") {
        Err(e) => assert_eq!(e, "cannot infer output format from '/out/report' \u{2014} pass {to=\"...\"}"),
        Ok(_) => panic!("format inferred without extension"),
    }
    assert!(format_for_path("/out/report.md", Some(""), "from", "input").is_err());
    assert_eq!(deny_disallowed_webview_pdf(true, false), Err(RenderPolicyError::WebviewPdfNotAllowed));
    assert_eq!(deny_disallowed_webview_pdf(true, true), Ok(()));
    assert_eq!(deny_disallowed_webview_pdf(false, false), Ok(()));
}

#[test]
fn blend_modes_by_name() {
    assert_eq!(parse_blend_mode("over"), Ok(BlendMode::Over));
    assert_eq!(parse_blend_mode("multiply"), Ok(BlendMode::Multiply));
    assert_eq!(parse_blend_mode("difference"), Ok(BlendMode::Difference));
    assert_eq!(parse_blend_mode("add"), Ok(BlendMode::Add));
    assert_eq!(
        parse_blend_mode("Over").unwrap_err(),
        "image.composite: unknown blend mode 'Over'. Use: over, multiply, screen, overlay, darken, lighten, difference, add"
    );
}

#[test]
fn hex_colors_take_hex_digits_only() {
    assert_eq!(parse_hex_color("#FF0000"), Ok((255, 0, 0, 255)));
    assert_eq!(parse_hex_color("00000040"), Ok((0, 0, 0, 64)));
    assert_eq!(parse_hex_color("#a0B1c2"), Ok((160, 177, 194, 255)));
    assert_eq!(
        parse_hex_color("#12345").unwrap_err(),
        "invalid color format '12345' (expected #RRGGBB or #RRGGBBAA)"
    );
    assert_eq!(parse_hex_color("#GG0000").unwrap_err(), "invalid color: #GG0000");
    assert_eq!(parse_hex_color("#+F+F+F").unwrap_err(), "invalid color: #+F+F+F");
    assert_eq!(parse_hex_color("#a€bc").unwrap_err(), "invalid color: #a€bc");
}

#[test]
fn rotations_are_quarter_turns() {
    assert_eq!(parse_rotation(90), Ok(QuarterTurn::Right));
    assert_eq!(parse_rotation(180), Ok(QuarterTurn::Half));
    assert_eq!(parse_rotation(270), Ok(QuarterTurn::Left));
    assert_eq!(parse_rotation(-90), Ok(QuarterTurn::Left));
    assert_eq!(parse_rotation(45).unwrap_err(), "image.rotate: degrees must be 90, 180, or 270");
    assert!(parse_rotation(0).is_err());
    assert!(parse_rotation(360).is_err());
}

#[test]
fn flip_directions_ignore_case() {
    assert_eq!(parse_flip_direction("horizontal"), Ok(FlipDirection::Horizontal));
    assert_eq!(parse_flip_direction("H"), Ok(FlipDirection::Horizontal));
    assert_eq!(parse_flip_direction("Vertical"), Ok(FlipDirection::Vertical));
    assert_eq!(parse_flip_direction("v"), Ok(FlipDirection::Vertical));
    assert_eq!(
        parse_flip_direction("diagonal").unwrap_err(),
        "image.flip: direction must be 'horizontal' or 'vertical'"
    );
}

#[test]
fn ascii_names_are_read_in_any_case() {
    assert_eq!(parse_method("get").unwrap(), Method::Get);
    assert_eq!(parse_method("Delete").unwrap(), Method::Delete);
    assert!(parse_method("fetch").is_err());
}
