//! The names and argument checks of the `image` module: resampling filters,
//! blend modes, file formats, quarter turns and flip directions.

use vstd::prelude::*;
use crate::text::{push_str_chars, str_chars, str_eq, string_of, to_lowercase, unicode_lowercase};

verus! {

/// The resampling filters of `image.resize`.
#[derive(Debug, Clone, Copy, PartialEq, Eq, Structural)]
pub enum FilterType {
    Nearest,
    Triangle,
    CatmullRom,
    Lanczos3,
}

/// The image file formats.
#[derive(Debug, Clone, Copy, PartialEq, Eq, Structural)]
pub enum ImageFormat {
    Png,
    Jpeg,
    Gif,
    WebP,
    Bmp,
    Tiff,
    /// A format that the module reads but does not name.
    Other,
}

/// The filter a name stands for, in any case.
pub open spec fn filter_of(lower: Seq<char>) -> Option<FilterType> {
    if lower == "nearest"@ {
        Some(FilterType::Nearest)
    } else if lower == "bilinear"@ || lower == "triangle"@ {
        Some(FilterType::Triangle)
    } else if lower == "bicubic"@ || lower == "catmullrom"@ {
        Some(FilterType::CatmullRom)
    } else if lower == "lanczos3"@ || lower == "lanczos"@ {
        Some(FilterType::Lanczos3)
    } else {
        None
    }
}

/// The resampling filter of a name, or the error listing the names.
pub fn parse_filter(s: &str) -> (r: Result<FilterType, String>)
    ensures
        match filter_of(unicode_lowercase(s@)) {
            Some(f) => r == Ok::<FilterType, String>(f),
            None => r matches Err(e) && e@ == "image: unknown filter '"@ + s@
                + "'. Use: nearest, bilinear, bicubic, lanczos3"@,
        },
{
    let lower = to_lowercase(s);
    let l = lower.as_str();
    if str_eq(l, "nearest") {
        Ok(FilterType::Nearest)
    } else if str_eq(l, "bilinear") || str_eq(l, "triangle") {
        Ok(FilterType::Triangle)
    } else if str_eq(l, "bicubic") || str_eq(l, "catmullrom") {
        Ok(FilterType::CatmullRom)
    } else if str_eq(l, "lanczos3") || str_eq(l, "lanczos") {
        Ok(FilterType::Lanczos3)
    } else {
        let mut e = str_chars("image: unknown filter '");
        push_str_chars(&mut e, s);
        push_str_chars(&mut e, "'. Use: nearest, bilinear, bicubic, lanczos3");
        Err(string_of(&e))
    }
}

/// The blend modes of `image.composite`.
#[derive(Debug, Clone, Copy, PartialEq, Eq, Structural)]
pub enum BlendMode {
    Over,
    Multiply,
    Screen,
    Overlay,
    Darken,
    Lighten,
    Difference,
    Add,
}

/// The blend mode a name stands for (the names are case-sensitive).
pub open spec fn blend_mode_of(name: Seq<char>) -> Option<BlendMode> {
    if name == "over"@ {
        Some(BlendMode::Over)
    } else if name == "multiply"@ {
        Some(BlendMode::Multiply)
    } else if name == "screen"@ {
        Some(BlendMode::Screen)
    } else if name == "overlay"@ {
        Some(BlendMode::Overlay)
    } else if name == "darken"@ {
        Some(BlendMode::Darken)
    } else if name == "lighten"@ {
        Some(BlendMode::Lighten)
    } else if name == "difference"@ {
        Some(BlendMode::Difference)
    } else if name == "add"@ {
        Some(BlendMode::Add)
    } else {
        None
    }
}

/// The blend mode of a name, or the error listing the modes.
pub fn parse_blend_mode(mode: &str) -> (r: Result<BlendMode, String>)
    ensures
        match blend_mode_of(mode@) {
            Some(m) => r == Ok::<BlendMode, String>(m),
            None => r matches Err(e) && e@ == "image.composite: unknown blend mode '"@ + mode@
                + "'. Use: over, multiply, screen, overlay, darken, lighten, difference, add"@,
        },
{
    if str_eq(mode, "over") {
        Ok(BlendMode::Over)
    } else if str_eq(mode, "multiply") {
        Ok(BlendMode::Multiply)
    } else if str_eq(mode, "screen") {
        Ok(BlendMode::Screen)
    } else if str_eq(mode, "overlay") {
        Ok(BlendMode::Overlay)
    } else if str_eq(mode, "darken") {
        Ok(BlendMode::Darken)
    } else if str_eq(mode, "lighten") {
        Ok(BlendMode::Lighten)
    } else if str_eq(mode, "difference") {
        Ok(BlendMode::Difference)
    } else if str_eq(mode, "add") {
        Ok(BlendMode::Add)
    } else {
        let mut e = str_chars("image.composite: unknown blend mode '");
        push_str_chars(&mut e, mode);
        push_str_chars(&mut e, "'. Use: over, multiply, screen, overlay, darken, lighten, difference, add");
        Err(string_of(&e))
    }
}

/// The text after the last `.` of a path (all of it when it has none), as
/// `rsplit('.').next()` gives it.
pub open spec fn after_last_dot(s: Seq<char>) -> Seq<char>
    decreases s.len(),
{
    if s.len() == 0 {
        s
    } else if s.last() == '.' {
        seq![]
    } else {
        after_last_dot(s.drop_last()).push(s.last())
    }
}

fn after_last_dot_exec(s: &Vec<char>) -> (r: Vec<char>)
    ensures
        r@ == after_last_dot(s@),
{
    let mut start = s.len();
    while start > 0 && s[start - 1] != '.'
        invariant
            start <= s@.len(),
            forall|j: int| start <= j < s@.len() ==> s@[j] != '.',
        decreases start,
    {
        start -= 1;
    }
    let mut out: Vec<char> = Vec::new();
    let mut i = start;
    while i < s.len()
        invariant
            start <= i <= s@.len(),
            out@ == s@.subrange(start as int, i as int),
        decreases s.len() - i,
    {
        out.push(s[i]);
        i += 1;
        assert(out@ =~= s@.subrange(start as int, i as int));
    }
    proof {
        lemma_after_last_dot(s@, start as int);
    }
    out
}

proof fn lemma_after_last_dot(s: Seq<char>, start: int)
    requires
        0 <= start <= s.len(),
        forall|j: int| start <= j < s.len() ==> s[j] != '.',
        start == 0 || s[start - 1] == '.',
    ensures
        after_last_dot(s) == s.subrange(start, s.len() as int),
    decreases s.len(),
{
    if s.len() == 0 {
    } else if s.last() == '.' {
        assert(start == s.len());
        assert(s.subrange(start, s.len() as int) =~= seq![]);
    } else {
        let d = s.drop_last();
        lemma_after_last_dot(d, start);
        assert(s.subrange(start, s.len() as int) =~= d.subrange(start, d.len() as int).push(s.last()));
    }
}

/// The format of a lowercase extension.
pub open spec fn format_of_ext(ext: Seq<char>) -> Option<ImageFormat> {
    if ext == "png"@ {
        Some(ImageFormat::Png)
    } else if ext == "jpg"@ || ext == "jpeg"@ {
        Some(ImageFormat::Jpeg)
    } else if ext == "gif"@ {
        Some(ImageFormat::Gif)
    } else if ext == "webp"@ {
        Some(ImageFormat::WebP)
    } else if ext == "bmp"@ {
        Some(ImageFormat::Bmp)
    } else if ext == "tiff"@ || ext == "tif"@ {
        Some(ImageFormat::Tiff)
    } else {
        None
    }
}

/// The format to write a path in, from its extension in any case, or the
/// error listing the formats.
pub fn format_from_ext(path: &str) -> (r: Result<ImageFormat, String>)
    ensures
        ({
            let ext = unicode_lowercase(after_last_dot(path@));
            match format_of_ext(ext) {
                Some(f) => r == Ok::<ImageFormat, String>(f),
                None => r matches Err(e) && e@ == "image: unsupported format '."@ + ext
                    + "'. Use: png, jpg, gif, webp, bmp, tiff"@,
            }
        }),
{
    let tail = string_of(&after_last_dot_exec(&str_chars(path)));
    let ext = to_lowercase(tail.as_str());
    let e = ext.as_str();
    if str_eq(e, "png") {
        Ok(ImageFormat::Png)
    } else if str_eq(e, "jpg") || str_eq(e, "jpeg") {
        Ok(ImageFormat::Jpeg)
    } else if str_eq(e, "gif") {
        Ok(ImageFormat::Gif)
    } else if str_eq(e, "webp") {
        Ok(ImageFormat::WebP)
    } else if str_eq(e, "bmp") {
        Ok(ImageFormat::Bmp)
    } else if str_eq(e, "tiff") || str_eq(e, "tif") {
        Ok(ImageFormat::Tiff)
    } else {
        let mut m = str_chars("image: unsupported format '.");
        push_str_chars(&mut m, e);
        push_str_chars(&mut m, "'. Use: png, jpg, gif, webp, bmp, tiff");
        Err(string_of(&m))
    }
}

/// The name `image.info` gives a format.
pub fn format_name(fmt: ImageFormat) -> (r: &'static str)
    ensures
        r@ == match fmt {
            ImageFormat::Png => "png"@,
            ImageFormat::Jpeg => "jpeg"@,
            ImageFormat::Gif => "gif"@,
            ImageFormat::WebP => "webp"@,
            ImageFormat::Bmp => "bmp"@,
            ImageFormat::Tiff => "tiff"@,
            ImageFormat::Other => "unknown"@,
        },
{
    match fmt {
        ImageFormat::Png => "png",
        ImageFormat::Jpeg => "jpeg",
        ImageFormat::Gif => "gif",
        ImageFormat::WebP => "webp",
        ImageFormat::Bmp => "bmp",
        ImageFormat::Tiff => "tiff",
        ImageFormat::Other => "unknown",
    }
}

/// The quarter turns of `image.rotate`, clockwise.
#[derive(Debug, Clone, Copy, PartialEq, Eq, Structural)]
pub enum QuarterTurn {
    Right,
    Half,
    Left,
}

/// The turn of a whole number of degrees: 90, 180, and 270 or -90.
pub open spec fn quarter_turn_of(degrees: int) -> Option<QuarterTurn> {
    if degrees == 90 {
        Some(QuarterTurn::Right)
    } else if degrees == 180 {
        Some(QuarterTurn::Half)
    } else if degrees == 270 || degrees == -90 {
        Some(QuarterTurn::Left)
    } else {
        None
    }
}

/// The turn that `image.rotate` makes for its degrees (taken as a whole
/// number), or its error for any other angle.
pub fn parse_rotation(degrees: i32) -> (r: Result<QuarterTurn, String>)
    ensures
        match quarter_turn_of(degrees as int) {
            Some(t) => r == Ok::<QuarterTurn, String>(t),
            None => r matches Err(e) && e@ == "image.rotate: degrees must be 90, 180, or 270"@,
        },
{
    if degrees == 90 {
        Ok(QuarterTurn::Right)
    } else if degrees == 180 {
        Ok(QuarterTurn::Half)
    } else if degrees == 270 || degrees == -90 {
        Ok(QuarterTurn::Left)
    } else {
        Err("image.rotate: degrees must be 90, 180, or 270".to_string())
    }
}

/// The mirror axes of `image.flip`.
#[derive(Debug, Clone, Copy, PartialEq, Eq, Structural)]
pub enum FlipDirection {
    Horizontal,
    Vertical,
}

/// The direction a lower-case name stands for: `horizontal` or `h`,
/// `vertical` or `v`.
pub open spec fn flip_direction_of(lower: Seq<char>) -> Option<FlipDirection> {
    if lower == "horizontal"@ || lower == "h"@ {
        Some(FlipDirection::Horizontal)
    } else if lower == "vertical"@ || lower == "v"@ {
        Some(FlipDirection::Vertical)
    } else {
        None
    }
}

/// The direction of `image.flip`, read without regard to case, or its error.
pub fn parse_flip_direction(direction: &str) -> (r: Result<FlipDirection, String>)
    ensures
        match flip_direction_of(unicode_lowercase(direction@)) {
            Some(d) => r == Ok::<FlipDirection, String>(d),
            None => r matches Err(e) && e@ == "image.flip: direction must be 'horizontal' or 'vertical'"@,
        },
{
    let lower = to_lowercase(direction);
    let l = lower.as_str();
    if str_eq(l, "horizontal") || str_eq(l, "h") {
        Ok(FlipDirection::Horizontal)
    } else if str_eq(l, "vertical") || str_eq(l, "v") {
        Ok(FlipDirection::Vertical)
    } else {
        Err("image.flip: direction must be 'horizontal' or 'vertical'".to_string())
    }
}

} // verus!
