//! The checks each tool makes on its request before it touches a file, and
//! the checks on the directories it works in.
use vstd::prelude::*;

use crate::models::{
    BatchImageWatermarkInput, BatchImageWatermarkPreviewInput, BatchPdfTextWatermarkInput,
    BatchPdfWatermarkPreviewInput, BatchVideoWatermarkInput, PdfTextWatermarkInput,
};
use crate::paths::{is_absolute, path_components, path_starts_with, path_starts_with_exec};
use crate::text::{ascii_lower_seq, chars_of, lower_ascii, push_all, string_of, trim};
use crate::validation::{
    build_pdf_text_watermark_options, build_slanted_watermark_options,
    ensure_distinct_directories, ensure_trailing_separator, normalized_directory,
    pdf_options_error, require_value, slanted_options_error, Binary32, PdfTextWatermarkOptions,
    SlantedWatermarkOptions,
};

verus! {

// ---------------------------------------------------------------------------
// The rotation of image watermarks
// ---------------------------------------------------------------------------

/// The rotation used for image watermarks: minus one radian in degrees, as
/// `(-1.0f32).to_degrees()` gives it (about -57.29578).
pub open spec fn default_rotation() -> Binary32 {
    Binary32 { bits: 0xc265_2ee1u32 }
}

/// The rotation used for image watermarks.
pub fn default_slanted_watermark_rotation_degrees() -> (r: Binary32)
    ensures
        r == default_rotation(),
{
    Binary32 { bits: 0xc265_2ee1u32 }
}

// ---------------------------------------------------------------------------
// Shared pieces of the error order
// ---------------------------------------------------------------------------

/// The error for a blank value: `{label}不能为空`.
pub open spec fn blank(label: Seq<char>) -> Seq<char> {
    label + "不能为空"@
}

/// The first failing check on a pair of input and output directories:
/// both given, and distinct once trailing separators are dropped.
pub open spec fn directory_pair_error(input_dir: Seq<char>, output_dir: Seq<char>) -> Option<
    Seq<char>,
> {
    if trim(input_dir).len() == 0 {
        Some(blank("输入目录"@))
    } else if trim(output_dir).len() == 0 {
        Some(blank("输出目录"@))
    } else if normalized_directory(trim(input_dir)) == normalized_directory(trim(output_dir)) {
        Some("输入目录与输出目录不能相同"@)
    } else {
        None
    }
}

/// The first failing check on a watermark text and slanted options.
pub open spec fn slanted_request_error(
    text: Seq<char>,
    line_count: u32,
    opacity: Binary32,
    rotation: Binary32,
    stripe_gap: Binary32,
    row_gap: Binary32,
) -> Option<Seq<char>> {
    if trim(text).len() == 0 {
        Some(blank("水印文字"@))
    } else {
        slanted_options_error(line_count, opacity, rotation, stripe_gap, row_gap)
    }
}

/// The first failing check on a watermark text and PDF options.
pub open spec fn pdf_request_error(
    text: Seq<char>,
    font_ratio: Binary32,
    opacity: Binary32,
    rotation: Binary32,
    stripe_gap: Binary32,
    row_gap: Binary32,
) -> Option<Seq<char>> {
    if trim(text).len() == 0 {
        Some(blank("水印文字"@))
    } else {
        pdf_options_error(font_ratio, opacity, rotation, stripe_gap, row_gap)
    }
}

/// Slanted options that hold the given values, with the text trimmed.
pub open spec fn slanted_options_hold(
    o: SlantedWatermarkOptions,
    text: Seq<char>,
    line_count: u32,
    full_screen: bool,
    opacity: Binary32,
    rotation: Binary32,
    stripe_gap: Binary32,
    row_gap: Binary32,
) -> bool {
    &&& o.text@ == trim(text)
    &&& o.line_count == line_count
    &&& o.full_screen == full_screen
    &&& o.opacity == opacity
    &&& o.rotation_degrees == rotation
    &&& o.stripe_gap_chars == stripe_gap
    &&& o.row_gap_lines == row_gap
}

/// PDF options that hold the given values, with the text trimmed.
pub open spec fn pdf_options_hold(
    o: PdfTextWatermarkOptions,
    text: Seq<char>,
    font_ratio: Binary32,
    opacity: Binary32,
    rotation: Binary32,
    stripe_gap: Binary32,
    row_gap: Binary32,
) -> bool {
    &&& o.text@ == trim(text)
    &&& o.long_edge_font_ratio == font_ratio
    &&& o.opacity == opacity
    &&& o.rotation_degrees == rotation
    &&& o.stripe_gap_chars == stripe_gap
    &&& o.row_gap_lines == row_gap
}

/// Requires a watermark text and builds slanted options from it.
fn slanted_options_for(
    text: String,
    line_count: u32,
    full_screen: bool,
    opacity: Binary32,
    rotation: Binary32,
    stripe_gap: Binary32,
    row_gap: Binary32,
) -> (r: Result<SlantedWatermarkOptions, String>)
    ensures
        match slanted_request_error(text@, line_count, opacity, rotation, stripe_gap, row_gap) {
            Some(m) => r matches Err(e) && e@ == m,
            None => r matches Ok(o) && slanted_options_hold(
                o,
                text@,
                line_count,
                full_screen,
                opacity,
                rotation,
                stripe_gap,
                row_gap,
            ),
        },
{
    let text = require_value("水印文字", text)?;
    build_slanted_watermark_options(
        text.as_str(),
        line_count,
        full_screen,
        opacity,
        rotation,
        stripe_gap,
        row_gap,
    )
}

/// Requires a watermark text and builds PDF options from it.
fn pdf_options_for(
    text: String,
    font_ratio: Binary32,
    opacity: Binary32,
    rotation: Binary32,
    stripe_gap: Binary32,
    row_gap: Binary32,
) -> (r: Result<PdfTextWatermarkOptions, String>)
    ensures
        match pdf_request_error(text@, font_ratio, opacity, rotation, stripe_gap, row_gap) {
            Some(m) => r matches Err(e) && e@ == m,
            None => r matches Ok(o) && pdf_options_hold(
                o,
                text@,
                font_ratio,
                opacity,
                rotation,
                stripe_gap,
                row_gap,
            ),
        },
{
    let text = require_value("水印文字", text)?;
    build_pdf_text_watermark_options(
        text.as_str(),
        font_ratio,
        opacity,
        rotation,
        stripe_gap,
        row_gap,
    )
}

/// Requires both directories, trimmed and distinct.
fn directory_pair(input_dir: String, output_dir: String) -> (r: Result<(String, String), String>)
    ensures
        match directory_pair_error(input_dir@, output_dir@) {
            Some(m) => r matches Err(e) && e@ == m,
            None => r matches Ok((i, o)) && i@ == trim(input_dir@) && o@ == trim(output_dir@),
        },
{
    let input_dir = require_value("输入目录", input_dir)?;
    let output_dir = require_value("输出目录", output_dir)?;
    ensure_distinct_directories(input_dir.as_str(), output_dir.as_str())?;
    Ok((input_dir, output_dir))
}

// ---------------------------------------------------------------------------
// Batch tools
// ---------------------------------------------------------------------------

/// A batch over the images or videos of a directory, with its options.
#[derive(Debug)]
pub struct SlantedWatermarkJob {
    pub input_dir: String,
    pub output_dir: String,
    pub options: SlantedWatermarkOptions,
}

/// A batch over the PDF files of a directory, with its options.
#[derive(Debug)]
pub struct PdfWatermarkJob {
    pub input_dir: String,
    pub output_dir: String,
    pub options: PdfTextWatermarkOptions,
}

/// The first failing check of the image batch: the directories, then the
/// watermark text and options (the rotation is the image default).
pub open spec fn image_batch_error(p: BatchImageWatermarkInput) -> Option<Seq<char>> {
    match directory_pair_error(p.input_dir@, p.output_dir@) {
        Some(m) => Some(m),
        None => slanted_request_error(
            p.watermark_text@,
            p.watermark_line_count,
            p.watermark_opacity,
            default_rotation(),
            p.watermark_stripe_gap_chars,
            p.watermark_row_gap_lines,
        ),
    }
}

/// Checks the request of the image batch tool, before any file is read.
pub fn prepare_batch_image_watermark(payload: BatchImageWatermarkInput) -> (r: Result<
    SlantedWatermarkJob,
    String,
>)
    ensures
        match image_batch_error(payload) {
            Some(m) => r matches Err(e) && e@ == m,
            None => r matches Ok(j) && j.input_dir@ == trim(payload.input_dir@) && j.output_dir@
                == trim(payload.output_dir@) && slanted_options_hold(
                j.options,
                payload.watermark_text@,
                payload.watermark_line_count,
                payload.watermark_full_screen,
                payload.watermark_opacity,
                default_rotation(),
                payload.watermark_stripe_gap_chars,
                payload.watermark_row_gap_lines,
            ),
        },
{
    let (input_dir, output_dir) = directory_pair(payload.input_dir, payload.output_dir)?;
    let options = slanted_options_for(
        payload.watermark_text,
        payload.watermark_line_count,
        payload.watermark_full_screen,
        payload.watermark_opacity,
        default_slanted_watermark_rotation_degrees(),
        payload.watermark_stripe_gap_chars,
        payload.watermark_row_gap_lines,
    )?;
    Ok(SlantedWatermarkJob { input_dir, output_dir, options })
}

/// The first failing check of the video batch: the directories, then the
/// watermark text and options.
pub open spec fn video_batch_error(p: BatchVideoWatermarkInput) -> Option<Seq<char>> {
    match directory_pair_error(p.input_dir@, p.output_dir@) {
        Some(m) => Some(m),
        None => slanted_request_error(
            p.watermark_text@,
            p.watermark_line_count,
            p.watermark_opacity,
            p.watermark_rotation_degrees,
            p.watermark_stripe_gap_chars,
            p.watermark_row_gap_lines,
        ),
    }
}

/// Checks the request of the video batch tool, before any file is read.
pub fn prepare_batch_video_watermark(payload: BatchVideoWatermarkInput) -> (r: Result<
    SlantedWatermarkJob,
    String,
>)
    ensures
        match video_batch_error(payload) {
            Some(m) => r matches Err(e) && e@ == m,
            None => r matches Ok(j) && j.input_dir@ == trim(payload.input_dir@) && j.output_dir@
                == trim(payload.output_dir@) && slanted_options_hold(
                j.options,
                payload.watermark_text@,
                payload.watermark_line_count,
                payload.watermark_full_screen,
                payload.watermark_opacity,
                payload.watermark_rotation_degrees,
                payload.watermark_stripe_gap_chars,
                payload.watermark_row_gap_lines,
            ),
        },
{
    let (input_dir, output_dir) = directory_pair(payload.input_dir, payload.output_dir)?;
    let options = slanted_options_for(
        payload.watermark_text,
        payload.watermark_line_count,
        payload.watermark_full_screen,
        payload.watermark_opacity,
        payload.watermark_rotation_degrees,
        payload.watermark_stripe_gap_chars,
        payload.watermark_row_gap_lines,
    )?;
    Ok(SlantedWatermarkJob { input_dir, output_dir, options })
}

/// The first failing check of the PDF batch: the directories, then the
/// watermark text and options.
pub open spec fn pdf_batch_error(p: BatchPdfTextWatermarkInput) -> Option<Seq<char>> {
    match directory_pair_error(p.input_dir@, p.output_dir@) {
        Some(m) => Some(m),
        None => pdf_request_error(
            p.watermark_text@,
            p.watermark_long_edge_font_ratio,
            p.watermark_opacity,
            p.watermark_rotation_degrees,
            p.watermark_stripe_gap_chars,
            p.watermark_row_gap_lines,
        ),
    }
}

/// Checks the request of the PDF batch tool, before any file is read.
pub fn prepare_batch_pdf_watermark(payload: BatchPdfTextWatermarkInput) -> (r: Result<
    PdfWatermarkJob,
    String,
>)
    ensures
        match pdf_batch_error(payload) {
            Some(m) => r matches Err(e) && e@ == m,
            None => r matches Ok(j) && j.input_dir@ == trim(payload.input_dir@) && j.output_dir@
                == trim(payload.output_dir@) && pdf_options_hold(
                j.options,
                payload.watermark_text@,
                payload.watermark_long_edge_font_ratio,
                payload.watermark_opacity,
                payload.watermark_rotation_degrees,
                payload.watermark_stripe_gap_chars,
                payload.watermark_row_gap_lines,
            ),
        },
{
    let (input_dir, output_dir) = directory_pair(payload.input_dir, payload.output_dir)?;
    let options = pdf_options_for(
        payload.watermark_text,
        payload.watermark_long_edge_font_ratio,
        payload.watermark_opacity,
        payload.watermark_rotation_degrees,
        payload.watermark_stripe_gap_chars,
        payload.watermark_row_gap_lines,
    )?;
    Ok(PdfWatermarkJob { input_dir, output_dir, options })
}

// ---------------------------------------------------------------------------
// Previews
// ---------------------------------------------------------------------------

/// The options of an image preview, checked once the image was found: the
/// rotation is the image default.
pub fn image_preview_options(payload: &BatchImageWatermarkPreviewInput) -> (r: Result<
    SlantedWatermarkOptions,
    String,
>)
    ensures
        match slanted_request_error(
            payload.watermark_text@,
            payload.watermark_line_count,
            payload.watermark_opacity,
            default_rotation(),
            payload.watermark_stripe_gap_chars,
            payload.watermark_row_gap_lines,
        ) {
            Some(m) => r matches Err(e) && e@ == m,
            None => r matches Ok(o) && slanted_options_hold(
                o,
                payload.watermark_text@,
                payload.watermark_line_count,
                payload.watermark_full_screen,
                payload.watermark_opacity,
                default_rotation(),
                payload.watermark_stripe_gap_chars,
                payload.watermark_row_gap_lines,
            ),
        },
{
    slanted_options_for(
        payload.watermark_text.clone(),
        payload.watermark_line_count,
        payload.watermark_full_screen,
        payload.watermark_opacity,
        default_slanted_watermark_rotation_degrees(),
        payload.watermark_stripe_gap_chars,
        payload.watermark_row_gap_lines,
    )
}

/// The options of a video frame preview, checked once the video was found.
pub fn video_preview_options(payload: &BatchImageWatermarkPreviewInput) -> (r: Result<
    SlantedWatermarkOptions,
    String,
>)
    ensures
        match slanted_request_error(
            payload.watermark_text@,
            payload.watermark_line_count,
            payload.watermark_opacity,
            payload.watermark_rotation_degrees,
            payload.watermark_stripe_gap_chars,
            payload.watermark_row_gap_lines,
        ) {
            Some(m) => r matches Err(e) && e@ == m,
            None => r matches Ok(o) && slanted_options_hold(
                o,
                payload.watermark_text@,
                payload.watermark_line_count,
                payload.watermark_full_screen,
                payload.watermark_opacity,
                payload.watermark_rotation_degrees,
                payload.watermark_stripe_gap_chars,
                payload.watermark_row_gap_lines,
            ),
        },
{
    slanted_options_for(
        payload.watermark_text.clone(),
        payload.watermark_line_count,
        payload.watermark_full_screen,
        payload.watermark_opacity,
        payload.watermark_rotation_degrees,
        payload.watermark_stripe_gap_chars,
        payload.watermark_row_gap_lines,
    )
}

/// The options of a PDF preview, checked once the PDF was found.
pub fn pdf_preview_options(payload: &BatchPdfWatermarkPreviewInput) -> (r: Result<
    PdfTextWatermarkOptions,
    String,
>)
    ensures
        match pdf_request_error(
            payload.watermark_text@,
            payload.watermark_long_edge_font_ratio,
            payload.watermark_opacity,
            payload.watermark_rotation_degrees,
            payload.watermark_stripe_gap_chars,
            payload.watermark_row_gap_lines,
        ) {
            Some(m) => r matches Err(e) && e@ == m,
            None => r matches Ok(o) && pdf_options_hold(
                o,
                payload.watermark_text@,
                payload.watermark_long_edge_font_ratio,
                payload.watermark_opacity,
                payload.watermark_rotation_degrees,
                payload.watermark_stripe_gap_chars,
                payload.watermark_row_gap_lines,
            ),
        },
{
    pdf_options_for(
        payload.watermark_text.clone(),
        payload.watermark_long_edge_font_ratio,
        payload.watermark_opacity,
        payload.watermark_rotation_degrees,
        payload.watermark_stripe_gap_chars,
        payload.watermark_row_gap_lines,
    )
}

// ---------------------------------------------------------------------------
// Single PDF tools
// ---------------------------------------------------------------------------

/// A checked request to render the pages of a PDF as images.
#[derive(Debug)]
pub struct SplitPdfRequest {
    pub input_path: String,
    pub output_dir: String,
    /// The image format, in ASCII lower case.
    pub image_format: String,
}

/// The first failing check of a split request: PDF file, output directory
/// and image format all given.
pub open spec fn split_pdf_error(input_path: Seq<char>, output_dir: Seq<char>, image_format: Seq<
    char,
>) -> Option<Seq<char>> {
    if trim(input_path).len() == 0 {
        Some(blank("PDF 文件"@))
    } else if trim(output_dir).len() == 0 {
        Some(blank("输出目录"@))
    } else if trim(image_format).len() == 0 {
        Some(blank("图片格式"@))
    } else {
        None
    }
}

/// Checks a split request; values come back trimmed, the format in lower case.
pub fn prepare_split_pdf_to_images(input_path: String, output_dir: String, image_format: String) -> (r:
    Result<SplitPdfRequest, String>)
    ensures
        match split_pdf_error(input_path@, output_dir@, image_format@) {
            Some(m) => r matches Err(e) && e@ == m,
            None => r matches Ok(q) && q.input_path@ == trim(input_path@) && q.output_dir@ == trim(
                output_dir@,
            ) && q.image_format@ == ascii_lower_seq(trim(image_format@)),
        },
{
    let input_path = require_value("PDF 文件", input_path)?;
    let output_dir = require_value("输出目录", output_dir)?;
    let image_format = require_value("图片格式", image_format)?;
    let lowered = lower_ascii(&chars_of(image_format.as_str()));
    Ok(SplitPdfRequest { input_path, output_dir, image_format: string_of(&lowered) })
}

/// A checked request to watermark one PDF.
#[derive(Debug)]
pub struct PdfWatermarkFileJob {
    pub input_path: String,
    pub output_dir: String,
    pub options: PdfTextWatermarkOptions,
}

/// The first failing check of a single PDF watermark request.
pub open spec fn pdf_file_error(p: PdfTextWatermarkInput) -> Option<Seq<char>> {
    if trim(p.input_path@).len() == 0 {
        Some(blank("PDF 文件"@))
    } else if trim(p.output_dir@).len() == 0 {
        Some(blank("输出目录"@))
    } else {
        pdf_request_error(
            p.watermark_text@,
            p.watermark_long_edge_font_ratio,
            p.watermark_opacity,
            p.watermark_rotation_degrees,
            p.watermark_stripe_gap_chars,
            p.watermark_row_gap_lines,
        )
    }
}

/// Checks a request to watermark one PDF.
pub fn prepare_add_text_watermark(payload: PdfTextWatermarkInput) -> (r: Result<
    PdfWatermarkFileJob,
    String,
>)
    ensures
        match pdf_file_error(payload) {
            Some(m) => r matches Err(e) && e@ == m,
            None => r matches Ok(j) && j.input_path@ == trim(payload.input_path@) && j.output_dir@
                == trim(payload.output_dir@) && pdf_options_hold(
                j.options,
                payload.watermark_text@,
                payload.watermark_long_edge_font_ratio,
                payload.watermark_opacity,
                payload.watermark_rotation_degrees,
                payload.watermark_stripe_gap_chars,
                payload.watermark_row_gap_lines,
            ),
        },
{
    let input_path = require_value("PDF 文件", payload.input_path)?;
    let output_dir = require_value("输出目录", payload.output_dir)?;
    let options = pdf_options_for(
        payload.watermark_text,
        payload.watermark_long_edge_font_ratio,
        payload.watermark_opacity,
        payload.watermark_rotation_degrees,
        payload.watermark_stripe_gap_chars,
        payload.watermark_row_gap_lines,
    )?;
    Ok(PdfWatermarkFileJob { input_path, output_dir, options })
}

/// A checked request to extract the images embedded in a PDF.
#[derive(Debug)]
pub struct ExtractImagesRequest {
    pub input_path: String,
    /// The directory as given, trimmed.
    pub output_dir: String,
    /// The directory with one trailing separator, as the extractor wants it.
    pub output_dir_for_pdf: String,
}

/// Checks an extraction request.
pub fn prepare_extract_embedded_images(input_path: String, output_dir: String) -> (r: Result<
    ExtractImagesRequest,
    String,
>)
    ensures
        if trim(input_path@).len() == 0 {
            r matches Err(e) && e@ == blank("PDF 文件"@)
        } else if trim(output_dir@).len() == 0 {
            r matches Err(e) && e@ == blank("输出目录"@)
        } else {
            r matches Ok(q) && q.input_path@ == trim(input_path@) && q.output_dir@ == trim(
                output_dir@,
            ) && q.output_dir_for_pdf@.drop_last() == normalized_directory(trim(output_dir@))
                && (q.output_dir_for_pdf@.last() == '/' || q.output_dir_for_pdf@.last() == '\\')
        },
{
    let input_path = require_value("PDF 文件", input_path)?;
    let output_dir = require_value("输出目录", output_dir)?;
    let output_dir_for_pdf = ensure_trailing_separator(output_dir.as_str());
    Ok(ExtractImagesRequest { input_path, output_dir, output_dir_for_pdf })
}

// ---------------------------------------------------------------------------
// Directories on disk
// ---------------------------------------------------------------------------

/// The error for a directory that is missing: `{label}不存在或不是有效目录`.
pub open spec fn missing_directory(label: Seq<char>) -> Seq<char> {
    label + "不存在或不是有效目录"@
}

/// An existing directory by its canonical path, from what the file system
/// said of the path: whether it is a directory, and its canonical form if
/// that could be had.
pub fn canonicalize_existing_directory(label: &str, is_dir: bool, canonical: Option<String>) -> (r:
    Result<String, String>)
    ensures
        match r {
            Ok(c) => is_dir && canonical == Some(c),
            Err(e) => !(is_dir && canonical is Some) && e@ == missing_directory(label@),
        },
{
    if is_dir {
        if let Some(c) = canonical {
            return Ok(c);
        }
    }
    let mut m = chars_of(label);
    push_all(&mut m, &chars_of("不存在或不是有效目录"));
    Err(string_of(&m))
}

/// `rel` joined onto `base` (`Path::join` on Unix): an absolute `rel`
/// replaces `base`; otherwise a `/` goes between unless `base` is empty or
/// already ends with one.
pub open spec fn join_path(base: Seq<char>, rel: Seq<char>) -> Seq<char> {
    if is_absolute(rel) {
        rel
    } else if base.len() == 0 || base.last() == '/' {
        base + rel
    } else {
        base + seq!['/'] + rel
    }
}

/// An output path made absolute against the working directory
/// (`current_dir`, or the error met reading it, which is only used for a
/// relative path); an empty path is refused with `输出目录不能为空`.
pub fn absolutize_path(path: &str, current_dir: Result<String, String>) -> (r: Result<String, String>)
    ensures
        if path@.len() == 0 {
            r matches Err(e) && e@ == "输出目录不能为空"@
        } else if is_absolute(path@) {
            r matches Ok(p) && p@ == path@
        } else {
            match current_dir {
                Ok(d) => r matches Ok(p) && p@ == join_path(d@, path@),
                Err(m) => r matches Err(e) && e == m,
            }
        },
{
    let c = chars_of(path);
    if c.len() == 0 {
        return Err(string_of(&chars_of("输出目录不能为空")));
    }
    if c[0] == '/' {
        return Ok(string_of(&c));
    }
    let base = chars_of(current_dir?.as_str());
    let mut out = base.clone();
    if !(base.len() == 0 || base[base.len() - 1] == '/') {
        out.push('/');
    }
    push_all(&mut out, &c);
    proof {
        if base@.len() > 0 {
            assert(base@.last() == base@[base@.len() - 1]);
        }
    }
    Ok(string_of(&out))
}

/// Whether two paths have the same components (`Path`'s `==`).
pub open spec fn same_path(a: Seq<char>, b: Seq<char>) -> bool {
    path_components(a) == path_components(b)
}

/// Whether two paths have the same components.
pub fn same_path_exec(a: &str, b: &str) -> (r: bool)
    ensures
        r == same_path(a@, b@),
{
    let r = path_starts_with_exec(a, b) && path_starts_with_exec(b, a);
    proof {
        let ca = path_components(a@);
        let cb = path_components(b@);
        if r {
            assert(ca.len() == cb.len());
            assert(ca =~= cb) by {
                assert(cb =~= ca.subrange(0, cb.len() as int));
            }
        }
        if ca == cb {
            assert(ca.is_prefix_of(cb)) by {
                assert(ca.subrange(0, ca.len() as int) =~= ca);
            }
        }
    }
    r
}

/// The error when the output directory is the input directory, or lies in it.
pub open spec fn output_location_error(input_root: Seq<char>, output: Seq<char>) -> Option<
    Seq<char>,
> {
    if same_path(output, input_root) {
        Some("输入目录与输出目录不能相同"@)
    } else if path_starts_with(output, input_root) {
        Some("输出目录不能位于输入目录内"@)
    } else {
        None
    }
}

/// Checks where a batch writes: `output_root` (absolute) must neither be the
/// canonical input directory `input_root` nor lie in it. When the output
/// exists it is compared by its canonical form `canonical`, which must then
/// have been had; otherwise by `output_root` itself. Gives `output_root`.
pub fn ensure_batch_output_directory(
    input_root: &str,
    output_root: String,
    exists: bool,
    canonical: Option<String>,
) -> (r: Result<String, String>)
    ensures
        if exists && canonical is None {
            r matches Err(e) && e@ == missing_directory("输出目录"@)
        } else {
            match output_location_error(
                input_root@,
                if exists {
                    canonical->0@
                } else {
                    output_root@
                },
            ) {
                Some(m) => r matches Err(e) && e@ == m,
                None => r matches Ok(p) && p == output_root,
            }
        },
{
    let comparable = if exists {
        match canonical {
            Some(c) => c,
            None => {
                let mut m = chars_of("输出目录");
                push_all(&mut m, &chars_of("不存在或不是有效目录"));
                return Err(string_of(&m));
            },
        }
    } else {
        output_root.clone()
    };
    if same_path_exec(comparable.as_str(), input_root) {
        return Err(string_of(&chars_of("输入目录与输出目录不能相同")));
    }
    if path_starts_with_exec(comparable.as_str(), input_root) {
        return Err(string_of(&chars_of("输出目录不能位于输入目录内")));
    }
    Ok(output_root)
}

} // verus!
