//! Checks on the values that the commands receive, and the watermark options
//! built from them.
use vstd::prelude::*;

use crate::text::{
    chars_of, copy_range, push_all, skip_end, string_of, strip_end, trim, trim_bounds, CharClass,
};

verus! {

// ---------------------------------------------------------------------------
// Numbers in IEEE 754 binary32 form
// ---------------------------------------------------------------------------

/// A 32-bit floating-point number held by its IEEE 754 binary32 encoding
/// (`f32::to_bits`), so that checks on it are exact integer logic.
#[derive(Clone, Copy, Debug, PartialEq, Eq)]
pub struct Binary32 {
    pub bits: u32,
}

impl Binary32 {
    /// The number whose encoding is `bits` (`f32::from_bits`).
    pub fn from_bits(bits: u32) -> (r: Binary32)
        ensures
            r.bits == bits,
    {
        Binary32 { bits }
    }
}

/// Neither infinite nor NaN: the exponent field is not all ones.
pub open spec fn is_finite(x: Binary32) -> bool {
    (x.bits >> 23u32) & 0xffu32 != 0xffu32
}

/// `+0.0` or `-0.0`.
pub open spec fn is_zero(x: Binary32) -> bool {
    x.bits & 0x7fff_ffffu32 == 0
}

/// The sign bit is set.
pub open spec fn sign_bit(x: Binary32) -> bool {
    x.bits >> 31u32 == 1
}

/// For a number with a clear sign bit: at most `1.0` (whose encoding is
/// `0x3f80_0000`; encodings of non-negative numbers order as the numbers do).
pub open spec fn at_most_one(x: Binary32) -> bool {
    x.bits <= 0x3f80_0000u32
}

/// `x > 0.0` and finite.
pub open spec fn is_positive_finite(x: Binary32) -> bool {
    is_finite(x) && !sign_bit(x) && !is_zero(x)
}

/// `0.0 <= x <= 1.0` (`-0.0` included).
pub open spec fn is_unit_interval(x: Binary32) -> bool {
    is_finite(x) && (is_zero(x) || (!sign_bit(x) && at_most_one(x)))
}

/// `x >= 0.0` and finite (`-0.0` included).
pub open spec fn is_non_negative_finite(x: Binary32) -> bool {
    is_finite(x) && (is_zero(x) || !sign_bit(x))
}

fn finite(x: Binary32) -> (r: bool)
    ensures
        r == is_finite(x),
{
    (x.bits >> 23u32) & 0xffu32 != 0xffu32
}

fn zero(x: Binary32) -> (r: bool)
    ensures
        r == is_zero(x),
{
    x.bits & 0x7fff_ffffu32 == 0
}

fn negative_sign(x: Binary32) -> (r: bool)
    ensures
        r == sign_bit(x),
{
    x.bits >> 31u32 == 1
}

// ---------------------------------------------------------------------------
// Messages
// ---------------------------------------------------------------------------

/// `label` followed by `tail`, as a string.
fn labelled(label: &str, tail: &str) -> (r: String)
    ensures
        r@ == label@ + tail@,
{
    let mut m = chars_of(label);
    push_all(&mut m, &chars_of(tail));
    string_of(&m)
}

// ---------------------------------------------------------------------------
// Required values
// ---------------------------------------------------------------------------

/// `value` trimmed, or the error `{label}不能为空` when nothing is left.
pub fn require_value(label: &str, value: String) -> (r: Result<String, String>)
    ensures
        match r {
            Ok(v) => v@ == trim(value@) && v@.len() > 0,
            Err(e) => trim(value@).len() == 0 && e@ == label@ + "不能为空"@,
        },
{
    let c = chars_of(value.as_str());
    let (a, b) = trim_bounds(&c, 0, c.len());
    assert(c@.subrange(0, c@.len() as int) == c@);
    if a == b {
        return Err(labelled(label, "不能为空"));
    }
    Ok(string_of(&copy_range(&c, a, b)))
}

/// `value`, or the error `{label}必须大于 0` when it is zero.
pub fn require_positive_count(label: &str, value: u32) -> (r: Result<u32, String>)
    ensures
        match r {
            Ok(v) => v == value && value > 0,
            Err(e) => value == 0 && e@ == label@ + "必须大于 0"@,
        },
{
    if value == 0 {
        return Err(labelled(label, "必须大于 0"));
    }
    Ok(value)
}

/// `value`, or the error `{label}必须大于 0` unless it is finite and above zero.
pub fn require_positive_number(label: &str, value: Binary32) -> (r: Result<Binary32, String>)
    ensures
        match r {
            Ok(v) => v == value && is_positive_finite(value),
            Err(e) => !is_positive_finite(value) && e@ == label@ + "必须大于 0"@,
        },
{
    if !finite(value) || negative_sign(value) || zero(value) {
        return Err(labelled(label, "必须大于 0"));
    }
    Ok(value)
}

/// `value`, or the error `{label}必须在 0 到 1 之间` unless `0 <= value <= 1`.
pub fn require_zero_to_one_number(label: &str, value: Binary32) -> (r: Result<Binary32, String>)
    ensures
        match r {
            Ok(v) => v == value && is_unit_interval(value),
            Err(e) => !is_unit_interval(value) && e@ == label@ + "必须在 0 到 1 之间"@,
        },
{
    if !finite(value) || !(zero(value) || (!negative_sign(value) && value.bits <= 0x3f80_0000u32)) {
        return Err(labelled(label, "必须在 0 到 1 之间"));
    }
    Ok(value)
}

/// `value`, or the error `{label}必须大于等于 0` unless it is finite and not below zero.
pub fn require_non_negative_number(label: &str, value: Binary32) -> (r: Result<Binary32, String>)
    ensures
        match r {
            Ok(v) => v == value && is_non_negative_finite(value),
            Err(e) => !is_non_negative_finite(value) && e@ == label@ + "必须大于等于 0"@,
        },
{
    if !finite(value) || !(zero(value) || !negative_sign(value)) {
        return Err(labelled(label, "必须大于等于 0"));
    }
    Ok(value)
}

/// `value`, or the error `{label}必须是有效数字` when it is infinite or NaN.
pub fn require_finite_number(label: &str, value: Binary32) -> (r: Result<Binary32, String>)
    ensures
        match r {
            Ok(v) => v == value && is_finite(value),
            Err(e) => !is_finite(value) && e@ == label@ + "必须是有效数字"@,
        },
{
    if !finite(value) {
        return Err(labelled(label, "必须是有效数字"));
    }
    Ok(value)
}

// ---------------------------------------------------------------------------
// Directories
// ---------------------------------------------------------------------------

/// A directory path without its trailing `/` and `\` separators.
pub open spec fn normalized_directory(path: Seq<char>) -> Seq<char> {
    strip_end(path, CharClass::PathSeparator)
}

/// `path` without trailing `/` and `\` separators.
pub fn normalize_directory_for_compare(path: &str) -> (r: String)
    ensures
        r@ == normalized_directory(path@),
{
    let c = chars_of(path);
    let e = skip_end(&c, 0, c.len(), CharClass::PathSeparator);
    assert(c@.subrange(0, c@.len() as int) == c@);
    string_of(&copy_range(&c, 0, e))
}

/// The error `输入目录与输出目录不能相同` when the two directories are the
/// same once trailing separators are dropped.
pub fn ensure_distinct_directories(input_dir: &str, output_dir: &str) -> (r: Result<(), String>)
    ensures
        match r {
            Ok(_) => normalized_directory(input_dir@) != normalized_directory(output_dir@),
            Err(e) => normalized_directory(input_dir@) == normalized_directory(output_dir@)
                && e@ == "输入目录与输出目录不能相同"@,
        },
{
    let a = normalize_directory_for_compare(input_dir);
    let b = normalize_directory_for_compare(output_dir);
    if a == b {
        return Err(string_of(&chars_of("输入目录与输出目录不能相同")));
    }
    Ok(())
}

/// The platform's main path separator, `std::path::MAIN_SEPARATOR`; taken on
/// trust: it is `/` or `\` (which of the two depends on the platform).
#[verifier::external_body]
fn main_separator() -> (c: char)
    ensures
        c == '/' || c == '\\',
{
    std::path::MAIN_SEPARATOR
}

/// `path` without trailing separators, followed by one main separator.
pub fn ensure_trailing_separator(path: &str) -> (r: String)
    ensures
        r@.len() == normalized_directory(path@).len() + 1,
        r@.drop_last() == normalized_directory(path@),
        r@.last() == '/' || r@.last() == '\\',
{
    let mut c = chars_of(normalize_directory_for_compare(path).as_str());
    let ghost before = c@;
    c.push(main_separator());
    assert(c@.drop_last() == before);
    string_of(&c)
}

// ---------------------------------------------------------------------------
// Watermark options
// ---------------------------------------------------------------------------

/// Options of the slanted, repeated text watermark drawn on images and
/// video frames.
#[derive(Debug)]
pub struct SlantedWatermarkOptions {
    pub text: String,
    pub line_count: u32,
    pub full_screen: bool,
    pub opacity: Binary32,
    pub rotation_degrees: Binary32,
    pub stripe_gap_chars: Binary32,
    pub row_gap_lines: Binary32,
}

/// Options of the text watermark stamped on PDF pages.
#[derive(Debug)]
pub struct PdfTextWatermarkOptions {
    pub text: String,
    pub long_edge_font_ratio: Binary32,
    pub opacity: Binary32,
    pub rotation_degrees: Binary32,
    pub stripe_gap_chars: Binary32,
    pub row_gap_lines: Binary32,
}

/// What building slanted watermark options gives: the first failing check
/// among line count, opacity, rotation, stripe gap and row gap, or options
/// holding the values unchanged.
pub open spec fn slanted_options_error(
    line_count: u32,
    opacity: Binary32,
    rotation: Binary32,
    stripe_gap: Binary32,
    row_gap: Binary32,
) -> Option<Seq<char>> {
    if line_count == 0 {
        Some("水印行数"@ + "必须大于 0"@)
    } else if !is_unit_interval(opacity) {
        Some("水印透明度"@ + "必须在 0 到 1 之间"@)
    } else if !is_finite(rotation) {
        Some("水印角度"@ + "必须是有效数字"@)
    } else if !is_non_negative_finite(stripe_gap) {
        Some("条间距"@ + "必须大于等于 0"@)
    } else if !is_non_negative_finite(row_gap) {
        Some("行间距"@ + "必须大于等于 0"@)
    } else {
        None
    }
}

/// Checks the slanted watermark values and builds the options.
pub fn build_slanted_watermark_options(
    watermark_text: &str,
    watermark_line_count: u32,
    watermark_full_screen: bool,
    watermark_opacity: Binary32,
    watermark_rotation_degrees: Binary32,
    watermark_stripe_gap_chars: Binary32,
    watermark_row_gap_lines: Binary32,
) -> (r: Result<SlantedWatermarkOptions, String>)
    ensures
        match slanted_options_error(
            watermark_line_count,
            watermark_opacity,
            watermark_rotation_degrees,
            watermark_stripe_gap_chars,
            watermark_row_gap_lines,
        ) {
            Some(m) => r matches Err(e) && e@ == m,
            None => r matches Ok(o) && o.text@ == watermark_text@ && o.line_count
                == watermark_line_count && o.full_screen == watermark_full_screen && o.opacity
                == watermark_opacity && o.rotation_degrees == watermark_rotation_degrees
                && o.stripe_gap_chars == watermark_stripe_gap_chars && o.row_gap_lines
                == watermark_row_gap_lines,
        },
{
    let line_count = require_positive_count("水印行数", watermark_line_count)?;
    let opacity = require_zero_to_one_number("水印透明度", watermark_opacity)?;
    let rotation_degrees = require_finite_number("水印角度", watermark_rotation_degrees)?;
    let stripe_gap_chars = require_non_negative_number("条间距", watermark_stripe_gap_chars)?;
    let row_gap_lines = require_non_negative_number("行间距", watermark_row_gap_lines)?;
    Ok(
        SlantedWatermarkOptions {
            text: string_of(&chars_of(watermark_text)),
            line_count,
            full_screen: watermark_full_screen,
            opacity,
            rotation_degrees,
            stripe_gap_chars,
            row_gap_lines,
        },
    )
}

/// What building PDF watermark options gives: the first failing check among
/// font ratio, opacity, rotation, stripe gap and row gap.
pub open spec fn pdf_options_error(
    font_ratio: Binary32,
    opacity: Binary32,
    rotation: Binary32,
    stripe_gap: Binary32,
    row_gap: Binary32,
) -> Option<Seq<char>> {
    if !is_positive_finite(font_ratio) {
        Some("长边字号比例"@ + "必须大于 0"@)
    } else if !is_unit_interval(opacity) {
        Some("水印透明度"@ + "必须在 0 到 1 之间"@)
    } else if !is_finite(rotation) {
        Some("水印角度"@ + "必须是有效数字"@)
    } else if !is_non_negative_finite(stripe_gap) {
        Some("条间距"@ + "必须大于等于 0"@)
    } else if !is_non_negative_finite(row_gap) {
        Some("行间距"@ + "必须大于等于 0"@)
    } else {
        None
    }
}

/// Checks the PDF watermark values and builds the options.
pub fn build_pdf_text_watermark_options(
    watermark_text: &str,
    watermark_long_edge_font_ratio: Binary32,
    watermark_opacity: Binary32,
    watermark_rotation_degrees: Binary32,
    watermark_stripe_gap_chars: Binary32,
    watermark_row_gap_lines: Binary32,
) -> (r: Result<PdfTextWatermarkOptions, String>)
    ensures
        match pdf_options_error(
            watermark_long_edge_font_ratio,
            watermark_opacity,
            watermark_rotation_degrees,
            watermark_stripe_gap_chars,
            watermark_row_gap_lines,
        ) {
            Some(m) => r matches Err(e) && e@ == m,
            None => r matches Ok(o) && o.text@ == watermark_text@ && o.long_edge_font_ratio
                == watermark_long_edge_font_ratio && o.opacity == watermark_opacity
                && o.rotation_degrees == watermark_rotation_degrees && o.stripe_gap_chars
                == watermark_stripe_gap_chars && o.row_gap_lines == watermark_row_gap_lines,
        },
{
    let long_edge_font_ratio = require_positive_number(
        "长边字号比例",
        watermark_long_edge_font_ratio,
    )?;
    let opacity = require_zero_to_one_number("水印透明度", watermark_opacity)?;
    let rotation_degrees = require_finite_number("水印角度", watermark_rotation_degrees)?;
    let stripe_gap_chars = require_non_negative_number("条间距", watermark_stripe_gap_chars)?;
    let row_gap_lines = require_non_negative_number("行间距", watermark_row_gap_lines)?;
    Ok(
        PdfTextWatermarkOptions {
            text: string_of(&chars_of(watermark_text)),
            long_edge_font_ratio,
            opacity,
            rotation_degrees,
            stripe_gap_chars,
            row_gap_lines,
        },
    )
}

} // verus!
