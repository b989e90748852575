use pdf_split::jobs::{
    absolutize_path, canonicalize_existing_directory, default_slanted_watermark_rotation_degrees,
    ensure_batch_output_directory, image_preview_options, pdf_preview_options,
    prepare_add_text_watermark, prepare_batch_image_watermark, prepare_batch_pdf_watermark,
    prepare_batch_video_watermark, prepare_extract_embedded_images, prepare_split_pdf_to_images,
    same_path_exec, video_preview_options,
};
use pdf_split::models::{
    BatchImageWatermarkInput, BatchImageWatermarkPreviewInput, BatchPdfTextWatermarkInput,
    BatchPdfWatermarkPreviewInput, BatchVideoWatermarkInput, PdfTextWatermarkInput,
};
use pdf_split::validation::{
    build_pdf_text_watermark_options, build_slanted_watermark_options,
    ensure_distinct_directories, ensure_trailing_separator, normalize_directory_for_compare,
    require_finite_number, require_non_negative_number, require_positive_count,
    require_positive_number, require_value, require_zero_to_one_number, Binary32,
};

fn num(x: f32) -> Binary32 {
    Binary32 { bits: x.to_bits() }
}

fn pdf_input(text: &str, ratio: f32) -> PdfTextWatermarkInput {
    PdfTextWatermarkInput {
        input_path: "a.pdf".into(),
        output_dir: "/tmp".into(),
        watermark_text: text.into(),
        watermark_long_edge_font_ratio: num(ratio),
        watermark_opacity: num(50.0 / 255.0),
        watermark_rotation_degrees: num(-57.29578),
        watermark_stripe_gap_chars: num(2.0),
        watermark_row_gap_lines: num(3.0),
    }
}

fn image_input(input_dir: &str, output_dir: &str, opacity: f32, stripe: f32) -> BatchImageWatermarkInput {
    BatchImageWatermarkInput {
        input_dir: input_dir.into(),
        output_dir: output_dir.into(),
        watermark_text: "wm".into(),
        watermark_line_count: 3,
        watermark_full_screen: true,
        watermark_opacity: num(opacity),
        watermark_stripe_gap_chars: num(stripe),
        watermark_row_gap_lines: num(3.0),
    }
}

#[test]
fn split_command_rejects_empty_input_path() {
    let err = prepare_split_pdf_to_images("".into(), "/tmp".into(), "png".into())
        .err()
        .expect("empty input path should fail");

    assert!(err.contains("PDF 文件"));
}

#[test]
fn watermark_command_rejects_empty_text() {
    let err = prepare_add_text_watermark(pdf_input("", 0.028))
        .err()
        .expect("empty watermark text should fail");

    assert!(err.contains("水印文字"));
}

#[test]
fn watermark_command_rejects_non_positive_long_edge_font_ratio() {
    let err = prepare_add_text_watermark(pdf_input("wm", 0.0))
        .err()
        .expect("non-positive long edge font ratio should fail");

    assert!(err.contains("长边字号比例"));
}

#[test]
fn batch_pdf_watermark_command_rejects_same_input_and_output_dir() {
    let err = prepare_batch_pdf_watermark(BatchPdfTextWatermarkInput {
        input_dir: "/tmp/pdfs".into(),
        output_dir: "/tmp/pdfs/".into(),
        watermark_text: "wm".into(),
        watermark_long_edge_font_ratio: num(0.028),
        watermark_opacity: num(50.0 / 255.0),
        watermark_rotation_degrees: num(-57.29578),
        watermark_stripe_gap_chars: num(2.0),
        watermark_row_gap_lines: num(3.0),
    })
    .err()
    .expect("same directories should fail");

    assert!(err.contains("输入目录与输出目录不能相同"));
}

#[test]
fn extract_command_rejects_empty_output_dir() {
    let err = prepare_extract_embedded_images("a.pdf".into(), "".into())
        .err()
        .expect("empty output dir should fail");

    assert!(err.contains("输出目录"));
}

#[test]
fn batch_image_watermark_command_rejects_same_input_and_output_dir() {
    let err = prepare_batch_image_watermark(image_input("/tmp/images", "/tmp/images/", 0.2, 2.0))
        .err()
        .expect("same directories should fail");

    assert!(err.contains("输入目录与输出目录不能相同"));
}

#[test]
fn batch_image_watermark_command_rejects_invalid_opacity() {
    let err = prepare_batch_image_watermark(image_input("/tmp/in", "/tmp/out", 1.2, 2.0))
        .err()
        .expect("opacity greater than one should fail");

    assert!(err.contains("水印透明度"));
}

#[test]
fn batch_image_watermark_command_rejects_negative_spacing() {
    let err = prepare_batch_image_watermark(image_input("/tmp/in", "/tmp/out", 0.2, -1.0))
        .err()
        .expect("negative spacing should fail");

    assert!(err.contains("条间距"));
}

#[test]
fn build_slanted_watermark_options_preserves_rotation_degrees() {
    let options = build_slanted_watermark_options("wm", 3, true, num(0.2), num(-30.0), num(2.0), num(3.0))
        .ok()
        .expect("options should be built");

    assert_eq!(f32::from_bits(options.rotation_degrees.bits), -30.0);
}

#[test]
fn image_batch_uses_the_default_rotation() {
    let job = prepare_batch_image_watermark(image_input(" /tmp/in ", "/tmp/out", 0.2, 2.0))
        .ok()
        .expect("valid request");
    assert_eq!(job.input_dir, "/tmp/in");
    assert_eq!(job.options.text, "wm");
    assert_eq!(job.options.line_count, 3);
    assert_eq!(f32::from_bits(job.options.rotation_degrees.bits), -1.0_f32.to_degrees());
    assert_eq!(default_slanted_watermark_rotation_degrees().bits, (-1.0_f32).to_degrees().to_bits());
}

#[test]
fn request_checks_come_in_order() {
    let err = prepare_batch_image_watermark(image_input("  ", "", 9.0, -1.0)).err().unwrap();
    assert_eq!(err, "输入目录不能为空");
    let err = prepare_batch_image_watermark(image_input("/a", " ", 9.0, -1.0)).err().unwrap();
    assert_eq!(err, "输出目录不能为空");
    let mut input = image_input("/a", "/b", 9.0, -1.0);
    input.watermark_text = " ".into();
    assert_eq!(prepare_batch_image_watermark(input).err().unwrap(), "水印文字不能为空");
    let mut input = image_input("/a", "/b", 0.5, 1.0);
    input.watermark_line_count = 0;
    assert_eq!(prepare_batch_image_watermark(input).err().unwrap(), "水印行数必须大于 0");
    let input = image_input("/a", "/b", f32::NAN, -1.0);
    assert_eq!(prepare_batch_image_watermark(input).err().unwrap(), "水印透明度必须在 0 到 1 之间");
    let mut input = image_input("/a", "/b", 0.5, 1.0);
    input.watermark_row_gap_lines = num(f32::INFINITY);
    assert_eq!(prepare_batch_image_watermark(input).err().unwrap(), "行间距必须大于等于 0");
}

#[test]
fn video_batch_checks_the_given_rotation() {
    let input = BatchVideoWatermarkInput {
        input_dir: "/in".into(),
        output_dir: "/out".into(),
        watermark_text: "wm".into(),
        watermark_line_count: 2,
        watermark_full_screen: false,
        watermark_opacity: num(1.0),
        watermark_rotation_degrees: num(f32::NAN),
        watermark_stripe_gap_chars: num(0.0),
        watermark_row_gap_lines: num(-0.0),
    };
    assert_eq!(prepare_batch_video_watermark(input).err().unwrap(), "水印角度必须是有效数字");
    let input = BatchVideoWatermarkInput {
        input_dir: "/in".into(),
        output_dir: "/out".into(),
        watermark_text: " wm ".into(),
        watermark_line_count: 2,
        watermark_full_screen: false,
        watermark_opacity: num(1.0),
        watermark_rotation_degrees: num(12.5),
        watermark_stripe_gap_chars: num(0.0),
        watermark_row_gap_lines: num(-0.0),
    };
    let job = prepare_batch_video_watermark(input).ok().unwrap();
    assert_eq!(job.options.text, "wm");
    assert_eq!(f32::from_bits(job.options.rotation_degrees.bits), 12.5);
}

#[test]
fn previews_check_text_and_options() {
    let preview = BatchImageWatermarkPreviewInput {
        input_dir: "/in".into(),
        relative_path: "a.png".into(),
        watermark_text: "wm".into(),
        watermark_line_count: 3,
        watermark_full_screen: true,
        watermark_opacity: num(0.2),
        watermark_rotation_degrees: num(-35.0),
        watermark_stripe_gap_chars: num(2.0),
        watermark_row_gap_lines: num(3.0),
    };
    let image = image_preview_options(&preview).ok().unwrap();
    assert_eq!(f32::from_bits(image.rotation_degrees.bits), -1.0_f32.to_degrees());
    let video = video_preview_options(&preview).ok().unwrap();
    assert_eq!(f32::from_bits(video.rotation_degrees.bits), -35.0);
    let pdf = BatchPdfWatermarkPreviewInput {
        input_dir: "/in".into(),
        relative_path: "a.pdf".into(),
        watermark_text: "".into(),
        watermark_long_edge_font_ratio: num(0.028),
        watermark_opacity: num(0.3),
        watermark_rotation_degrees: num(-35.0),
        watermark_stripe_gap_chars: num(2.0),
        watermark_row_gap_lines: num(3.0),
    };
    assert_eq!(pdf_preview_options(&pdf).err().unwrap(), "水印文字不能为空");
}

#[test]
fn split_requests_lower_the_format() {
    let q = prepare_split_pdf_to_images(" a.pdf ".into(), "/tmp".into(), " PNG ".into())
        .ok()
        .unwrap();
    assert_eq!(q.input_path, "a.pdf");
    assert_eq!(q.image_format, "png");
    let err = prepare_split_pdf_to_images("a.pdf".into(), "/tmp".into(), "".into()).err().unwrap();
    assert_eq!(err, "图片格式不能为空");
}

#[test]
fn extraction_gets_one_trailing_separator() {
    let q = prepare_extract_embedded_images("a.pdf".into(), "/tmp/out//".into()).ok().unwrap();
    assert_eq!(q.output_dir, "/tmp/out//");
    assert_eq!(q.output_dir_for_pdf, format!("/tmp/out{}", std::path::MAIN_SEPARATOR));
    assert_eq!(ensure_trailing_separator("x\\"), format!("x{}", std::path::MAIN_SEPARATOR));
}

#[test]
fn pdf_options_keep_the_values() {
    let o = build_pdf_text_watermark_options("wm", num(0.028), num(0.3), num(-35.0), num(2.0), num(3.0))
        .ok()
        .unwrap();
    assert_eq!(o.text, "wm");
    assert_eq!(f32::from_bits(o.long_edge_font_ratio.bits), 0.028);
    let err = build_pdf_text_watermark_options("wm", num(-0.0), num(0.3), num(-35.0), num(2.0), num(3.0))
        .err()
        .unwrap();
    assert_eq!(err, "长边字号比例必须大于 0");
}

#[test]
fn number_checks_follow_ieee_values() {
    assert!(require_positive_number("x", num(f32::MIN_POSITIVE)).is_ok());
    assert_eq!(require_positive_number("x", num(f32::INFINITY)).err().unwrap(), "x必须大于 0");
    assert!(require_zero_to_one_number("x", num(1.0)).is_ok());
    assert!(require_zero_to_one_number("x", num(-0.0)).is_ok());
    assert_eq!(
        require_zero_to_one_number("x", num(1.0000001)).err().unwrap(),
        "x必须在 0 到 1 之间"
    );
    assert!(require_zero_to_one_number("x", num(-0.5)).is_err());
    assert!(require_non_negative_number("x", num(0.0)).is_ok());
    assert_eq!(require_non_negative_number("x", num(-1e-30)).err().unwrap(), "x必须大于等于 0");
    assert!(require_finite_number("x", num(-1e30)).is_ok());
    assert_eq!(require_finite_number("x", num(f32::NEG_INFINITY)).err().unwrap(), "x必须是有效数字");
    assert_eq!(require_positive_count("n", 0).err().unwrap(), "n必须大于 0");
    assert_eq!(require_positive_count("n", 4).ok(), Some(4));
    assert_eq!(require_value("v", " \t a b \n".into()).ok(), Some("a b".to_string()));
    assert_eq!(require_value("v", "\u{3000}".into()).err().unwrap(), "v不能为空");
}

#[test]
fn directories_compare_without_trailing_separators() {
    assert_eq!(normalize_directory_for_compare("/a/b/\\/"), "/a/b");
    assert!(ensure_distinct_directories("/a/b", "/a/b\\").is_err());
    assert!(ensure_distinct_directories("/a/b", "/a/c").is_ok());
}

#[test]
fn existing_directories_need_a_canonical_path() {
    assert_eq!(
        canonicalize_existing_directory("输入目录", true, Some("/real".into())).ok(),
        Some("/real".to_string())
    );
    assert_eq!(
        canonicalize_existing_directory("输入目录", false, Some("/real".into())).err().unwrap(),
        "输入目录不存在或不是有效目录"
    );
    assert!(canonicalize_existing_directory("输入目录", true, None).is_err());
}

#[test]
fn output_paths_are_made_absolute() {
    assert_eq!(absolutize_path("", Ok("/cwd".into())).err().unwrap(), "输出目录不能为空");
    assert_eq!(absolutize_path("/abs", Err("no cwd".into())).ok(), Some("/abs".to_string()));
    assert_eq!(absolutize_path("rel/x", Ok("/cwd".into())).ok(), Some("/cwd/rel/x".to_string()));
    assert_eq!(absolutize_path("rel", Ok("/".into())).ok(), Some("/rel".to_string()));
    assert_eq!(absolutize_path("rel", Err("no cwd".into())).err().unwrap(), "no cwd");
}

#[test]
fn batch_outputs_must_lie_outside_the_input() {
    assert_eq!(
        ensure_batch_output_directory("/in", "/in/".into(), false, None).err().unwrap(),
        "输入目录与输出目录不能相同"
    );
    assert_eq!(
        ensure_batch_output_directory("/in", "/in/sub".into(), false, None).err().unwrap(),
        "输出目录不能位于输入目录内"
    );
    assert_eq!(
        ensure_batch_output_directory("/in", "/link".into(), true, Some("/in/x".into())).err().unwrap(),
        "输出目录不能位于输入目录内"
    );
    assert_eq!(
        ensure_batch_output_directory("/in", "/out".into(), true, None).err().unwrap(),
        "输出目录不存在或不是有效目录"
    );
    assert_eq!(
        ensure_batch_output_directory("/in", "/input".into(), false, None).ok(),
        Some("/input".to_string())
    );
    assert!(same_path_exec("/a//b/./c", "/a/b/c"));
    assert!(!same_path_exec("/a/b", "a/b"));
}

#[test]
fn single_pdf_watermark_keeps_trimmed_paths() {
    let job = prepare_add_text_watermark(pdf_input("wm", 0.028)).ok().unwrap();
    assert_eq!(job.input_path, "a.pdf");
    assert_eq!(job.output_dir, "/tmp");
    assert_eq!(job.options.text, "wm");
}
