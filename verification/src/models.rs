//! The records that the commands take and give back.
use vstd::prelude::*;

use crate::validation::Binary32;

verus! {

/// The input of a series download run.
#[derive(Debug)]
pub struct SeriesDownloadInput {
    pub input_dir: String,
    pub output_dir: String,
    pub concurrent_downloads: usize,
}

/// How many episodes one series has in the lists.
#[derive(Debug)]
pub struct SeriesDownloadSummary {
    pub name: String,
    pub episode_count: usize,
}

/// What a directory of download lists holds.
#[derive(Debug)]
pub struct SeriesDownloadListSummary {
    pub file_count: usize,
    pub episode_count: usize,
    pub series: Vec<SeriesDownloadSummary>,
}

/// Progress of a series download run.
#[derive(Debug)]
pub struct SeriesDownloadProgressPayload {
    pub total_count: usize,
    pub processed_count: usize,
    pub success_count: usize,
    pub failure_count: usize,
    pub skipped_count: usize,
    pub current_series: Option<String>,
    pub current_episode: Option<usize>,
}

/// The outcome of a series download run.
#[derive(Debug)]
pub struct SeriesDownloadResult {
    pub total_count: usize,
    pub success_count: usize,
    pub failure_count: usize,
    pub skipped_count: usize,
    pub series_count: usize,
    pub output_dir: String,
    pub failed_items: Vec<String>,
}

} // verus!

verus! {

/// The images found under an input directory.
#[derive(Debug)]
pub struct InputDirectoryImageListResult {
    pub files: Vec<String>,
}

/// The PDF files found under an input directory.
#[derive(Debug)]
pub struct InputDirectoryPdfListResult {
    pub files: Vec<String>,
}

/// The videos found under an input directory.
#[derive(Debug)]
pub struct InputDirectoryVideoListResult {
    pub files: Vec<String>,
}

} // verus!

verus! {

/// The bytes of a rendered preview image.
#[derive(Debug)]
pub struct PreviewImageBytesResult {
    pub bytes: Vec<u8>,
}

/// The input of the batch image watermark tool.
#[derive(Debug)]
pub struct BatchImageWatermarkInput {
    pub input_dir: String,
    pub output_dir: String,
    pub watermark_text: String,
    pub watermark_line_count: u32,
    pub watermark_full_screen: bool,
    pub watermark_opacity: Binary32,
    pub watermark_stripe_gap_chars: Binary32,
    pub watermark_row_gap_lines: Binary32,
}

/// The input of an image (or video frame) watermark preview.
#[derive(Debug)]
pub struct BatchImageWatermarkPreviewInput {
    pub input_dir: String,
    pub relative_path: String,
    pub watermark_text: String,
    pub watermark_line_count: u32,
    pub watermark_full_screen: bool,
    pub watermark_opacity: Binary32,
    pub watermark_rotation_degrees: Binary32,
    pub watermark_stripe_gap_chars: Binary32,
    pub watermark_row_gap_lines: Binary32,
}

/// Progress of the batch image watermark tool.
#[derive(Debug)]
pub struct BatchImageWatermarkProgressPayload {
    pub scanned_file_count: usize,
    pub processed_file_count: usize,
    pub success_count: usize,
    pub failure_count: usize,
    pub skipped_count: usize,
    pub current_file: Option<String>,
}

/// The outcome of the batch image watermark tool.
#[derive(Debug)]
pub struct BatchImageWatermarkResult {
    pub scanned_file_count: usize,
    pub success_count: usize,
    pub failure_count: usize,
    pub skipped_count: usize,
    pub output_dir: String,
}

/// The input of the single PDF watermark tool.
#[derive(Debug)]
pub struct PdfTextWatermarkInput {
    pub input_path: String,
    pub output_dir: String,
    pub watermark_text: String,
    pub watermark_long_edge_font_ratio: Binary32,
    pub watermark_opacity: Binary32,
    pub watermark_rotation_degrees: Binary32,
    pub watermark_stripe_gap_chars: Binary32,
    pub watermark_row_gap_lines: Binary32,
}

/// The input of the batch PDF watermark tool.
#[derive(Debug)]
pub struct BatchPdfTextWatermarkInput {
    pub input_dir: String,
    pub output_dir: String,
    pub watermark_text: String,
    pub watermark_long_edge_font_ratio: Binary32,
    pub watermark_opacity: Binary32,
    pub watermark_rotation_degrees: Binary32,
    pub watermark_stripe_gap_chars: Binary32,
    pub watermark_row_gap_lines: Binary32,
}

/// The input of a PDF watermark preview.
#[derive(Debug)]
pub struct BatchPdfWatermarkPreviewInput {
    pub input_dir: String,
    pub relative_path: String,
    pub watermark_text: String,
    pub watermark_long_edge_font_ratio: Binary32,
    pub watermark_opacity: Binary32,
    pub watermark_rotation_degrees: Binary32,
    pub watermark_stripe_gap_chars: Binary32,
    pub watermark_row_gap_lines: Binary32,
}

/// Progress of the batch PDF watermark tool.
#[derive(Debug)]
pub struct BatchPdfWatermarkProgressPayload {
    pub scanned_file_count: usize,
    pub processed_file_count: usize,
    pub success_count: usize,
    pub failure_count: usize,
    pub skipped_count: usize,
    pub current_file: Option<String>,
}

/// The outcome of the batch PDF watermark tool.
#[derive(Debug)]
pub struct BatchPdfWatermarkResult {
    pub scanned_file_count: usize,
    pub success_count: usize,
    pub failure_count: usize,
    pub skipped_count: usize,
    pub output_dir: String,
}

/// The outcome of splitting a PDF into page images.
#[derive(Debug)]
pub struct SplitPdfResult {
    pub page_count: usize,
    pub generated_file_count: usize,
    pub output_dir: String,
}

/// The outcome of watermarking one PDF.
#[derive(Debug)]
pub struct WatermarkPdfResult {
    pub output_pdf_path: String,
}

/// The outcome of extracting the images embedded in a PDF.
#[derive(Debug)]
pub struct ExtractImagesResult {
    pub output_dir: String,
}

/// The input of the batch video watermark tool.
#[derive(Debug)]
pub struct BatchVideoWatermarkInput {
    pub input_dir: String,
    pub output_dir: String,
    pub watermark_text: String,
    pub watermark_line_count: u32,
    pub watermark_full_screen: bool,
    pub watermark_opacity: Binary32,
    pub watermark_rotation_degrees: Binary32,
    pub watermark_stripe_gap_chars: Binary32,
    pub watermark_row_gap_lines: Binary32,
}

/// Progress of the batch video watermark tool.
#[derive(Debug)]
pub struct BatchVideoWatermarkProgressPayload {
    pub scanned_file_count: usize,
    pub processed_file_count: usize,
    pub success_count: usize,
    pub failure_count: usize,
    pub skipped_count: usize,
    pub generated_overlay_count: usize,
    pub reused_overlay_count: usize,
    pub current_file: Option<String>,
}

/// The outcome of the batch video watermark tool.
#[derive(Debug)]
pub struct BatchVideoWatermarkResult {
    pub scanned_file_count: usize,
    pub success_count: usize,
    pub failure_count: usize,
    pub skipped_count: usize,
    pub generated_overlay_count: usize,
    pub reused_overlay_count: usize,
    pub output_dir: String,
}

/// The input of the series re-cut tool.
#[derive(Debug)]
pub struct SeriesRecutInput {
    pub input_dir: String,
    pub output_dir: String,
    pub keep_count: usize,
    pub total_count: usize,
}

/// Progress of the series re-cut tool.
#[derive(Debug)]
pub struct SeriesRecutProgressPayload {
    pub total_count: usize,
    pub processed_count: usize,
    pub current_stage: String,
    pub current_file: Option<String>,
}

/// The outcome of the series re-cut tool.
#[derive(Debug)]
pub struct SeriesRecutResult {
    pub generated_file_count: usize,
    pub output_dir: String,
    pub output_files: Vec<String>,
}

} // verus!
