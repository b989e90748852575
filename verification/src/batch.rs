//! Bookkeeping of the batch tools: what each processed file adds to the
//! counts, the progress reported after it, and the final outcome.
use vstd::prelude::*;

use crate::models::{
    BatchImageWatermarkProgressPayload, BatchImageWatermarkResult,
    BatchPdfWatermarkProgressPayload, BatchPdfWatermarkResult,
    BatchVideoWatermarkProgressPayload, BatchVideoWatermarkResult,
};
use crate::text::{chars_of, decimal_chars, decimal_text, push_all, string_of};

verus! {

/// What became of one file of a batch.
#[derive(Clone, Copy, Debug, PartialEq, Eq)]
pub enum FileOutcome {
    /// The output was written.
    Success,
    /// The file could not be processed; the batch goes on.
    Failure,
    /// An output already existed and was left alone.
    Skipped,
}

/// The counts of a batch over `scanned` files.
#[derive(Debug)]
pub struct FileTally {
    pub scanned: usize,
    pub success: usize,
    pub failure: usize,
    pub skipped: usize,
}

impl FileTally {
    /// The files handled so far.
    pub open spec fn processed_spec(&self) -> int {
        self.success + self.failure + self.skipped
    }

    /// No more files were handled than were scanned.
    pub open spec fn wf(&self) -> bool {
        self.processed_spec() <= self.scanned
    }

    /// A tally before any file was handled.
    pub fn new(scanned: usize) -> (r: FileTally)
        ensures
            r.wf(),
            r.scanned == scanned,
            r.success == 0 && r.failure == 0 && r.skipped == 0,
    {
        FileTally { scanned, success: 0, failure: 0, skipped: 0 }
    }

    /// The number of files handled so far.
    pub fn processed(&self) -> (r: usize)
        requires
            self.wf(),
        ensures
            r == self.processed_spec(),
    {
        self.success + self.failure + self.skipped
    }

    /// Counts one more file with the given outcome.
    pub fn record(&mut self, outcome: FileOutcome)
        requires
            old(self).wf(),
            old(self).processed_spec() < old(self).scanned,
        ensures
            final(self).wf(),
            final(self).scanned == old(self).scanned,
            final(self).processed_spec() == old(self).processed_spec() + 1,
            final(self).success == old(self).success + (if outcome == FileOutcome::Success {
                1int
            } else {
                0int
            }),
            final(self).failure == old(self).failure + (if outcome == FileOutcome::Failure {
                1int
            } else {
                0int
            }),
            final(self).skipped == old(self).skipped + (if outcome == FileOutcome::Skipped {
                1int
            } else {
                0int
            }),
    {
        match outcome {
            FileOutcome::Success => self.success = self.success + 1,
            FileOutcome::Failure => self.failure = self.failure + 1,
            FileOutcome::Skipped => self.skipped = self.skipped + 1,
        }
    }

    /// The progress of an image batch, naming the file just handled.
    pub fn image_progress(&self, current_file: Option<String>) -> (r:
        BatchImageWatermarkProgressPayload)
        requires
            self.wf(),
        ensures
            r.scanned_file_count == self.scanned,
            r.processed_file_count == self.processed_spec(),
            r.success_count == self.success,
            r.failure_count == self.failure,
            r.skipped_count == self.skipped,
            r.current_file == current_file,
    {
        BatchImageWatermarkProgressPayload {
            scanned_file_count: self.scanned,
            processed_file_count: self.processed(),
            success_count: self.success,
            failure_count: self.failure,
            skipped_count: self.skipped,
            current_file,
        }
    }

    /// The outcome of an image batch written to `output_dir`.
    pub fn image_result(&self, output_dir: String) -> (r: BatchImageWatermarkResult)
        ensures
            r.scanned_file_count == self.scanned,
            r.success_count == self.success,
            r.failure_count == self.failure,
            r.skipped_count == self.skipped,
            r.output_dir == output_dir,
    {
        BatchImageWatermarkResult {
            scanned_file_count: self.scanned,
            success_count: self.success,
            failure_count: self.failure,
            skipped_count: self.skipped,
            output_dir,
        }
    }

    /// The progress of a PDF batch, naming the file just handled.
    pub fn pdf_progress(&self, current_file: Option<String>) -> (r:
        BatchPdfWatermarkProgressPayload)
        requires
            self.wf(),
        ensures
            r.scanned_file_count == self.scanned,
            r.processed_file_count == self.processed_spec(),
            r.success_count == self.success,
            r.failure_count == self.failure,
            r.skipped_count == self.skipped,
            r.current_file == current_file,
    {
        BatchPdfWatermarkProgressPayload {
            scanned_file_count: self.scanned,
            processed_file_count: self.processed(),
            success_count: self.success,
            failure_count: self.failure,
            skipped_count: self.skipped,
            current_file,
        }
    }

    /// The outcome of a PDF batch written to `output_dir`.
    pub fn pdf_result(&self, output_dir: String) -> (r: BatchPdfWatermarkResult)
        ensures
            r.scanned_file_count == self.scanned,
            r.success_count == self.success,
            r.failure_count == self.failure,
            r.skipped_count == self.skipped,
            r.output_dir == output_dir,
    {
        BatchPdfWatermarkResult {
            scanned_file_count: self.scanned,
            success_count: self.success,
            failure_count: self.failure,
            skipped_count: self.skipped,
            output_dir,
        }
    }
}

/// Starts an image batch over `scanned` files: the first progress report,
/// or the error `输入目录内未找到可处理图片` when there is none.
pub fn start_image_batch(scanned: usize) -> (r: Result<
    (FileTally, BatchImageWatermarkProgressPayload),
    String,
>)
    ensures
        match r {
            Ok((t, p)) => scanned > 0 && t.wf() && t.scanned == scanned && t.success == 0
                && t.failure == 0 && t.skipped == 0 && p.scanned_file_count == scanned
                && p.processed_file_count == 0 && p.success_count == 0 && p.failure_count == 0
                && p.skipped_count == 0 && p.current_file is None,
            Err(e) => scanned == 0 && e@ == "输入目录内未找到可处理图片"@,
        },
{
    if scanned == 0 {
        return Err(string_of(&chars_of("输入目录内未找到可处理图片")));
    }
    let t = FileTally::new(scanned);
    let p = t.image_progress(None);
    Ok((t, p))
}

/// Starts a PDF batch over `scanned` files: the first progress report, or
/// the error `输入目录内未找到 PDF 文件` when there is none.
pub fn start_pdf_batch(scanned: usize) -> (r: Result<
    (FileTally, BatchPdfWatermarkProgressPayload),
    String,
>)
    ensures
        match r {
            Ok((t, p)) => scanned > 0 && t.wf() && t.scanned == scanned && t.success == 0
                && t.failure == 0 && t.skipped == 0 && p.scanned_file_count == scanned
                && p.processed_file_count == 0 && p.success_count == 0 && p.failure_count == 0
                && p.skipped_count == 0 && p.current_file is None,
            Err(e) => scanned == 0 && e@ == "输入目录内未找到 PDF 文件"@,
        },
{
    if scanned == 0 {
        return Err(string_of(&chars_of("输入目录内未找到 PDF 文件")));
    }
    let t = FileTally::new(scanned);
    let p = t.pdf_progress(None);
    Ok((t, p))
}

// ---------------------------------------------------------------------------
// Videos
// ---------------------------------------------------------------------------

/// A watermark overlay made for one video size.
#[derive(Debug)]
pub struct OverlayEntry {
    pub width: u32,
    pub height: u32,
    pub file_name: String,
}

/// The name of the overlay image for videos of a size: `{width}x{height}.png`.
pub open spec fn overlay_file_name(width: u32, height: u32) -> Seq<char> {
    decimal_text(width as nat) + "x"@ + decimal_text(height as nat) + ".png"@
}

/// What to do for the overlay of a video.
#[derive(Debug)]
pub enum OverlayStep {
    /// An overlay for this size was made before; use the file of this name.
    Reuse(String),
    /// Make an overlay and save it under this name.
    Generate(String),
}

/// The state of a batch over videos: the counts, and one overlay per video
/// size, made the first time that size comes up. `overlaid_files` counts the
/// recorded videos that got an overlay; `overlay_ready` says whether the
/// video being handled has one.
#[derive(Debug)]
pub struct VideoBatch {
    pub tally: FileTally,
    pub generated_overlays: usize,
    pub reused_overlays: usize,
    pub overlays: Vec<OverlayEntry>,
    pub overlaid_files: usize,
    pub overlay_ready: bool,
}

/// Whether the overlay list holds an entry for the size.
pub open spec fn has_size(overlays: Seq<OverlayEntry>, width: u32, height: u32) -> bool {
    exists|i: int|
        0 <= i < overlays.len() && (#[trigger] overlays[i]).width == width && overlays[i].height
            == height
}

/// The counts change by one file with the given outcome.
pub open spec fn tally_step(before: FileTally, after: FileTally, outcome: FileOutcome) -> bool {
    &&& after.scanned == before.scanned
    &&& after.success == before.success + if outcome == FileOutcome::Success {
        1int
    } else {
        0int
    }
    &&& after.failure == before.failure + if outcome == FileOutcome::Failure {
        1int
    } else {
        0int
    }
    &&& after.skipped == before.skipped + if outcome == FileOutcome::Skipped {
        1int
    } else {
        0int
    }
}

/// A video progress report shows the counts of `b` and names `current_file`.
pub open spec fn video_report(
    b: VideoBatch,
    p: BatchVideoWatermarkProgressPayload,
    current_file: Option<String>,
) -> bool {
    &&& p.scanned_file_count == b.tally.scanned
    &&& p.processed_file_count == b.tally.processed_spec()
    &&& p.success_count == b.tally.success
    &&& p.failure_count == b.tally.failure
    &&& p.skipped_count == b.tally.skipped
    &&& p.generated_overlay_count == b.generated_overlays
    &&& p.reused_overlay_count == b.reused_overlays
    &&& p.current_file == current_file
}

impl VideoBatch {
    /// The counts hold; there is one overlay per size, named after it, and
    /// every overlay was counted as generated. Each overlay made or reused
    /// went to one video: every success got one, and only a success or a
    /// failure can have got one.
    pub open spec fn wf(&self) -> bool {
        &&& self.tally.wf()
        &&& self.generated_overlays == self.overlays@.len()
        &&& forall|i: int|
            0 <= i < self.overlays@.len() ==> (#[trigger] self.overlays@[i]).file_name@
                == overlay_file_name(self.overlays@[i].width, self.overlays@[i].height)
        &&& forall|i: int, j: int|
            0 <= i < j < self.overlays@.len() ==> !((#[trigger] self.overlays@[i]).width
                == (#[trigger] self.overlays@[j]).width && self.overlays@[i].height
                == self.overlays@[j].height)
        &&& self.tally.success <= self.overlaid_files <= self.tally.success + self.tally.failure
        &&& self.generated_overlays + self.reused_overlays == self.overlaid_files + if self.overlay_ready {
            1int
        } else {
            0int
        }
        &&& self.overlay_ready ==> self.tally.processed_spec() < self.tally.scanned
    }

    /// Starts a video batch over `scanned` files: the first progress report,
    /// or the error `输入目录中没有可处理的视频文件` when there is none.
    pub fn start(scanned: usize) -> (r: Result<(VideoBatch, BatchVideoWatermarkProgressPayload), String>)
        ensures
            match r {
                Ok((b, p)) => scanned > 0 && b.wf() && b.tally.scanned == scanned
                    && b.tally.success == 0 && b.tally.failure == 0 && b.tally.skipped == 0
                    && b.generated_overlays == 0 && b.reused_overlays == 0
                    && b.overlays@.len() == 0 && !b.overlay_ready && video_report(b, p, None),
                Err(e) => scanned == 0 && e@ == "输入目录中没有可处理的视频文件"@,
            },
    {
        if scanned == 0 {
            return Err(string_of(&chars_of("输入目录中没有可处理的视频文件")));
        }
        let b = VideoBatch {
            tally: FileTally::new(scanned),
            generated_overlays: 0,
            reused_overlays: 0,
            overlays: Vec::new(),
            overlaid_files: 0,
            overlay_ready: false,
        };
        let p = b.progress(None);
        Ok((b, p))
    }

    /// The progress report, naming the file just handled.
    pub fn progress(&self, current_file: Option<String>) -> (r: BatchVideoWatermarkProgressPayload)
        requires
            self.tally.wf(),
        ensures
            video_report(*self, r, current_file),
    {
        BatchVideoWatermarkProgressPayload {
            scanned_file_count: self.tally.scanned,
            processed_file_count: self.tally.processed(),
            success_count: self.tally.success,
            failure_count: self.tally.failure,
            skipped_count: self.tally.skipped,
            generated_overlay_count: self.generated_overlays,
            reused_overlay_count: self.reused_overlays,
            current_file,
        }
    }

    /// Counts one more video with the given outcome and reports progress. A
    /// success needs the overlay of this video; a video with an overlay is
    /// not skipped.
    pub fn record(&mut self, outcome: FileOutcome, current_file: Option<String>) -> (r:
        BatchVideoWatermarkProgressPayload)
        requires
            old(self).wf(),
            old(self).tally.processed_spec() < old(self).tally.scanned,
            outcome == FileOutcome::Success ==> old(self).overlay_ready,
            old(self).overlay_ready ==> outcome != FileOutcome::Skipped,
        ensures
            final(self).wf(),
            !final(self).overlay_ready,
            final(self).overlays@ == old(self).overlays@,
            final(self).generated_overlays == old(self).generated_overlays,
            final(self).reused_overlays == old(self).reused_overlays,
            tally_step(old(self).tally, final(self).tally, outcome),
            video_report(*final(self), r, current_file),
    {
        self.tally.record(outcome);
        if self.overlay_ready {
            self.overlaid_files = self.overlaid_files + 1;
            self.overlay_ready = false;
        }
        self.progress(current_file)
    }

    /// The overlay for the video being handled, of the given size: the one
    /// made before for that size, which counts as reused and now belongs to
    /// this video, or the name to make it under.
    pub fn overlay_for(&mut self, width: u32, height: u32) -> (r: OverlayStep)
        requires
            old(self).wf(),
            !old(self).overlay_ready,
            old(self).tally.processed_spec() < old(self).tally.scanned,
        ensures
            final(self).wf(),
            final(self).tally == old(self).tally,
            final(self).overlays@ == old(self).overlays@,
            final(self).generated_overlays == old(self).generated_overlays,
            final(self).overlaid_files == old(self).overlaid_files,
            match r {
                OverlayStep::Reuse(name) => has_size(old(self).overlays@, width, height)
                    && name@ == overlay_file_name(width, height) && final(self).reused_overlays
                    == old(self).reused_overlays + 1 && final(self).overlay_ready,
                OverlayStep::Generate(name) => !has_size(old(self).overlays@, width, height)
                    && name@ == overlay_file_name(width, height) && final(self).reused_overlays
                    == old(self).reused_overlays && !final(self).overlay_ready,
            },
    {
        match find_overlay(&self.overlays, width, height) {
            Some(i) => {
                let name = self.overlays[i].file_name.clone();
                self.reused_overlays = self.reused_overlays + 1;
                self.overlay_ready = true;
                proof {
                    assert(name@ == self.overlays@[i as int].file_name@);
                }
                OverlayStep::Reuse(name)
            },
            None => OverlayStep::Generate(overlay_name(width, height)),
        }
    }

    /// Records that the overlay for the size was made and saved for the
    /// video being handled.
    pub fn overlay_generated(&mut self, width: u32, height: u32)
        requires
            old(self).wf(),
            !old(self).overlay_ready,
            old(self).tally.processed_spec() < old(self).tally.scanned,
            !has_size(old(self).overlays@, width, height),
        ensures
            final(self).wf(),
            final(self).overlay_ready,
            final(self).tally == old(self).tally,
            final(self).reused_overlays == old(self).reused_overlays,
            final(self).overlaid_files == old(self).overlaid_files,
            final(self).generated_overlays == old(self).generated_overlays + 1,
            final(self).overlays@.len() == old(self).overlays@.len() + 1,
            has_size(final(self).overlays@, width, height),
            forall|w: u32, h: u32|
                has_size(old(self).overlays@, w, h) ==> has_size(final(self).overlays@, w, h),
    {
        let ghost before = self.overlays@;
        self.overlays.push(OverlayEntry { width, height, file_name: overlay_name(width, height) });
        self.generated_overlays = self.generated_overlays + 1;
        self.overlay_ready = true;
        assert(self.overlays@[before.len() as int].width == width);
        assert forall|w: u32, h: u32| has_size(before, w, h) implies has_size(
            self.overlays@,
            w,
            h,
        ) by {
            let i = choose|i: int|
                0 <= i < before.len() && (#[trigger] before[i]).width == w && before[i].height == h;
            assert(self.overlays@[i] == before[i]);
        }
    }

    /// The outcome of the batch, written to `output_dir`. Between two videos,
    /// every success got an overlay, and no more overlays were made or reused
    /// than there were successes and failures.
    pub fn result(&self, output_dir: String) -> (r: BatchVideoWatermarkResult)
        requires
            self.wf(),
        ensures
            r.scanned_file_count == self.tally.scanned,
            r.success_count == self.tally.success,
            r.failure_count == self.tally.failure,
            r.skipped_count == self.tally.skipped,
            r.generated_overlay_count == self.generated_overlays,
            r.reused_overlay_count == self.reused_overlays,
            r.output_dir == output_dir,
            !self.overlay_ready ==> r.success_count <= r.generated_overlay_count
                + r.reused_overlay_count <= r.success_count + r.failure_count,
    {
        BatchVideoWatermarkResult {
            scanned_file_count: self.tally.scanned,
            success_count: self.tally.success,
            failure_count: self.tally.failure,
            skipped_count: self.tally.skipped,
            generated_overlay_count: self.generated_overlays,
            reused_overlay_count: self.reused_overlays,
            output_dir,
        }
    }
}

/// The position of the overlay made for the size, if there is one.
fn find_overlay(overlays: &Vec<OverlayEntry>, width: u32, height: u32) -> (r: Option<usize>)
    ensures
        match r {
            Some(i) => i < overlays@.len() && overlays@[i as int].width == width
                && overlays@[i as int].height == height,
            None => !has_size(overlays@, width, height),
        },
{
    let mut i: usize = 0;
    while i < overlays.len()
        invariant
            i <= overlays@.len(),
            forall|k: int|
                0 <= k < i ==> !((#[trigger] overlays@[k]).width == width && overlays@[k].height
                    == height),
        decreases overlays.len() - i,
    {
        if overlays[i].width == width && overlays[i].height == height {
            return Some(i);
        }
        i = i + 1;
    }
    None
}

/// The name of the overlay image for videos of the given size.
pub fn overlay_name(width: u32, height: u32) -> (r: String)
    ensures
        r@ == overlay_file_name(width, height),
{
    let mut m = decimal_chars(width as usize);
    push_all(&mut m, &chars_of("x"));
    push_all(&mut m, &decimal_chars(height as usize));
    push_all(&mut m, &chars_of(".png"));
    string_of(&m)
}

} // verus!
