//! Re-cutting a series: the checks on the request, and the progress shown
//! while the outside tool writes numbered episode files.
use vstd::prelude::*;

use crate::listing::{sort_paths, sort_strings, strings_view, PathOrder};
use crate::models::{SeriesRecutInput, SeriesRecutProgressPayload, SeriesRecutResult};
use crate::paths::{file_name, name_stem, path_file_name, path_file_stem};
use crate::text::{
    chars_of, decimal_chars_2, decimal_text_2, parse_usize, parse_usize_range, push_all,
    string_of, trim,
};
use crate::validation::{ensure_distinct_directories, normalized_directory, require_value};

verus! {

// ---------------------------------------------------------------------------
// The request
// ---------------------------------------------------------------------------

/// A re-cut request whose values passed the checks.
#[derive(Debug)]
pub struct SeriesRecutRequest {
    pub input_dir: String,
    pub output_dir: String,
    pub keep_count: usize,
    pub total_count: usize,
}

/// The first check that a re-cut request fails: both directories given and
/// distinct, and no fewer episodes in all than are kept at the front.
pub open spec fn series_recut_error(
    input_dir: Seq<char>,
    output_dir: Seq<char>,
    keep_count: usize,
    total_count: usize,
) -> Option<Seq<char>> {
    if trim(input_dir).len() == 0 {
        Some("输入目录"@ + "不能为空"@)
    } else if trim(output_dir).len() == 0 {
        Some("输出目录"@ + "不能为空"@)
    } else if normalized_directory(trim(input_dir)) == normalized_directory(trim(output_dir)) {
        Some("输入目录与输出目录不能相同"@)
    } else if total_count < keep_count {
        Some("目标总集数不能小于前面保留集数"@)
    } else {
        None
    }
}

/// Checks a re-cut request; the directories come back trimmed.
pub fn prepare_series_recut(payload: SeriesRecutInput) -> (r: Result<SeriesRecutRequest, String>)
    ensures
        match series_recut_error(
            payload.input_dir@,
            payload.output_dir@,
            payload.keep_count,
            payload.total_count,
        ) {
            Some(m) => r matches Err(e) && e@ == m,
            None => r matches Ok(q) && q.input_dir@ == trim(payload.input_dir@) && q.output_dir@
                == trim(payload.output_dir@) && q.keep_count == payload.keep_count
                && q.total_count == payload.total_count,
        },
{
    let keep_count = payload.keep_count;
    let total_count = payload.total_count;
    let input_dir = require_value("输入目录", payload.input_dir)?;
    let output_dir = require_value("输出目录", payload.output_dir)?;
    ensure_distinct_directories(input_dir.as_str(), output_dir.as_str())?;
    if total_count < keep_count {
        return Err(string_of(&chars_of("目标总集数不能小于前面保留集数")));
    }
    Ok(SeriesRecutRequest { input_dir, output_dir, keep_count, total_count })
}

// ---------------------------------------------------------------------------
// Numbered files
// ---------------------------------------------------------------------------

/// Whether a path names an episode file: its file stem reads as a number.
pub open spec fn is_numbered(path: Seq<char>) -> bool {
    file_name(path) matches Some(n) && parse_usize(name_stem(n)) is Some
}

/// The numbered paths among `paths`, in order.
pub open spec fn numbered_files(paths: Seq<Seq<char>>) -> Seq<Seq<char>>
    decreases paths.len(),
{
    if paths.len() == 0 {
        seq![]
    } else {
        let rest = numbered_files(paths.drop_last());
        if is_numbered(paths.last()) {
            rest.push(paths.last())
        } else {
            rest
        }
    }
}

/// Whether a path names an episode file.
pub fn is_numbered_file(path: &str) -> (r: bool)
    ensures
        r == is_numbered(path@),
{
    match path_file_stem(path) {
        Some(stem) => {
            let c = chars_of(stem.as_str());
            assert(c@.subrange(0, c@.len() as int) == c@);
            parse_usize_range(&c, 0, c.len()).is_some()
        },
        None => false,
    }
}

/// The numbered paths among `paths`, in order.
fn pick_numbered(paths: &[String]) -> (r: Vec<String>)
    ensures
        strings_view(r@) == numbered_files(strings_view(paths@)),
{
    let ghost all = strings_view(paths@);
    let mut picked: Vec<String> = Vec::new();
    let mut k: usize = 0;
    assert(strings_view(picked@) =~= seq![]);
    while k < paths.len()
        invariant
            k <= paths@.len(),
            all == strings_view(paths@),
            strings_view(picked@) == numbered_files(all.take(k as int)),
        decreases paths.len() - k,
    {
        assert(all.take(k + 1).drop_last() == all.take(k as int));
        assert(all.take(k + 1).last() == paths@[k as int]@);
        if is_numbered_file(paths[k].as_str()) {
            let ghost before = strings_view(picked@);
            picked.push(paths[k].clone());
            assert(strings_view(picked@) == before.push(paths@[k as int]@));
        }
        k = k + 1;
    }
    assert(all.take(k as int) == all);
    picked
}

/// The episode files of the input directory (the names of its files), in
/// name order, or the error `输入目录中没有可处理的视频文件` when none is numbered.
pub fn scan_series_episodes(paths: &[String]) -> (r: Result<Vec<String>, String>)
    ensures
        match r {
            Ok(v) => numbered_files(strings_view(paths@)).len() > 0 && strings_view(v@)
                == sort_paths(numbered_files(strings_view(paths@)), PathOrder::Text),
            Err(e) => numbered_files(strings_view(paths@)).len() == 0 && e@
                == "输入目录中没有可处理的视频文件"@,
        },
{
    let picked = pick_numbered(paths);
    if picked.len() == 0 {
        return Err(string_of(&chars_of("输入目录中没有可处理的视频文件")));
    }
    Ok(sort_strings(picked, PathOrder::Text))
}

/// The number of episode files written so far (the names of the files of
/// the output directory).
pub fn count_numbered_files(paths: &[String]) -> (r: usize)
    ensures
        r == numbered_files(strings_view(paths@)).len(),
{
    let picked = pick_numbered(paths);
    picked.len()
}

/// The file name of the last episode file, in name order, of those written
/// so far.
pub open spec fn latest_numbered(paths: Seq<Seq<char>>) -> Option<Seq<char>> {
    let sorted = sort_paths(numbered_files(paths), PathOrder::Text);
    if sorted.len() == 0 {
        None
    } else {
        file_name(sorted.last())
    }
}

/// The file name of the last episode file written so far, in name order.
pub fn latest_numbered_file(paths: &[String]) -> (r: Option<String>)
    ensures
        match latest_numbered(strings_view(paths@)) {
            Some(n) => r matches Some(s) && s@ == n,
            None => r is None,
        },
{
    let sorted = sort_strings(pick_numbered(paths), PathOrder::Text);
    proof {
        crate::listing::lemma_sort_paths_len(numbered_files(strings_view(paths@)), PathOrder::Text);
    }
    if sorted.len() == 0 {
        return None;
    }
    let last = sorted.len() - 1;
    assert(strings_view(sorted@).last() == sorted@[last as int]@);
    path_file_name(sorted[last].as_str())
}

// ---------------------------------------------------------------------------
// Progress
// ---------------------------------------------------------------------------

/// The stages of a re-cut, in order.
#[derive(Clone, Copy, Debug, PartialEq, Eq)]
pub enum RecutStage {
    Scanning,
    Preparing,
    Running,
    Finished,
}

/// The name of a stage as reported.
pub open spec fn stage_text(stage: RecutStage) -> Seq<char> {
    match stage {
        RecutStage::Scanning => "扫描输入剧集"@,
        RecutStage::Preparing => "准备切分任务"@,
        RecutStage::Running => "执行剧集切分"@,
        RecutStage::Finished => "完成"@,
    }
}

/// The name of a stage as reported.
pub fn stage_name(stage: RecutStage) -> (r: String)
    ensures
        r@ == stage_text(stage),
{
    match stage {
        RecutStage::Scanning => string_of(&chars_of("扫描输入剧集")),
        RecutStage::Preparing => string_of(&chars_of("准备切分任务")),
        RecutStage::Running => string_of(&chars_of("执行剧集切分")),
        RecutStage::Finished => string_of(&chars_of("完成")),
    }
}

/// The report at the start of a stage, before any episode is written.
pub fn stage_started(total_count: usize, stage: RecutStage) -> (r: SeriesRecutProgressPayload)
    ensures
        r.total_count == total_count,
        r.processed_count == 0,
        r.current_stage@ == stage_text(stage),
        r.current_file is None,
{
    SeriesRecutProgressPayload {
        total_count,
        processed_count: 0,
        current_stage: stage_name(stage),
        current_file: None,
    }
}

/// The smaller of two counts.
fn at_most(a: usize, b: usize) -> (r: usize)
    ensures
        r == if a <= b {
            a
        } else {
            b
        },
{
    if a <= b {
        a
    } else {
        b
    }
}

/// The name shown for the latest episode while the re-cut runs: the last
/// numbered file found, else `{count:02}.mp4` once some were counted.
pub open spec fn running_file(generated: usize, latest: Option<Seq<char>>) -> Option<Seq<char>> {
    match latest {
        Some(n) => Some(n),
        None => if generated > 0 {
            Some(decimal_text_2(generated as nat) + ".mp4"@)
        } else {
            None
        },
    }
}

/// The report while the re-cut runs, from what the output directory holds:
/// `generated` episode files, the latest named `latest`.
pub fn running_progress(total_count: usize, generated: usize, latest: Option<String>) -> (r:
    SeriesRecutProgressPayload)
    ensures
        r.total_count == total_count,
        r.processed_count == if generated <= total_count {
            generated
        } else {
            total_count
        },
        r.current_stage@ == stage_text(RecutStage::Running),
        match running_file(
            generated,
            match latest {
                Some(s) => Some(s@),
                None => None,
            },
        ) {
            Some(n) => r.current_file matches Some(f) && f@ == n,
            None => r.current_file is None,
        },
{
    let current_file = match latest {
        Some(name) => Some(name),
        None => if generated > 0 {
            let mut c = decimal_chars_2(generated);
            push_all(&mut c, &chars_of(".mp4"));
            Some(string_of(&c))
        } else {
            None
        },
    };
    SeriesRecutProgressPayload {
        total_count,
        processed_count: at_most(generated, total_count),
        current_stage: stage_name(RecutStage::Running),
        current_file,
    }
}

/// The last report and the result once the outside tool wrote
/// `output_files` into `output_dir`.
pub fn recut_finished(total_count: usize, output_dir: String, output_files: Vec<String>) -> (r: (
    SeriesRecutProgressPayload,
    SeriesRecutResult,
))
    ensures
        r.0.total_count == total_count,
        r.0.processed_count == if output_files@.len() <= total_count {
            output_files@.len()
        } else {
            total_count as nat
        },
        r.0.current_stage@ == stage_text(RecutStage::Finished),
        if output_files@.len() == 0 {
            r.0.current_file is None
        } else {
            r.0.current_file matches Some(f) && f@ == output_files@.last()@
        },
        r.1.generated_file_count == output_files@.len(),
        r.1.output_dir == output_dir,
        r.1.output_files@ == output_files@,
{
    let n = output_files.len();
    let current_file = if n == 0 {
        None
    } else {
        Some(output_files[n - 1].clone())
    };
    let progress = SeriesRecutProgressPayload {
        total_count,
        processed_count: at_most(n, total_count),
        current_stage: stage_name(RecutStage::Finished),
        current_file,
    };
    (progress, SeriesRecutResult { generated_file_count: n, output_dir, output_files })
}

} // verus!
