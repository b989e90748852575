//! Running a series download: the checks on the request, the counts kept
//! while episodes finish, and what is decided for each episode.
use vstd::prelude::*;

use crate::download::{items_view, DownloadItem, DownloadItemView};
use crate::models::{SeriesDownloadInput, SeriesDownloadProgressPayload, SeriesDownloadResult};
use crate::text::{chars_of, decimal_chars, decimal_text, push_all, string_of, trim};
use crate::validation::require_value;

verus! {

/// The most downloads that may run at once.
pub const MAX_CONCURRENT_DOWNLOADS: usize = 20;

/// How many times one episode is tried before it counts as failed.
pub const MAX_DOWNLOAD_ATTEMPTS: usize = 3;

// ---------------------------------------------------------------------------
// The request
// ---------------------------------------------------------------------------

/// A download request whose values passed the checks.
#[derive(Debug)]
pub struct SeriesDownloadRequest {
    pub input_dir: String,
    pub output_dir: String,
    pub concurrent_downloads: usize,
}

/// The first check that a download request fails: the list directory and
/// the output directory must not be blank, and the number of downloads at
/// once must lie between 1 and 20.
pub open spec fn series_download_error(input_dir: Seq<char>, output_dir: Seq<char>, n: usize) -> Option<
    Seq<char>,
> {
    if trim(input_dir).len() == 0 {
        Some("TXT 清单目录"@ + "不能为空"@)
    } else if trim(output_dir).len() == 0 {
        Some("输出目录"@ + "不能为空"@)
    } else if !(1 <= n && n <= MAX_CONCURRENT_DOWNLOADS) {
        Some("同时下载数必须在 1 到 20 之间"@)
    } else {
        None
    }
}

/// Checks a download request; the directories come back trimmed.
pub fn prepare_series_download(payload: SeriesDownloadInput) -> (r: Result<SeriesDownloadRequest, String>)
    ensures
        match series_download_error(
            payload.input_dir@,
            payload.output_dir@,
            payload.concurrent_downloads,
        ) {
            Some(m) => r matches Err(e) && e@ == m,
            None => r matches Ok(q) && q.input_dir@ == trim(payload.input_dir@) && q.output_dir@
                == trim(payload.output_dir@) && q.concurrent_downloads
                == payload.concurrent_downloads,
        },
{
    let n = payload.concurrent_downloads;
    let input_dir = require_value("TXT 清单目录", payload.input_dir)?;
    let output_dir = require_value("输出目录", payload.output_dir)?;
    if !(1 <= n && n <= MAX_CONCURRENT_DOWNLOADS) {
        return Err(string_of(&chars_of("同时下载数必须在 1 到 20 之间")));
    }
    Ok(SeriesDownloadRequest { input_dir, output_dir, concurrent_downloads: n })
}

/// The number of workers: the downloads allowed at once, but no more than
/// there are episodes.
pub fn worker_count(concurrent_downloads: usize, total_count: usize) -> (r: usize)
    ensures
        r == if concurrent_downloads <= total_count {
            concurrent_downloads
        } else {
            total_count
        },
{
    if concurrent_downloads <= total_count {
        concurrent_downloads
    } else {
        total_count
    }
}

// ---------------------------------------------------------------------------
// Series
// ---------------------------------------------------------------------------

/// The directory names of the items, in order.
pub open spec fn directory_names(items: Seq<DownloadItemView>) -> Seq<Seq<char>> {
    items.map_values(|i: DownloadItemView| i.directory_name)
}

/// The number of series among the items: of distinct directory names.
pub open spec fn series_count(items: Seq<DownloadItemView>) -> nat {
    directory_names(items).to_set().len()
}

/// Whether one of the first `k` items has the directory name `name`.
fn named_before(items: &[DownloadItem], k: usize, name: &String) -> (r: bool)
    requires
        k <= items@.len(),
    ensures
        r == exists|j: int| 0 <= j < k && (#[trigger] items@[j]).directory_name@ == name@,
{
    let mut j: usize = 0;
    while j < k
        invariant
            j <= k <= items@.len(),
            forall|i: int| 0 <= i < j ==> (#[trigger] items@[i]).directory_name@ != name@,
        decreases k - j,
    {
        if items[j].directory_name == *name {
            return true;
        }
        j = j + 1;
    }
    false
}

/// The number of series among the items: of distinct directory names.
pub fn count_series(items: &[DownloadItem]) -> (r: usize)
    ensures
        r == series_count(items_view(items@)),
{
    broadcast use vstd::set::group_set_axioms, vstd::seq_lib::seq_to_set_is_finite;

    let mut n: usize = 0;
    let mut k: usize = 0;
    assert(directory_names(items_view(items@.take(0))).to_set() =~= Set::<Seq<char>>::empty());
    while k < items.len()
        invariant
            k <= items@.len(),
            n <= k,
            n == series_count(items_view(items@.take(k as int))),
        decreases items.len() - k,
    {
        let ghost before = directory_names(items_view(items@.take(k as int)));
        let ghost after = directory_names(items_view(items@.take(k + 1)));
        let ghost name = items@[k as int].directory_name@;
        assert(after == before.push(name));
        proof {
            before.lemma_push_to_set_commute(name);
        }
        let seen = named_before(items, k, &items[k].directory_name);
        assert(seen == before.contains(name)) by {
            if seen {
                let j = choose|j: int| 0 <= j < k && (#[trigger] items@[j]).directory_name@ == name;
                assert(before[j] == name);
            }
            if before.contains(name) {
                let j = choose|j: int| 0 <= j < before.len() && before[j] == name;
                assert(items@[j].directory_name@ == name);
            }
        }
        if !seen {
            n = n + 1;
        }
        k = k + 1;
    }
    assert(items@.take(items@.len() as int) == items@);
    n
}

// ---------------------------------------------------------------------------
// The counts of a run
// ---------------------------------------------------------------------------

/// What became of one episode.
#[derive(Debug)]
pub enum DownloadStatus {
    /// The file was downloaded and saved.
    Success,
    /// The episode failed for the given reason.
    Failure(String),
    /// The file was there already.
    Skipped,
}

/// The line listing a failed episode: `{剧名} 第{N}集：{reason}`.
pub open spec fn failed_item_message(series_name: Seq<char>, episode: usize, reason: Seq<char>) -> Seq<
    char,
> {
    series_name + " 第"@ + decimal_text(episode as nat) + "集："@ + reason
}

/// The state of a download run: the result as it stands.
#[derive(Debug)]
pub struct DownloadRun {
    pub result: SeriesDownloadResult,
}

/// A download progress report shows the counts of `run`.
pub open spec fn download_report(run: DownloadRun, p: SeriesDownloadProgressPayload) -> bool {
    &&& p.total_count == run.result.total_count
    &&& p.processed_count == run.processed_spec()
    &&& p.success_count == run.result.success_count
    &&& p.failure_count == run.result.failure_count
    &&& p.skipped_count == run.result.skipped_count
}

/// A download progress report names the episode of `item`.
pub open spec fn names_episode(p: SeriesDownloadProgressPayload, item: DownloadItem) -> bool {
    &&& p.current_series matches Some(s) && s@ == item.series_name@
    &&& p.current_episode == Some(item.episode)
}

impl DownloadRun {
    /// The episodes finished so far.
    pub open spec fn processed_spec(&self) -> int {
        self.result.success_count + self.result.failure_count + self.result.skipped_count
    }

    /// No more episodes finished than there are; one listed line per failure.
    pub open spec fn wf(&self) -> bool {
        &&& self.processed_spec() <= self.result.total_count
        &&& self.result.failed_items@.len() == self.result.failure_count
    }

    /// Starts a run over `items` saving under `output_dir`: the empty result
    /// and the first progress report.
    pub fn start(items: &[DownloadItem], output_dir: String) -> (r: (
        DownloadRun,
        SeriesDownloadProgressPayload,
    ))
        ensures
            r.0.wf(),
            r.0.result.total_count == items@.len(),
            r.0.result.success_count == 0,
            r.0.result.failure_count == 0,
            r.0.result.skipped_count == 0,
            r.0.result.series_count == series_count(items_view(items@)),
            r.0.result.output_dir == output_dir,
            r.0.result.failed_items@.len() == 0,
            r.1.total_count == items@.len(),
            r.1.processed_count == 0,
            r.1.success_count == 0,
            r.1.failure_count == 0,
            r.1.skipped_count == 0,
            r.1.current_series is None,
            r.1.current_episode is None,
            download_report(r.0, r.1),
    {
        let total_count = items.len();
        let result = SeriesDownloadResult {
            total_count,
            success_count: 0,
            failure_count: 0,
            skipped_count: 0,
            series_count: count_series(items),
            output_dir,
            failed_items: Vec::new(),
        };
        let progress = SeriesDownloadProgressPayload {
            total_count,
            processed_count: 0,
            success_count: 0,
            failure_count: 0,
            skipped_count: 0,
            current_series: None,
            current_episode: None,
        };
        (DownloadRun { result }, progress)
    }

    /// Counts one finished episode and gives the progress report naming it.
    pub fn record(&mut self, item: &DownloadItem, status: DownloadStatus) -> (r:
        SeriesDownloadProgressPayload)
        requires
            old(self).wf(),
            old(self).processed_spec() < old(self).result.total_count,
        ensures
            final(self).wf(),
            final(self).processed_spec() == old(self).processed_spec() + 1,
            final(self).result.total_count == old(self).result.total_count,
            final(self).result.series_count == old(self).result.series_count,
            final(self).result.output_dir == old(self).result.output_dir,
            match status {
                DownloadStatus::Success => final(self).result.success_count
                    == old(self).result.success_count + 1 && final(self).result.failure_count
                    == old(self).result.failure_count && final(self).result.skipped_count
                    == old(self).result.skipped_count && final(self).result.failed_items@
                    == old(self).result.failed_items@,
                DownloadStatus::Skipped => final(self).result.skipped_count
                    == old(self).result.skipped_count + 1 && final(self).result.success_count
                    == old(self).result.success_count && final(self).result.failure_count
                    == old(self).result.failure_count && final(self).result.failed_items@
                    == old(self).result.failed_items@,
                DownloadStatus::Failure(reason) => final(self).result.failure_count
                    == old(self).result.failure_count + 1 && final(self).result.success_count
                    == old(self).result.success_count && final(self).result.skipped_count
                    == old(self).result.skipped_count && final(self).result.failed_items@.drop_last()
                    == old(self).result.failed_items@
                    && final(self).result.failed_items@.last()@ == failed_item_message(
                    item.series_name@,
                    item.episode,
                    reason@,
                ),
            },
            r.total_count == final(self).result.total_count,
            r.processed_count == final(self).processed_spec(),
            r.success_count == final(self).result.success_count,
            r.failure_count == final(self).result.failure_count,
            r.skipped_count == final(self).result.skipped_count,
            r matches SeriesDownloadProgressPayload {
                current_series: Some(s),
                current_episode: Some(e),
                ..
            } && s@ == item.series_name@ && e == item.episode,
            download_report(*final(self), r),
            names_episode(r, *item),
    {
        match status {
            DownloadStatus::Success => {
                self.result.success_count = self.result.success_count + 1;
            },
            DownloadStatus::Skipped => {
                self.result.skipped_count = self.result.skipped_count + 1;
            },
            DownloadStatus::Failure(reason) => {
                self.result.failure_count = self.result.failure_count + 1;
                let mut line = chars_of(item.series_name.as_str());
                push_all(&mut line, &chars_of(" 第"));
                push_all(&mut line, &decimal_chars(item.episode));
                push_all(&mut line, &chars_of("集："));
                push_all(&mut line, &chars_of(reason.as_str()));
                let ghost before = self.result.failed_items@;
                self.result.failed_items.push(string_of(&line));
                assert(self.result.failed_items@.drop_last() == before);
            },
        }
        SeriesDownloadProgressPayload {
            total_count: self.result.total_count,
            processed_count: self.result.success_count + self.result.failure_count
                + self.result.skipped_count,
            success_count: self.result.success_count,
            failure_count: self.result.failure_count,
            skipped_count: self.result.skipped_count,
            current_series: Some(item.series_name.clone()),
            current_episode: Some(item.episode),
        }
    }
}

// ---------------------------------------------------------------------------
// One episode
// ---------------------------------------------------------------------------

/// The name of the saved file of an episode: `{N}.mp4`.
pub open spec fn episode_file_text(episode: usize) -> Seq<char> {
    decimal_text(episode as nat) + ".mp4"@
}

/// The name of the file an episode is downloaded into: `{N}.mp4.part`.
pub open spec fn episode_part_text(episode: usize) -> Seq<char> {
    decimal_text(episode as nat) + ".mp4.part"@
}

/// The name of the saved file of an episode.
pub fn episode_file_name(episode: usize) -> (r: String)
    ensures
        r@ == episode_file_text(episode),
{
    let mut c = decimal_chars(episode);
    push_all(&mut c, &chars_of(".mp4"));
    string_of(&c)
}

/// The name of the file an episode is downloaded into.
pub fn episode_part_file_name(episode: usize) -> (r: String)
    ensures
        r@ == episode_part_text(episode),
{
    let mut c = decimal_chars(episode);
    push_all(&mut c, &chars_of(".mp4.part"));
    string_of(&c)
}

/// `prefix` followed by `reason`, as a failure.
fn failure_with(prefix: &str, reason: String) -> (r: DownloadStatus)
    ensures
        r matches DownloadStatus::Failure(m) && m@ == prefix@ + reason@,
{
    let mut c = chars_of(prefix);
    push_all(&mut c, &chars_of(reason.as_str()));
    DownloadStatus::Failure(string_of(&c))
}

/// The outcome when the series directory could not be made.
pub fn series_directory_failure(reason: String) -> (r: DownloadStatus)
    ensures
        r matches DownloadStatus::Failure(m) && m@ == "无法创建剧名目录："@ + reason@,
{
    failure_with("无法创建剧名目录：", reason)
}

/// The outcome of moving the downloaded file to its final name.
pub fn saved_outcome(renamed: Result<(), String>) -> (r: DownloadStatus)
    ensures
        match renamed {
            Ok(_) => r is Success,
            Err(reason) => r matches DownloadStatus::Failure(m) && m@ == "无法保存文件："@
                + reason@,
        },
{
    match renamed {
        Ok(()) => DownloadStatus::Success,
        Err(reason) => failure_with("无法保存文件：", reason),
    }
}

/// The attempts made at one episode, and the error of the last one.
#[derive(Debug)]
pub struct DownloadAttempts {
    pub made: usize,
    pub last_error: String,
}

impl DownloadAttempts {
    /// No attempt made yet.
    pub fn new() -> (r: DownloadAttempts)
        ensures
            r.made == 0,
            r.last_error@ == Seq::<char>::empty(),
    {
        DownloadAttempts { made: 0, last_error: String::new() }
    }

    /// Records a failed attempt; says whether to try again.
    pub fn failed(&mut self, error: String) -> (again: bool)
        requires
            old(self).made < MAX_DOWNLOAD_ATTEMPTS,
        ensures
            final(self).made == old(self).made + 1,
            final(self).last_error == error,
            again == (final(self).made < MAX_DOWNLOAD_ATTEMPTS),
    {
        self.made = self.made + 1;
        self.last_error = error;
        self.made < MAX_DOWNLOAD_ATTEMPTS
    }

    /// The outcome once no attempt is left: the last error.
    pub fn give_up(self) -> (r: DownloadStatus)
        ensures
            r matches DownloadStatus::Failure(m) && m == self.last_error,
    {
        DownloadStatus::Failure(self.last_error)
    }
}

} // verus!
