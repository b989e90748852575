use pdf_split::batch::{FileOutcome, OverlayStep, VideoBatch};
use pdf_split::series::{DownloadRun, DownloadStatus};
use pdf_split::download::{
    build_summary, parse_download_list, parse_episode_title, read_download_lists,
    sanitize_directory_name, ListFile,
};
use pdf_split::listing::{list_previewable_files, DirectoryListing, PreviewKind};
use pdf_split::paths::path_file_stem;
use pdf_split::recut::is_numbered_file;
use pdf_split::series::episode_file_name;
use pdf_split::validation::{
    ensure_distinct_directories, ensure_trailing_separator, normalize_directory_for_compare,
};

#[test]
fn parsed_lists_are_sorted_unique_and_valid() {
    let items = parse_download_list(
        "https://e.com/c,丙 - 第3集\nhttp://e.com/a,甲 - 第2集\nhttps://e.com/b,丙 - 第1集\nhttps://e.com/d,甲 - 第10集",
    )
    .ok()
    .unwrap();
    for pair in items.windows(2) {
        let a = (&pair[0].series_name, pair[0].episode);
        let b = (&pair[1].series_name, pair[1].episode);
        assert!(a <= b);
    }
    for (i, x) in items.iter().enumerate() {
        assert!(x.url.starts_with("https://") || x.url.starts_with("http://"));
        assert!(x.episode > 0);
        assert_eq!(sanitize_directory_name(&x.series_name), Some(x.directory_name.clone()));
        for y in &items[i + 1..] {
            assert!(!(x.directory_name == y.directory_name && x.episode == y.episode));
        }
    }
}

#[test]
fn merged_lists_are_sorted() {
    let files = vec![
        ListFile::Text { display: "b.txt".into(), content: "https://e/2,乙 - 第2集".into() },
        ListFile::Text { display: "a.txt".into(), content: "https://e/1,乙 - 第1集\nhttps://e/3,甲 - 第1集".into() },
    ];
    let (items, n) = read_download_lists(true, &files).ok().unwrap();
    assert_eq!(n, 2);
    let keys: Vec<(String, usize)> = items.iter().map(|x| (x.series_name.clone(), x.episode)).collect();
    let mut sorted = keys.clone();
    sorted.sort();
    assert_eq!(keys, sorted);
}

#[test]
fn titles_read_back_what_was_written() {
    for (name, episode) in [("剧", 1usize), ("a - 第b", 42), ("名字 带空格", 1000000)] {
        let title = format!("{name} - 第{episode}集");
        assert_eq!(parse_episode_title(&title), Some((name.to_string(), episode)));
    }
}

#[test]
fn directory_names_hold_no_reserved_characters() {
    for name in ["a/b", "c:\\d", "\u{7}e?", " f* ", "x|y<z>\""] {
        let d = sanitize_directory_name(name).unwrap();
        assert!(!d.is_empty() && d != "." && d != "..");
        assert!(!d.chars().any(|c| c.is_control() || "<>:\"/\\|?*".contains(c)));
    }
}

#[test]
fn summaries_count_every_item_once_in_name_order() {
    let items = parse_download_list(
        "https://e/1,乙 - 第1集\nhttps://e/2,甲 - 第1集\nhttps://e/3,乙 - 第2集\nhttps://e/4,丙 - 第5集",
    )
    .ok()
    .unwrap();
    let summary = build_summary(&items, 1);
    let total: usize = summary.series.iter().map(|s| s.episode_count).sum();
    assert_eq!(total, items.len());
    for pair in summary.series.windows(2) {
        assert!(pair[0].name < pair[1].name);
    }
    for s in &summary.series {
        assert_eq!(s.episode_count, items.iter().filter(|x| x.series_name == s.name).count());
    }
}

#[test]
fn listings_are_sorted_and_complete() {
    let files: Vec<String> = ["z.png", "b\\c.jpg", "a/b.gif", "n.txt", "A.PNG"].iter().map(|s| s.to_string()).collect();
    let listed = list_previewable_files("/in".into(), &DirectoryListing { is_dir: true, files }, PreviewKind::Image)
        .ok()
        .unwrap();
    assert_eq!(
        listed,
        vec!["A.PNG".to_string(), "a/b.gif".to_string(), "b/c.jpg".to_string(), "z.png".to_string()]
    );
}

#[test]
fn episode_files_are_numbered_files() {
    for episode in [1usize, 9, 10, 12345] {
        let name = episode_file_name(episode);
        assert!(is_numbered_file(&name));
        assert_eq!(path_file_stem(&name).unwrap().parse::<usize>().ok(), Some(episode));
    }
}

#[test]
fn a_trailing_separator_names_the_same_directory() {
    for dir in ["/tmp/out", "/tmp/out///", "rel\\dir\\", ""] {
        let with = ensure_trailing_separator(dir);
        assert_eq!(normalize_directory_for_compare(&with), normalize_directory_for_compare(dir));
        assert!(ensure_distinct_directories(&with, dir).is_err());
    }
}

#[test]
fn video_batch_reports_count_up_and_overlays_match_successes() {
    let (mut batch, first) = VideoBatch::start(4).ok().unwrap();
    let mut reports = vec![first];
    let steps = [(Some((640, 480)), true), (Some((640, 480)), false), (None, false), (Some((800, 600)), true)];
    for (i, (size, ok)) in steps.iter().enumerate() {
        let mut got_overlay = false;
        if let Some((w, h)) = size {
            match batch.overlay_for(*w, *h) {
                OverlayStep::Reuse(_) => got_overlay = true,
                OverlayStep::Generate(_) => {
                    batch.overlay_generated(*w, *h);
                    got_overlay = true;
                }
            }
        }
        let outcome = if got_overlay && *ok {
            FileOutcome::Success
        } else if got_overlay {
            FileOutcome::Failure
        } else {
            FileOutcome::Skipped
        };
        reports.push(batch.record(outcome, Some(format!("v{i}.mp4"))));
    }
    assert_eq!(reports.len(), 5);
    for (k, r) in reports.iter().enumerate() {
        assert_eq!(r.scanned_file_count, 4);
        assert_eq!(r.processed_file_count, k);
        assert_eq!(r.processed_file_count, r.success_count + r.failure_count + r.skipped_count);
        if k > 0 {
            assert_eq!(r.current_file, Some(format!("v{}.mp4", k - 1)));
        }
    }
    assert_eq!(reports[0].current_file, None);
    let result = batch.result("/out".into());
    let overlays = result.generated_overlay_count + result.reused_overlay_count;
    assert!(result.success_count <= overlays && overlays <= result.success_count + result.failure_count);
    assert_eq!((result.generated_overlay_count, result.reused_overlay_count), (2, 1));
}

#[test]
fn download_reports_count_up_and_name_each_episode() {
    let items = parse_download_list("https://e/1,甲 - 第1集\nhttps://e/2,甲 - 第2集\nhttps://e/3,乙 - 第7集")
        .ok()
        .unwrap();
    let (mut run, first) = DownloadRun::start(&items, "/out".into());
    let mut reports = vec![first];
    for (i, item) in items.iter().enumerate().rev() {
        let status = if i == 1 { DownloadStatus::Failure("x".into()) } else { DownloadStatus::Success };
        reports.push(run.record(item, status));
    }
    assert_eq!(reports[0].current_series, None);
    assert_eq!(reports[0].current_episode, None);
    for (k, r) in reports.iter().enumerate() {
        assert_eq!(r.total_count, 3);
        assert_eq!(r.processed_count, k);
        assert_eq!(r.processed_count, r.success_count + r.failure_count + r.skipped_count);
        if k > 0 {
            let item = &items[3 - k];
            assert_eq!(r.current_series.as_deref(), Some(item.series_name.as_str()));
            assert_eq!(r.current_episode, Some(item.episode));
        }
    }
    let last = reports.last().unwrap();
    assert_eq!((last.success_count, last.failure_count), (run.result.success_count, run.result.failure_count));
}

#[test]
fn directory_names_are_trimmed_and_no_longer_than_the_name() {
    for name in ["  剧  ", "a/b.. ", "\u{3000}x\u{3000}"] {
        let d = sanitize_directory_name(name).unwrap();
        assert_eq!(d.trim(), d);
        assert!(d.chars().count() <= name.chars().count());
    }
}
