use pdf_split::batch::{
    overlay_name, start_image_batch, start_pdf_batch, FileOutcome, FileTally, OverlayStep,
    VideoBatch,
};
use pdf_split::download::parse_download_list;
use pdf_split::paths::{build_batch_pdf_output_path, display_relative_path};
use pdf_split::recut::{
    count_numbered_files, is_numbered_file, latest_numbered_file, prepare_series_recut,
    recut_finished, running_progress, scan_series_episodes, stage_started, RecutStage,
};
use pdf_split::models::{SeriesDownloadInput, SeriesRecutInput};
use pdf_split::series::{
    count_series, prepare_series_download, saved_outcome, series_directory_failure,
    worker_count, DownloadAttempts, DownloadRun, DownloadStatus,
};

fn strings(v: &[&str]) -> Vec<String> {
    v.iter().map(|s| s.to_string()).collect()
}

#[test]
fn batch_pdf_watermark_command_skips_existing_nested_output() {
    assert_eq!(
        build_batch_pdf_output_path("nested/demo.pdf").ok(),
        Some("nested/demo-watermarked.pdf".to_string())
    );
    let (mut tally, first) = start_pdf_batch(1).ok().expect("batch pdf watermark should succeed");
    assert_eq!(first.processed_file_count, 0);
    tally.record(FileOutcome::Skipped);
    let result = tally.pdf_result("/out".into());

    assert_eq!(result.scanned_file_count, 1);
    assert_eq!(result.success_count, 0);
    assert_eq!(result.failure_count, 0);
    assert_eq!(result.skipped_count, 1);
}

#[test]
fn batch_pdf_watermark_command_reports_progress() {
    let (mut tally, first) = start_pdf_batch(2).ok().expect("batch pdf watermark should succeed");
    let mut progress_events = vec![first];
    for name in ["nested/a.pdf", "nested/b.pdf"] {
        tally.record(FileOutcome::Success);
        progress_events.push(tally.pdf_progress(Some(name.to_string())));
    }
    let result = tally.pdf_result("/out".into());

    assert_eq!(result.scanned_file_count, 2);
    assert_eq!(result.skipped_count, 0);
    assert_eq!(progress_events.len(), 3);
    assert_eq!(progress_events[0].processed_file_count, 0);
    assert_eq!(progress_events[2].processed_file_count, 2);
    assert_eq!(progress_events[2].current_file.as_deref(), Some("nested/b.pdf"));
}

#[test]
fn batch_pdf_watermark_command_skips_existing_outputs_and_continues_after_failures() {
    let (mut tally, first) = start_pdf_batch(3).ok().unwrap();
    let mut progress_events = vec![first];
    for outcome in [FileOutcome::Skipped, FileOutcome::Failure, FileOutcome::Failure] {
        tally.record(outcome);
        progress_events.push(tally.pdf_progress(None));
    }
    let result = tally.pdf_result("/out".into());

    assert_eq!(result.scanned_file_count, 3);
    assert_eq!(result.success_count, 0);
    assert_eq!(result.failure_count, 2);
    assert_eq!(result.skipped_count, 1);
    assert_eq!(progress_events.last().map(|it| it.processed_file_count), Some(3));
    assert_eq!(progress_events.last().map(|it| it.skipped_count), Some(1));
}

#[test]
fn batch_image_watermark_command_skips_existing_outputs_and_continues_after_failures() {
    let (mut tally, first) = start_image_batch(3).ok().unwrap();
    let mut progress_events = vec![first];
    for (outcome, name) in [
        (FileOutcome::Skipped, "a.png"),
        (FileOutcome::Failure, "b.png"),
        (FileOutcome::Success, "c.png"),
    ] {
        tally.record(outcome);
        progress_events.push(tally.image_progress(Some(name.to_string())));
    }
    let result = tally.image_result("/out".into());

    assert_eq!(result.scanned_file_count, 3);
    assert_eq!(result.success_count, 1);
    assert_eq!(result.failure_count, 1);
    assert_eq!(result.skipped_count, 1);
    assert_eq!(progress_events.last().map(|it| it.processed_file_count), Some(3));
    assert_eq!(progress_events.last().map(|it| it.skipped_count), Some(1));
}

#[test]
fn empty_batches_are_refused() {
    assert_eq!(start_image_batch(0).err().unwrap(), "输入目录内未找到可处理图片");
    assert_eq!(start_pdf_batch(0).err().unwrap(), "输入目录内未找到 PDF 文件");
    assert_eq!(VideoBatch::start(0).err().unwrap(), "输入目录中没有可处理的视频文件");
}

#[test]
fn tally_counts_each_outcome_once() {
    let mut t = FileTally::new(4);
    t.record(FileOutcome::Success);
    t.record(FileOutcome::Success);
    t.record(FileOutcome::Skipped);
    assert_eq!(t.processed(), 3);
    assert_eq!((t.success, t.failure, t.skipped), (2, 0, 1));
}

#[test]
fn video_overlays_are_made_once_per_size() {
    let (mut batch, first) = VideoBatch::start(3).ok().unwrap();
    assert_eq!(first.generated_overlay_count, 0);
    match batch.overlay_for(1920, 1080) {
        OverlayStep::Generate(name) => assert_eq!(name, "1920x1080.png"),
        OverlayStep::Reuse(_) => panic!("no overlay was made yet"),
    }
    batch.overlay_generated(1920, 1080);
    batch.record(FileOutcome::Success, Some("a.mp4".into()));
    match batch.overlay_for(1920, 1080) {
        OverlayStep::Reuse(name) => assert_eq!(name, "1920x1080.png"),
        OverlayStep::Generate(_) => panic!("the overlay should be reused"),
    }
    batch.record(FileOutcome::Success, Some("b.mp4".into()));
    match batch.overlay_for(720, 1280) {
        OverlayStep::Generate(name) => assert_eq!(name, "720x1280.png"),
        OverlayStep::Reuse(_) => panic!("another size needs its own overlay"),
    }
    let last = batch.record(FileOutcome::Failure, Some("c.mp4".into()));
    assert_eq!(last.processed_file_count, 3);
    assert_eq!(last.generated_overlay_count, 1);
    assert_eq!(last.reused_overlay_count, 1);
    let result = batch.result("/out".into());
    assert_eq!((result.success_count, result.failure_count), (2, 1));
    assert_eq!(overlay_name(7, 9), "7x9.png");
}

#[test]
fn relative_paths_are_shown_with_slashes() {
    assert_eq!(display_relative_path("a\\b/c"), "a/b/c");
    assert_eq!(build_batch_pdf_output_path("x.y.pdf").ok(), Some("x.y-watermarked.pdf".to_string()));
    assert_eq!(
        build_batch_pdf_output_path("").err(),
        Some("无法识别 PDF 文件名：".to_string())
    );
}

#[test]
fn rejects_concurrency_outside_the_supported_range() {
    let error = prepare_series_download(SeriesDownloadInput {
        input_dir: "lists".into(),
        output_dir: "/tmp".into(),
        concurrent_downloads: 21,
    })
    .err()
    .expect("excessive concurrency should fail before reading the file");

    assert!(error.contains("1 到 20"));
}

#[test]
fn download_requests_are_checked_in_order() {
    let err = prepare_series_download(SeriesDownloadInput {
        input_dir: " ".into(),
        output_dir: "".into(),
        concurrent_downloads: 0,
    })
    .err()
    .unwrap();
    assert_eq!(err, "TXT 清单目录不能为空");
    let ok = prepare_series_download(SeriesDownloadInput {
        input_dir: " lists ".into(),
        output_dir: "/tmp".into(),
        concurrent_downloads: 20,
    })
    .ok()
    .unwrap();
    assert_eq!(ok.input_dir, "lists");
    assert_eq!(ok.concurrent_downloads, 20);
    assert_eq!(worker_count(20, 3), 3);
    assert_eq!(worker_count(2, 3), 2);
}

#[test]
fn downloads_directory_lists_into_series_directories() {
    let items = parse_download_list(
        ",http://127.0.0.1/1.mp4,第一部剧 - 第1集\n,http://127.0.0.1/2.mp4,第二部剧 - 第2集",
    )
    .ok()
    .expect("series download should succeed");
    let (mut run, first) = DownloadRun::start(&items, "/out".into());
    let mut progress = vec![first];
    for item in &items {
        progress.push(run.record(item, DownloadStatus::Success));
    }
    let result = run.result;

    assert_eq!(result.success_count, 2);
    assert_eq!(result.failure_count, 0);
    assert_eq!(result.series_count, 2);
    assert_eq!(progress.last().map(|event| event.processed_count), Some(2));
}

#[test]
fn failed_episodes_are_listed_with_their_reason() {
    let items = parse_download_list(
        "https://e.com/1.mp4,剧 - 第1集\nhttps://e.com/2.mp4,剧 - 第2集\nhttps://e.com/3.mp4,另一剧 - 第2集",
    )
    .ok()
    .unwrap();
    assert_eq!(count_series(&items), 2);
    let (mut run, _) = DownloadRun::start(&items, "/out".into());
    let p = run.record(&items[0], DownloadStatus::Failure("超时".into()));
    assert_eq!(p.current_series.as_deref(), Some("剧"));
    assert_eq!(p.current_episode, Some(1));
    run.record(&items[1], DownloadStatus::Skipped);
    run.record(&items[2], saved_outcome(Ok(())));
    let r = run.result;
    assert_eq!((r.success_count, r.failure_count, r.skipped_count), (1, 1, 1));
    assert_eq!(r.failed_items, vec!["剧 第1集：超时".to_string()]);
}

#[test]
fn each_episode_is_tried_three_times() {
    let mut attempts = DownloadAttempts::new();
    assert!(attempts.failed("a".into()));
    assert!(attempts.failed("b".into()));
    assert!(!attempts.failed("c".into()));
    match attempts.give_up() {
        DownloadStatus::Failure(reason) => assert_eq!(reason, "c"),
        _ => panic!("giving up is a failure"),
    }
    match saved_outcome(Err("busy".into())) {
        DownloadStatus::Failure(reason) => assert_eq!(reason, "无法保存文件：busy"),
        _ => panic!("a failed rename is a failure"),
    }
    match series_directory_failure("denied".into()) {
        DownloadStatus::Failure(reason) => assert_eq!(reason, "无法创建剧名目录：denied"),
        _ => panic!("a missing directory is a failure"),
    }
}

#[test]
fn recut_requests_are_checked_in_order() {
    let input = |i: &str, o: &str, keep: usize, total: usize| SeriesRecutInput {
        input_dir: i.into(),
        output_dir: o.into(),
        keep_count: keep,
        total_count: total,
    };
    assert_eq!(prepare_series_recut(input("", "/o", 1, 2)).err().unwrap(), "输入目录不能为空");
    assert_eq!(
        prepare_series_recut(input("/a", "/a/", 1, 2)).err().unwrap(),
        "输入目录与输出目录不能相同"
    );
    assert_eq!(
        prepare_series_recut(input("/a", "/b", 5, 4)).err().unwrap(),
        "目标总集数不能小于前面保留集数"
    );
    let q = prepare_series_recut(input("/a", "/b", 4, 4)).ok().unwrap();
    assert_eq!((q.keep_count, q.total_count), (4, 4));
}

#[test]
fn recut_progress_follows_the_numbered_outputs() {
    assert!(is_numbered_file("/o/07.mp4"));
    assert!(is_numbered_file("12"));
    assert!(!is_numbered_file("/o/cover.jpg"));
    assert!(!is_numbered_file("/o/1a.mp4"));
    let names = strings(&["10.mp4", "notes.txt", "02.mp4", "9.mp4"]);
    assert_eq!(count_numbered_files(&names), 3);
    assert_eq!(latest_numbered_file(&names), Some("9.mp4".to_string()));
    assert_eq!(
        scan_series_episodes(&names).ok(),
        Some(strings(&["02.mp4", "10.mp4", "9.mp4"]))
    );
    assert_eq!(
        scan_series_episodes(&strings(&["a.mp4"])).err().unwrap(),
        "输入目录中没有可处理的视频文件"
    );

    let start = stage_started(5, RecutStage::Scanning);
    assert_eq!(start.current_stage, "扫描输入剧集");
    assert_eq!(stage_started(5, RecutStage::Preparing).current_stage, "准备切分任务");
    let running = running_progress(5, 3, None);
    assert_eq!(running.current_stage, "执行剧集切分");
    assert_eq!(running.processed_count, 3);
    assert_eq!(running.current_file.as_deref(), Some("03.mp4"));
    let running = running_progress(2, 7, Some("07.mp4".into()));
    assert_eq!(running.processed_count, 2);
    assert_eq!(running.current_file.as_deref(), Some("07.mp4"));
    assert_eq!(running_progress(2, 0, None).current_file, None);

    let (done, result) = recut_finished(2, "/o".into(), strings(&["01.mp4", "02.mp4", "03.mp4"]));
    assert_eq!(done.current_stage, "完成");
    assert_eq!(done.processed_count, 2);
    assert_eq!(done.current_file.as_deref(), Some("03.mp4"));
    assert_eq!(result.generated_file_count, 3);
}
