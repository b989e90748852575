use pdf_split::download::{
    build_summary, inspect_series_download_directory, parse_download_list, parse_episode_title,
    read_download_lists, sanitize_directory_name, ListFile,
};
use pdf_split::paths::is_text_file;
use pdf_split::series::{episode_file_name, episode_part_file_name};

fn text_list(display: &str, content: &str) -> ListFile {
    ListFile::Text { display: display.to_string(), content: content.to_string() }
}

#[test]
fn parses_url_pull_lines_and_builds_numeric_output_names() {
    let items = parse_download_list(
        ",https://example.com/a.mp4,生死线倒计时 - 第1集\n\
         ,https://example.com/b.mp4,生死线倒计时 - 第2集",
    )
    .expect("valid list should parse");

    assert_eq!(items.len(), 2);
    assert_eq!(items[0].series_name, "生死线倒计时");
    assert_eq!(items[0].directory_name, "生死线倒计时");
    assert_eq!(items[0].episode, 1);
    assert_eq!(format!("{}.mp4", items[1].episode), "2.mp4");
    assert_eq!(episode_file_name(items[1].episode), "2.mp4");
}

#[test]
fn supports_multiple_series_and_sanitizes_directory_names() {
    let items = parse_download_list(
        "https://example.com/a.mp4,剧/名 - 第1集\n\
         https://example.com/b.mp4,另一部剧 - 第3集",
    )
    .expect("valid list should parse");
    let summary = build_summary(&items, 2);

    assert_eq!(
        items
            .iter()
            .find(|item| item.series_name == "剧/名")
            .map(|item| item.directory_name.as_str()),
        Some("剧_名")
    );
    assert_eq!(summary.episode_count, 2);
    assert_eq!(summary.file_count, 2);
    assert_eq!(summary.series.len(), 2);
}

#[test]
fn reads_all_txt_files_recursively_and_ignores_other_extensions() {
    assert!(is_text_file("first.txt"));
    assert!(is_text_file("nested/second.TXT"));
    assert!(!is_text_file("ignored.csv"));
    let files = vec![
        text_list("first.txt", "https://example.com/1.mp4,第一部剧 - 第1集"),
        text_list("nested/second.TXT", "https://example.com/2.mp4,第二部剧 - 第2集"),
    ];

    let (items, file_count) = read_download_lists(true, &files).expect("directory lists should parse");
    let summary = build_summary(&items, file_count);

    assert_eq!(summary.file_count, 2);
    assert_eq!(summary.episode_count, 2);
    assert_eq!(summary.series.len(), 2);
}

#[test]
fn rejects_duplicate_episode_targets_across_txt_files() {
    let files = vec![
        text_list("first.txt", "https://example.com/1.mp4,同一部剧 - 第1集"),
        text_list("second.txt", "https://example.com/2.mp4,同一部剧 - 第1集"),
    ];

    let error = read_download_lists(true, &files).expect_err("duplicates across files should fail");

    assert!(error.contains("跨文件重复剧集"));
    assert_eq!(error, "TXT 清单“second.txt”存在跨文件重复剧集：同一部剧 第1集");
}

#[test]
fn rejects_duplicate_episode_targets() {
    let error = parse_download_list(
        "https://example.com/a.mp4,同一部剧 - 第1集\n\
         https://example.com/b.mp4,同一部剧 - 第1集",
    )
    .expect_err("duplicates should fail");

    assert!(error.contains("重复剧集"));
    assert_eq!(error, "第 2 行存在重复剧集：同一部剧 第1集");
}

#[test]
fn rejects_invalid_title_format() {
    let error = parse_download_list("https://example.com/a.mp4,没有集数")
        .expect_err("invalid title should fail");

    assert!(error.contains("剧名 - 第N集"));
    assert_eq!(error, "第 1 行标题格式应为“剧名 - 第N集”");
}

#[test]
fn list_items_come_sorted_by_series_then_episode() {
    let items = parse_download_list(
        "https://e.com/3.mp4,乙 - 第10集\n\
         \n\
         https://e.com/1.mp4,甲 - 第2集\r\n\
         \u{feff}https://e.com/2.mp4,乙 - 第9集\n\
         https://e.com/0.mp4,甲 - 第1集",
    )
    .expect("valid list should parse");

    let order: Vec<(String, usize)> =
        items.iter().map(|item| (item.series_name.clone(), item.episode)).collect();
    assert_eq!(
        order,
        vec![
            ("乙".to_string(), 9),
            ("乙".to_string(), 10),
            ("甲".to_string(), 1),
            ("甲".to_string(), 2),
        ]
    );
    assert_eq!(items[0].url, "https://e.com/2.mp4");
}

#[test]
fn list_line_errors_name_the_line() {
    assert_eq!(
        parse_download_list("\nnot a url,剧 - 第1集").unwrap_err(),
        "第 2 行缺少 http/https 视频地址"
    );
    assert_eq!(
        parse_download_list("http://e.com/a.mp4").unwrap_err(),
        "第 1 行缺少剧名和集数"
    );
    assert_eq!(
        parse_download_list("http://e.com/a.mp4, ").unwrap_err(),
        "第 1 行缺少剧名和集数"
    );
    assert_eq!(
        parse_download_list("http://e.com/a.mp4,... - 第1集").unwrap_err(),
        "第 1 行剧名不能用作目录名"
    );
    assert_eq!(parse_download_list(" \n \n").unwrap_err(), "下载清单中没有可下载的剧集");
}

#[test]
fn episode_titles_need_a_name_and_a_positive_number() {
    assert_eq!(parse_episode_title("剧 - 第3集"), Some(("剧".to_string(), 3)));
    assert_eq!(parse_episode_title("a - b - 第 12 集 "), Some(("a - b".to_string(), 12)));
    assert_eq!(parse_episode_title("剧 - 第+7集"), Some(("剧".to_string(), 7)));
    assert_eq!(parse_episode_title("剧 - 第0集"), None);
    assert_eq!(parse_episode_title(" - 第1集"), None);
    assert_eq!(parse_episode_title("剧 - 第一集"), None);
    assert_eq!(parse_episode_title("剧 - 第1"), None);
    assert_eq!(parse_episode_title("剧 第1集"), None);
}

#[test]
fn directory_names_replace_reserved_characters_and_trailing_dots() {
    assert_eq!(sanitize_directory_name("a<b>c:d\"e|f?g*h\\i"), Some("a_b_c_d_e_f_g_h_i".to_string()));
    assert_eq!(sanitize_directory_name("  名字. . "), Some("名字".to_string()));
    assert_eq!(sanitize_directory_name("tab\there"), Some("tab_here".to_string()));
    assert_eq!(sanitize_directory_name(".."), None);
    assert_eq!(sanitize_directory_name(" . "), None);
    assert_eq!(sanitize_directory_name(""), None);
}

#[test]
fn directory_summaries_count_each_series_in_name_order() {
    let files = vec![
        text_list("a.txt", "https://e.com/1.mp4,乙 - 第1集\nhttps://e.com/2.mp4,甲 - 第1集"),
        text_list("b.txt", "https://e.com/3.mp4,乙 - 第2集"),
    ];
    let summary = inspect_series_download_directory(true, &files).expect("lists should parse");
    assert_eq!(summary.file_count, 2);
    assert_eq!(summary.episode_count, 3);
    let series: Vec<(String, usize)> =
        summary.series.iter().map(|s| (s.name.clone(), s.episode_count)).collect();
    assert_eq!(series, vec![("乙".to_string(), 2), ("甲".to_string(), 1)]);
}

#[test]
fn directory_errors_name_the_list() {
    assert_eq!(
        inspect_series_download_directory(true, &[]).unwrap_err(),
        "所选目录中没有 TXT 下载清单"
    );
    let unreadable = vec![ListFile::Unreadable {
        display: "x.txt".to_string(),
        reason: "denied".to_string(),
    }];
    assert_eq!(
        read_download_lists(true, &unreadable).unwrap_err(),
        "无法读取 TXT 清单“x.txt”：denied"
    );
    let bad = vec![text_list("y.txt", "")];
    assert_eq!(
        read_download_lists(true, &bad).unwrap_err(),
        "TXT 清单“y.txt”解析失败：下载清单中没有可下载的剧集"
    );
}

#[test]
fn episode_files_are_named_after_their_number() {
    assert_eq!(episode_file_name(12), "12.mp4");
    assert_eq!(episode_part_file_name(12), "12.mp4.part");
}

#[test]
fn a_list_directory_must_exist() {
    assert_eq!(
        inspect_series_download_directory(false, &[]).unwrap_err(),
        "TXT 清单目录不存在或不是有效目录"
    );
    let files = vec![text_list("a.txt", "https://e.com/1.mp4,剧 - 第1集")];
    assert_eq!(
        read_download_lists(false, &files).unwrap_err(),
        "TXT 清单目录不存在或不是有效目录"
    );
}
