use pdf_split::listing::{
    check_preview_relative_path, collect_files_of_kind, check_preview_target, list_input_directory_images,
    list_input_directory_pdfs, list_input_directory_videos, list_previewable_files,
    DirectoryListing, PreviewKind,
};
use pdf_split::paths::{
    image_format_from_path, is_preview_image_path, is_preview_pdf_path, is_preview_video_path,
    path_file_name, path_file_stem, path_starts_with_exec, ImageFormat,
};

fn listing(files: &[&str]) -> DirectoryListing {
    DirectoryListing { is_dir: true, files: files.iter().map(|s| s.to_string()).collect() }
}

#[test]
fn list_previewable_images_returns_sorted_relative_image_paths() {
    let files = list_previewable_files(
        "/tmp/root".into(),
        &listing(&["nested/demo.jpg", "cover.png", "ignore.txt"]),
        PreviewKind::Image,
    )
    .ok()
    .expect("image files should be listed");

    assert_eq!(files, vec!["cover.png".to_string(), "nested/demo.jpg".to_string()]);
}

#[test]
fn list_previewable_videos_returns_sorted_relative_video_paths() {
    let files = list_input_directory_videos("/tmp/root".into(), &listing(&["nested/demo.mov", "ignore.txt", "cover.mp4"]))
        .ok()
        .expect("video files should be listed")
        .files;

    assert_eq!(files, vec!["cover.mp4".to_string(), "nested/demo.mov".to_string()]);
}

#[test]
fn list_previewable_pdfs_returns_sorted_relative_pdf_paths() {
    let files = list_input_directory_pdfs("/tmp/root".into(), &listing(&["nested/demo.pdf", "ignore.txt", "cover.pdf"]))
        .ok()
        .expect("pdfs list")
        .files;

    assert_eq!(files, vec!["cover.pdf".to_string(), "nested/demo.pdf".to_string()]);
}

#[test]
fn pdfs_sort_by_components_and_images_as_text() {
    let pdfs = list_input_directory_pdfs("/tmp/root".into(), &listing(&["a.b/x.pdf", "a/y.PDF"])).ok().unwrap().files;
    assert_eq!(pdfs, vec!["a/y.PDF".to_string(), "a.b/x.pdf".to_string()]);
    let images = list_input_directory_images("/tmp/root".into(), &listing(&["a/y.PNG", "a.b/x.gif"])).ok().unwrap().files;
    assert_eq!(images, vec!["a.b/x.gif".to_string(), "a/y.PNG".to_string()]);
}

#[test]
fn listing_a_missing_directory_fails() {
    let missing = DirectoryListing { is_dir: false, files: vec![] };
    assert_eq!(
        list_input_directory_images("/nowhere".into(), &missing).err().unwrap(),
        "输入目录不存在或不是有效目录"
    );
    let blank = DirectoryListing { is_dir: false, files: vec![] };
    assert_eq!(
        list_input_directory_images("   ".into(), &blank).err().unwrap(),
        "输入目录不能为空"
    );
    let blank = DirectoryListing { is_dir: false, files: vec![] };
    assert_eq!(
        list_input_directory_pdfs("".into(), &blank).err().unwrap(),
        "输入目录不能为空"
    );
    let blank = DirectoryListing { is_dir: false, files: vec![] };
    assert_eq!(
        list_input_directory_videos(" \t".into(), &blank).err().unwrap(),
        "输入目录不能为空"
    );
}

#[test]
fn generate_preview_image_bytes_rejects_path_escape() {
    let relative = check_preview_relative_path(PreviewKind::Image, "../nested/demo.jpg".into())
        .ok()
        .expect("a relative path is accepted before it is resolved");
    assert_eq!(relative, "../nested/demo.jpg");
    let err = check_preview_target(PreviewKind::Image, "/tmp/root", "/tmp/nested/demo.jpg", true)
        .err()
        .expect("path escape should fail");

    assert!(err.contains("预览图片路径不合法") || err.contains("预览图片不存在"));
}

#[test]
fn generate_pdf_preview_image_bytes_rejects_path_escape() {
    let err = check_preview_target(PreviewKind::Pdf, "/tmp/root", "/tmp/nested/demo.pdf", true)
        .err()
        .expect("path escape should fail");

    assert!(err.contains("预览 PDF 路径不合法") || err.contains("预览 PDF 不存在"));
}

#[test]
fn preview_paths_must_be_relative_files_of_the_kind() {
    assert_eq!(
        check_preview_relative_path(PreviewKind::Video, " ".into()).err().unwrap(),
        "预览视频不能为空"
    );
    assert_eq!(
        check_preview_relative_path(PreviewKind::Video, "/etc/x.mp4".into()).err().unwrap(),
        "预览视频路径不合法"
    );
    assert!(check_preview_target(PreviewKind::Video, "/r", "/r/a/b.MKV", true).is_ok());
    assert!(check_preview_target(PreviewKind::Video, "/r", "/r/a/b.mkv", false).is_err());
    assert!(check_preview_target(PreviewKind::Video, "/r", "/r/a/b.txt", true).is_err());
    assert!(check_preview_target(PreviewKind::Video, "/r", "/rx/b.mp4", true).is_err());
}

#[test]
fn file_kinds_go_by_extension() {
    assert!(is_preview_image_path("a/b.JPEG"));
    assert!(is_preview_image_path("b.tif"));
    assert!(!is_preview_image_path(".png"));
    assert!(!is_preview_image_path("png"));
    assert!(is_preview_video_path("x.WebM"));
    assert!(!is_preview_video_path("x.mp3"));
    assert!(is_preview_pdf_path("x.Pdf"));
    assert!(is_preview_pdf_path("x.pdf/"));
    assert!(!is_preview_pdf_path("x.pdfs"));
}

#[test]
fn names_and_stems_follow_paths() {
    assert_eq!(path_file_name("/a/b.c/"), Some("b.c".to_string()));
    assert_eq!(path_file_name("/a/.."), None);
    assert_eq!(path_file_stem("a/.hidden"), Some(".hidden".to_string()));
    assert_eq!(path_file_stem("a/x.tar.gz"), Some("x.tar".to_string()));
    assert!(path_starts_with_exec("/a/b/c", "/a/b"));
    assert!(!path_starts_with_exec("/a/bc", "/a/b"));
}

#[test]
fn image_formats_follow_the_extension() {
    assert!(matches!(image_format_from_path("a.JPG"), Ok(ImageFormat::Jpeg)));
    assert!(matches!(image_format_from_path("a.tiff"), Ok(ImageFormat::Tiff)));
    assert_eq!(image_format_from_path("a.gif").err(), Some("不支持的图片格式：gif".to_string()));
    assert_eq!(image_format_from_path("noext").err(), Some("无法识别图片格式：noext".to_string()));
}

#[test]
fn batches_work_through_their_files_in_path_order() {
    let found: Vec<String> =
        ["b.pdf", "a.b/c.pdf", "a/z.PDF", "notes.txt", "a/y.pdf"].iter().map(|s| s.to_string()).collect();
    assert_eq!(
        collect_files_of_kind(&found, PreviewKind::Pdf),
        vec!["a/y.pdf".to_string(), "a/z.PDF".to_string(), "a.b/c.pdf".to_string(), "b.pdf".to_string()]
    );
    assert!(collect_files_of_kind(&found, PreviewKind::Video).is_empty());
}
