use warp::types::{infer_category, DownloadCategory, DownloadEntry, DownloadKind, DownloadStatus};

#[test]
fn test_infer_category_from_path() {
    assert_eq!(infer_category("http://x.com", "movie.mp4"), DownloadCategory::Video);
    assert_eq!(infer_category("http://x.com", "doc.pdf"), DownloadCategory::Document);
    assert_eq!(infer_category("http://x.com/file.zip", "download"), DownloadCategory::Archive);
}

#[test]
fn test_new_http_defaults() {
    let entry = DownloadEntry::new_http(
        "1".into(),
        "http://example.com/video.mp4".into(),
        "clip.mp4".into(),
    );
    assert_eq!(entry.kind, DownloadKind::Http);
    assert_eq!(entry.category, DownloadCategory::Video);
    assert_eq!(entry.status, DownloadStatus::Pending);
}

#[test]
fn test_new_hls_sets_kind_and_quality() {
    let entry = DownloadEntry::new_hls(
        "1".into(),
        "http://cdn/play.m3u8".into(),
        "out.ts".into(),
        Some("high".into()),
        Some(8),
    );
    assert_eq!(entry.kind, DownloadKind::Hls);
    assert_eq!(entry.hls_quality.as_deref(), Some("high"));
    assert_eq!(entry.hls_concurrent, Some(8));
}

#[test]
fn test_category_labels() {
    assert_eq!(DownloadCategory::Video.label(), "Video");
    assert_eq!(DownloadCategory::all().len(), 6);
}
