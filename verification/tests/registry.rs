use warp::download_registry::entries::RegistryError;
use warp::download_registry::json;
use warp::download_registry::registry::{id_at, Registry};
use warp::download_registry::repository::{
    can_claim, entry_from_record, record_from_entry, snapshot_files, DownloadRegistry, Repository,
};
use warp::types::{
    AppSettings, DownloadCategory, DownloadEntry, DownloadKind, DownloadStatus,
    PostDownloadAction, ScheduleWindow,
};

fn sample_entry(id: &str) -> DownloadEntry {
    DownloadEntry::new_http(
        id.to_string(),
        format!("http://example.com/{id}"),
        format!("{id}.bin"),
    )
}

#[test]
fn test_registry_add_remove() {
    let mut registry = json::Registry::default();
    let id = registry.add("http://example.com".to_string(), "file.txt".to_string());
    assert_eq!(registry.downloads.len(), 1);
    assert!(registry.downloads.contains_key(&id));
    let removed = registry.remove(&id).unwrap();
    assert_eq!(removed.url, "http://example.com");
    assert_eq!(registry.downloads.len(), 0);
}

#[test]
fn json_test_update_status() {
    let mut registry = json::Registry::default();
    let id = registry.add("url".to_string(), "path".to_string());
    registry.update_status(&id, DownloadStatus::Completed);
    assert_eq!(registry.downloads.get(&id).unwrap().status, DownloadStatus::Completed);
    registry.update_status(&id, DownloadStatus::Error);
    assert_eq!(registry.downloads.get(&id).unwrap().status, DownloadStatus::Error);
}

#[test]
fn documents_replace_under_the_same_id() {
    let mut registry = json::Registry::default();
    registry.add_with_id("7".to_string(), "a".to_string(), "p".to_string());
    registry.add_with_id("7".to_string(), "b".to_string(), "p".to_string());
    assert_eq!(registry.downloads.len(), 1);
    assert_eq!(registry.downloads.get("7").unwrap().url, "b");
    registry.update_advanced("7", Some(3), None, Some("c".to_string()), Some(9));
    let e = registry.downloads.get("7").unwrap();
    assert_eq!((e.priority, e.checksum.as_deref(), e.max_speed_bytes), (3, Some("c"), Some(9)));
    registry.update_status("7", DownloadStatus::Completed);
    assert_eq!(registry.clean_completed(), 1);
    assert!(registry.downloads.get("7").is_none());
}

#[test]
fn test_registry_add_and_list() {
    let mut registry = Registry::open_in_memory();
    let id = registry.add("http://example.com".to_string(), "file.bin".to_string()).unwrap();
    let entries = registry.list();
    assert_eq!(entries.len(), 1);
    assert_eq!(entries[0].id, id);
    assert_eq!(entries[0].category, DownloadCategory::Other);
}

#[test]
fn test_registry_update_advanced() {
    let mut registry = Registry::open_in_memory();
    let id = registry.add("http://example.com".to_string(), "f.bin".to_string()).unwrap();
    registry
        .update_advanced(&id, Some(5), Some("http://proxy:8080".into()), None, Some(1024))
        .unwrap();
    let entry = registry.get(&id).unwrap();
    assert_eq!(entry.priority, 5);
    assert_eq!(entry.proxy.as_deref(), Some("http://proxy:8080"));
    assert_eq!(entry.max_speed_bytes, Some(1024));
}

#[test]
fn test_add_get_remove() {
    let mut repo = Repository::new();
    let mut entry = sample_entry("1");
    entry.priority = 10;
    entry.proxy = Some("http://proxy:8080".into());
    entry.checksum = Some("abc".into());
    entry.max_speed_bytes = Some(1024);
    repo.add(entry.clone()).unwrap();
    assert_eq!(repo.get("1").unwrap().url, entry.url);
    let removed = repo.remove("1").unwrap();
    assert_eq!(removed.id, "1");
}

#[test]
fn test_list_filtered_by_category() {
    let mut repo = Repository::new();
    let mut v = sample_entry("v");
    v.category = DownloadCategory::Video;
    repo.add(v).unwrap();
    repo.add(sample_entry("o")).unwrap();
    assert_eq!(repo.list_filtered(Some(DownloadCategory::Video), None).len(), 1);
}

#[test]
fn repository_test_update_status() {
    let mut repo = Repository::new();
    repo.add(sample_entry("2")).unwrap();
    repo.update_status("2", DownloadStatus::Downloading).unwrap();
    assert_eq!(repo.get("2").unwrap().status, DownloadStatus::Downloading);
    repo.update_status("2", DownloadStatus::Completed).unwrap();
    assert_eq!(repo.get("2").unwrap().status, DownloadStatus::Completed);
}

#[test]
fn test_update_entry() {
    let mut repo = Repository::new();
    repo.add(sample_entry("3")).unwrap();
    let mut updated = sample_entry("3");
    updated.url = "http://changed.com".to_string();
    updated.priority = 99;
    repo.update("3", updated.clone()).unwrap();
    let fetched = repo.get("3").unwrap();
    assert_eq!(fetched.url, "http://changed.com");
    assert_eq!(fetched.priority, 99);
}

#[test]
fn test_list_and_clean_completed() {
    let mut repo = Repository::new();
    repo.add(sample_entry("a")).unwrap();
    let mut completed = sample_entry("b");
    completed.status = DownloadStatus::Completed;
    repo.add(completed).unwrap();
    assert_eq!(repo.list().len(), 2);
    assert_eq!(repo.list_not_completed().len(), 1);
    let removed = repo.clean_completed();
    assert_eq!(removed, 1);
    assert_eq!(repo.list().len(), 1);
}

#[test]
fn test_extended_fields_roundtrip() {
    let mut entry = sample_entry("ext");
    entry.kind = DownloadKind::Hls;
    entry.hls_quality = Some("high".into());
    entry.hls_concurrent = Some(4);
    entry.mirror_urls = vec!["http://mirror.example.com".into()];
    entry.post_action = PostDownloadAction { delete_warp: true, ..Default::default() };

    let mut repo = Repository::new();
    repo.add(entry.clone()).unwrap();
    let held = repo.get("ext").unwrap();
    assert_eq!(held.kind, DownloadKind::Hls);
    assert_eq!(held.hls_quality.as_deref(), Some("high"));
    assert_eq!(held.mirror_urls.len(), 1);
    assert!(held.post_action.delete_warp);

    let record = record_from_entry(&entry, "{}".to_string()).unwrap();
    assert_eq!(record.mirror_urls.as_deref(), Some("[\"http://mirror.example.com\"]"));
    let loaded = entry_from_record(record, Some(entry.post_action.clone()));
    assert_eq!(loaded.kind, DownloadKind::Hls);
    assert_eq!(loaded.hls_quality.as_deref(), Some("high"));
    assert_eq!(loaded.hls_concurrent, Some(4));
    assert_eq!(loaded.mirror_urls, vec!["http://mirror.example.com"]);
    assert!(loaded.post_action.delete_warp);
}

#[test]
fn test_list_filtered_by_search() {
    let mut repo = Repository::new();
    let mut a = sample_entry("a");
    a.url = "http://unique-host.example/file".into();
    repo.add(a).unwrap();
    repo.add(sample_entry("b")).unwrap();
    let hits = repo.list_filtered(None, Some("unique-host"));
    assert_eq!(hits.len(), 1);
    assert_eq!(hits[0].id, "a");
}

#[test]
fn test_settings_roundtrip() {
    let mut repo = Repository::new();
    let settings = AppSettings {
        global_max_speed_bytes: Some(512_000),
        daemon_port: 9999,
        ..Default::default()
    };
    repo.save_settings(&settings);
    let loaded = repo.get_settings();
    assert_eq!(loaded.global_max_speed_bytes, Some(512_000));
    assert_eq!(loaded.daemon_port, 9999);
}

#[test]
fn settings_are_copied_whole() {
    let mut settings = AppSettings::default();
    settings.schedule_windows.push(ScheduleWindow {
        start_hour: 1,
        start_minute: 2,
        end_hour: 3,
        end_minute: 4,
    });
    settings.allow_notifications = false;
    let mut registry = Registry::open_in_memory();
    assert_eq!(registry.get_settings().max_workers, 32);
    assert_eq!(registry.get_settings().daemon_port, 9844);
    registry.save_settings(&settings);
    let again = registry.get_settings();
    assert_eq!(again.schedule_windows, settings.schedule_windows);
    assert!(!again.allow_notifications);
}

#[test]
fn rows_with_higher_priority_come_first() {
    let mut repo = Repository::new();
    for (id, p) in [("a", 1u8), ("b", 9), ("c", 1), ("d", 255)] {
        let mut e = sample_entry(id);
        e.priority = p;
        repo.add(e).unwrap();
    }
    let ids: Vec<String> = repo.list().into_iter().map(|e| e.id).collect();
    assert_eq!(ids, vec!["d", "b", "a", "c"]);
}

#[test]
fn errors_leave_the_table_as_it_was() {
    let mut repo = Repository::new();
    repo.add(sample_entry("x")).unwrap();
    assert_eq!(repo.add(sample_entry("x")), Err(RegistryError::DuplicateId));
    let mut fast = sample_entry("y");
    fast.max_speed_bytes = Some(u64::MAX);
    assert_eq!(repo.add(fast.clone()), Err(RegistryError::SpeedTooLarge));
    assert!(matches!(
        record_from_entry(&fast, String::new()),
        Err(RegistryError::SpeedTooLarge)
    ));
    assert_eq!(repo.update("x", sample_entry("z")), Err(RegistryError::IdMismatch));
    assert_eq!(repo.update("q", sample_entry("q")), Err(RegistryError::NotFound));
    assert_eq!(repo.update_status("q", DownloadStatus::Paused), Err(RegistryError::NotFound));
    assert_eq!(
        repo.update_advanced("q", None, None, None, None),
        Err(RegistryError::NotFound)
    );
    assert!(repo.remove("q").is_none());
    assert_eq!(repo.list().len(), 1);
}

#[test]
fn search_looks_at_url_path_and_id() {
    let mut registry = Registry::open_in_memory();
    registry
        .add_with_id("Id7".to_string(), "http://HOST/f".to_string(), "Dir/Name.bin".to_string())
        .unwrap();
    assert_eq!(registry.list_filtered(None, Some("host")).len(), 1);
    assert_eq!(registry.list_filtered(None, Some("NAME")).len(), 1);
    assert_eq!(registry.list_filtered(None, Some("d7")).len(), 1);
    assert_eq!(registry.list_filtered(None, Some("id7")).len(), 1);
    assert_eq!(registry.list_filtered(None, Some("Id7")).len(), 1);
    assert_eq!(registry.list_filtered(None, Some("id8")).len(), 0);
    assert_eq!(registry.list_filtered(None, None).len(), 1);
}

#[test]
fn older_queues_are_taken_over_once() {
    let mut older = json::Registry::default();
    older.add_with_id("1".to_string(), "a".to_string(), "p".to_string());
    older.add_with_id("2".to_string(), "b".to_string(), "q".to_string());
    let mut registry = Registry::open_in_memory();
    assert_eq!(registry.take_over(&older), Ok(2));
    assert_eq!(registry.list().len(), 2);
    assert_eq!(registry.take_over(&older), Ok(0));
    older.update_advanced("2", None, None, None, Some(u64::MAX));
    let mut other = Registry::open_in_memory();
    assert_eq!(other.take_over(&older), Err(RegistryError::SpeedTooLarge));
    assert_eq!(other.list().len(), 1);
}

#[test]
fn streams_are_added_with_their_choices() {
    let mut registry = Registry::open_in_memory();
    let id = registry
        .add_hls("u".to_string(), "o.ts".to_string(), Some("low".to_string()), Some(3))
        .unwrap();
    let e = registry.get(&id).unwrap();
    assert_eq!((e.kind, e.category), (DownloadKind::Hls, DownloadCategory::Video));
    assert_eq!((e.hls_quality.as_deref(), e.hls_concurrent), (Some("low"), Some(3)));
    registry.add_hls_with_id("x".into(), "u".into(), "p".into(), None, None).unwrap();
    assert_eq!(
        registry.add_hls_with_id("x".into(), "u".into(), "p".into(), None, None),
        Err(RegistryError::DuplicateId)
    );
    let mut e = registry.get("x").unwrap();
    e.error_message = Some("no".to_string());
    registry.update_entry("x", e).unwrap();
    assert_eq!(registry.get("x").unwrap().error_message.as_deref(), Some("no"));
    assert_eq!(registry.remove("x").unwrap().id, "x");
    assert_eq!(registry.list_not_completed().len(), 1);
    registry.update_status(&id, DownloadStatus::Completed).unwrap();
    assert_eq!(registry.clean_completed(), 1);
}

#[test]
fn stored_numbers_are_cut_to_their_width() {
    let mut r = record_from_entry(&sample_entry("1"), String::new()).unwrap();
    r.priority = -1;
    r.max_speed_bytes = Some(-1);
    r.hls_concurrent = Some(0x1_0000_0002);
    r.mirror_urls = Some("no list".to_string());
    let e = entry_from_record(r, None);
    assert_eq!(e.priority, 255);
    assert_eq!(e.max_speed_bytes, Some(u64::MAX));
    assert_eq!(e.hls_concurrent, Some(2));
    assert!(e.mirror_urls.is_empty());
    assert!(!e.post_action.delete_warp);
    for n in [0i64, 255, 256, -2, -256, -257, i64::MIN, i64::MAX, 0x1_0000_0000, -0x1_0000_0001] {
        let mut r = record_from_entry(&sample_entry("1"), String::new()).unwrap();
        r.priority = n;
        r.max_speed_bytes = Some(n);
        r.hls_concurrent = Some(n);
        let e = entry_from_record(r, None);
        assert_eq!(e.priority, n as u8);
        assert_eq!(e.max_speed_bytes, Some(n as u64));
        assert_eq!(e.hls_concurrent, Some(n as u32));
    }
}

#[test]
fn running_and_finished_downloads_cannot_be_claimed() {
    assert!(can_claim(DownloadStatus::Pending));
    assert!(can_claim(DownloadStatus::Paused));
    assert!(can_claim(DownloadStatus::Error));
    assert!(!can_claim(DownloadStatus::Downloading));
    assert!(!can_claim(DownloadStatus::Completed));
    assert_eq!(
        snapshot_files("d/clip.mp4"),
        ("d/clip.warp".to_string(), "d/clip.hls.warp".to_string())
    );
}

#[test]
fn ids_are_whole_seconds() {
    assert_eq!(id_at(None), None);
    assert_eq!(id_at(Some(0)).as_deref(), Some("0"));
    assert_eq!(id_at(Some(1_700_000_000)).as_deref(), Some("1700000000"));
    assert_eq!(id_at(Some(u64::MAX)), Some(u64::MAX.to_string()));
    assert_eq!(warp::clock::whole_seconds(None), None);
    assert_eq!(warp::clock::whole_seconds(Some(999_999_999)), Some(0));
    assert_eq!(warp::clock::whole_seconds(Some(2_500_000_000)), Some(2));
}
