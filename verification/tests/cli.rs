use warp::cli::{
    can_list, handle_add, handle_add_as, handle_clean, handle_config, handle_inspect, handle_list,
    handle_pause, handle_remove, handle_resume, handle_retry, handle_stats, list_line,
    parse_category, target_path, CliError, Inspection,
};
use warp::daemon::{
    add_download, answer_added, health, list_downloads, listen_address, pause_download, Runs,
    ACCEPTED, BAD_REQUEST, CONFLICT, NOT_FOUND, OK,
};
use warp::download_registry::entries::RegistryError;
use warp::download_registry::registry::Registry;
use warp::metrics::{list_host_metrics, HostMetrics, HostTable, MetricsRecorder};
use warp::speed::SpeedError;
use warp::types::{DownloadCategory, DownloadEntry, DownloadStatus};

fn add(registry: &mut Registry, id: &str, url: &str, path: &str) {
    registry.add_with_id(id.to_string(), url.to_string(), path.to_string()).unwrap();
}

#[test]
fn cli_test_handle_add_derives_filename() {
    let mut registry = Registry::open_in_memory();
    let url = "http://example.com/somefile.txt?query=1".to_string();
    let line = handle_add(url.clone(), None, None, None, None, 0, 200, &mut registry).unwrap();
    let entry = registry.list().pop().unwrap();
    assert_eq!(entry.url, url);
    assert_eq!(entry.target_path, "somefile.txt");
    assert_eq!(line, format!("Added download {} -> somefile.txt", entry.id));
}

#[test]
fn cli_test_handle_add_explicit_path() {
    let mut registry = Registry::open_in_memory();
    handle_add(
        "url".to_string(),
        Some("explicit.bin".to_string()),
        None,
        None,
        None,
        0,
        200,
        &mut registry,
    )
    .unwrap();
    assert_eq!(registry.list().pop().unwrap().target_path, "explicit.bin");
}

#[test]
fn mod_test_handle_add_derives_filename() {
    let mut registry = Registry::open_in_memory();
    let url = "http://example.com/somefile.txt?query=1".to_string();
    handle_add(url.clone(), None, None, None, None, 0, 204, &mut registry).ok();
    let entry = registry.list().pop().unwrap();
    assert_eq!(entry.url, url);
    assert_eq!(entry.target_path, "somefile.txt");
}

#[test]
fn mod_test_handle_add_explicit_path() {
    let mut registry = Registry::open_in_memory();
    let path = "explicit.bin".to_string();
    handle_add(
        "http://example.com".to_string(),
        Some(path.clone()),
        None,
        None,
        None,
        0,
        200,
        &mut registry,
    )
    .ok();
    let entry = registry.list().pop().unwrap();
    assert_eq!(entry.target_path, path);
}

#[test]
fn additions_fail_one_by_one() {
    let mut registry = Registry::open_in_memory();
    let go = |registry: &mut Registry, id: &str, limit: Option<&str>, status: u16| {
        handle_add_as(
            id.to_string(),
            "http://h/f".to_string(),
            None,
            limit.map(str::to_string),
            Some("p".to_string()),
            None,
            3,
            status,
            registry,
        )
    };
    assert_eq!(go(&mut registry, "1", None, 404), Err(CliError::Refused(404)));
    assert!(registry.list().is_empty());
    assert_eq!(go(&mut registry, "1", Some("1M"), 200).unwrap(), "Added download 1 -> f");
    let e = registry.get("1").unwrap();
    assert_eq!((e.priority, e.max_speed_bytes), (3, Some(1024 * 1024)));
    assert_eq!(e.proxy.as_deref(), Some("p"));
    assert_eq!(
        go(&mut registry, "1", None, 200),
        Err(CliError::Registry(RegistryError::DuplicateId))
    );
    assert_eq!(
        go(&mut registry, "2", Some("fast"), 200),
        Err(CliError::Speed(SpeedError::BadInteger))
    );
    assert_eq!(registry.get("2").unwrap().priority, 0);
    assert_eq!(
        go(&mut registry, "3", Some("1e30G"), 200),
        Err(CliError::Registry(RegistryError::SpeedTooLarge))
    );
    assert_eq!(registry.get("3").unwrap().proxy, None);
}

#[test]
fn categories_are_named_in_any_case() {
    for c in DownloadCategory::all() {
        assert_eq!(parse_category(c.label()), Some(c));
        assert_eq!(parse_category(&c.label().to_uppercase()), Some(c));
    }
    assert_eq!(parse_category("movies"), None);
    assert_eq!(target_path("http://h/d/", None), "");
    assert_eq!(target_path("name?x/y", None), "y");
}

#[test]
fn lists_are_cut_to_their_columns() {
    let mut registry = Registry::open_in_memory();
    assert_eq!(
        handle_list(&registry, None, None),
        vec!["No downloads in download_registry."]
    );
    let long_url = "http://example.com/".to_string() + &"u".repeat(60);
    let long_path = "dir/".to_string() + &"p".repeat(60) + ".mp4";
    add(&mut registry, "17", &long_url, &long_path);
    add(&mut registry, "18", "http://x/y", "z.zip");
    let lines = handle_list(&registry, Some("VIDEO".to_string()), None);
    let row = |a: &str, b: &str, c: &str, d: &str| {
        format!("{:<15} | {:<12} | {:<45} | {:<50}", a, b, c, d)
    };
    assert_eq!(lines.len(), 3);
    assert_eq!(lines[0], row("ID", "Status", "Target", "URL"));
    assert_eq!(lines[1], format!("{:-<15}-+-{:-<12}-+-{:-<45}-+-{:-<50}", "", "", "", ""));
    assert_eq!(
        lines[2],
        row(
            "17",
            "Pending",
            &format!("...{}", &long_path[long_path.len() - 42..]),
            &format!("{}...", &long_url[..47])
        )
    );
    let found = handle_list(&registry, None, Some("Z.ZIP".to_string()));
    assert_eq!(found[2], row("18", "Pending", "z.zip", "http://x/y"));
    assert_eq!(handle_list(&registry, Some("what".to_string()), None).len(), 4);
    let e = DownloadEntry::new_http("1".into(), "u".repeat(46) + "äääää", "p".into());
    assert!(!can_list(&e));
    assert!(can_list(&registry.get("17").unwrap()));
    assert_eq!(list_line(&registry.get("18").unwrap()), found[2]);
}

#[test]
fn answers_name_the_download() {
    let mut registry = Registry::open_in_memory();
    add(&mut registry, "5", "http://x/y", "z");
    assert_eq!(handle_pause("5".into(), &mut registry), "Paused download: 5");
    assert_eq!(registry.get("5").unwrap().status, DownloadStatus::Paused);
    assert_eq!(handle_resume("5".into(), &mut registry), "Resumed download: 5");
    assert_eq!(registry.get("5").unwrap().status, DownloadStatus::Pending);
    registry.update_status("5", DownloadStatus::Error).unwrap();
    assert_eq!(handle_retry("5".into(), &mut registry), "Retrying download: 5");
    assert_eq!(registry.get("5").unwrap().status, DownloadStatus::Pending);
    assert_eq!(handle_pause("6".into(), &mut registry), "Download ID 6 not found.");
    match handle_inspect("5".into(), &registry, true) {
        Inspection::Show { file, line } => {
            assert_eq!(file, "z.warp");
            assert_eq!(line, "Inspecting snapshot: z.warp");
        }
        other => panic!("{other:?}"),
    }
    assert!(matches!(handle_inspect("5".into(), &registry, false),
        Inspection::Say(s) if s == "No .warp file found for ID 5. Has the download started?"));
    assert!(matches!(handle_inspect("6".into(), &registry, true),
        Inspection::Say(s) if s == "Download ID 6 not found."));
    assert_eq!(handle_remove("5".into(), &mut registry), "Removed download: 5 (http://x/y)");
    assert_eq!(handle_remove("5".into(), &mut registry), "Download ID 5 not found.");
    add(&mut registry, "7", "a", "b");
    registry.update_status("7", DownloadStatus::Completed).unwrap();
    assert_eq!(handle_clean(&mut registry), "Cleaned 1 completed downloads.");
    assert_eq!(handle_clean(&mut registry), "Cleaned 0 completed downloads.");
}

#[test]
fn settings_are_shown_and_changed() {
    let mut registry = Registry::open_in_memory();
    assert_eq!(
        handle_config(None, None, &mut registry).unwrap(),
        vec![
            "daemon_port: 9844",
            "global_max_speed_bytes: (unlimited)",
            "max_workers: 32",
            "schedule_windows: 0",
        ]
    );
    assert_eq!(
        handle_config(Some("1K".into()), None, &mut registry).unwrap(),
        vec!["Global speed limit set to 1024 bytes/s."]
    );
    assert_eq!(
        handle_config(None, Some(4), &mut registry).unwrap(),
        vec!["Global speed limit set to 1024 bytes/s.", "Max workers set to 4."]
    );
    assert_eq!(handle_config(Some("2K".into()), Some(0), &mut registry), Err(CliError::NoWorkers));
    assert_eq!(
        handle_config(Some("x".into()), Some(0), &mut registry),
        Err(CliError::Speed(SpeedError::BadInteger))
    );
    let s = registry.get_settings();
    assert_eq!((s.global_max_speed_bytes, s.max_workers), (Some(1024), 4));
    assert_eq!(
        handle_config(None, None, &mut registry).unwrap()[1],
        "global_max_speed_bytes: 1024"
    );
}

#[test]
fn test_metrics_record_success() {
    let mut table = HostTable::new();
    let mut rec = MetricsRecorder::new("http://cdn.example.com/file.bin");
    rec.add_bytes(10_000);
    rec.finish_success(&mut table);
    let stats = list_host_metrics(&table);
    assert_eq!(stats.len(), 1);
    assert_eq!(stats[0].host, "cdn.example.com");
    assert_eq!(stats[0].downloads, 1);
    assert_eq!(stats[0].bytes_total, 10_000);
    assert_eq!(stats[0].failures, 0);
}

#[test]
fn test_metrics_record_failure_increments_failures() {
    let mut table = HostTable::new();
    let rec = MetricsRecorder::new("http://bad.example.com/x");
    rec.finish_failure(&mut table);
    let stats = list_host_metrics(&table);
    assert_eq!(stats[0].failures, 1);
}

#[test]
fn test_metrics_running_average() {
    let mut table = HostTable::new();
    let mut first = MetricsRecorder::new("http://host.test/a");
    first.add_bytes(1000);
    first.finish_success(&mut table);
    let mut second = MetricsRecorder::new("http://host.test/b");
    second.add_bytes(3000);
    second.finish_success(&mut table);
    let stats = list_host_metrics(&table);
    assert_eq!(stats[0].downloads, 2);
    assert_eq!(stats[0].bytes_total, 4000);
}

#[test]
fn hosts_are_listed_by_bytes() {
    let mut table = HostTable::new();
    for (url, n) in [("http://a/", 1u64), ("no url", 9), ("http://b:80/", 5), ("http://a/x", 2)] {
        let mut r = MetricsRecorder::new(url);
        r.add_bytes(n);
        r.finish_success(&mut table);
    }
    let rows = list_host_metrics(&table);
    let hosts: Vec<(&str, i64)> = rows.iter().map(|r| (r.host.as_str(), r.bytes_total)).collect();
    assert_eq!(hosts, vec![("unknown", 9), ("b", 5), ("a", 3)]);
    assert_eq!(MetricsRecorder::for_host(None).host, "unknown");
    let lines = handle_stats(&rows, &vec![7, 8, 9]);
    assert_eq!(
        lines[0],
        format!("{:<30} {:>8} {:>14} {:>14} {:>8}", "Host", "Downloads", "Bytes", "Avg B/s", "Fails")
    );
    assert_eq!(lines[3], format!("{:<30} {:>8} {:>14} {:>14} {:>8}", "a", 2, 3, 9, 0));
    assert_eq!(handle_stats(&Vec::new(), &Vec::new()), vec!["No download metrics recorded yet."]);
    let odd = HostMetrics { host: "h".into(), downloads: -1, bytes_total: i64::MIN, failures: 0 };
    assert_eq!(
        handle_stats(&vec![odd], &vec![u64::MAX])[1],
        format!("{:<30} {:>8} {:>14} {:>14} {:>8}", "h", -1, i64::MIN, u64::MAX, 0)
    );
}

#[test]
fn daemon_answers_with_statuses() {
    let mut registry = Registry::open_in_memory();
    assert_eq!(health(), "ok");
    assert_eq!(listen_address(9844), "127.0.0.1:9844");
    let id = add_download(&mut registry, "http://h/f".into(), None).unwrap();
    assert_eq!(registry.get(&id).unwrap().target_path, "download.bin");
    let list = list_downloads(&registry);
    assert_eq!(list.len(), 1);
    assert_eq!((list[0].status.as_str(), list[0].category.as_str()), ("Pending", "Other"));
    assert_eq!(pause_download(&mut registry, &id), OK);
    assert_eq!(pause_download(&mut registry, "none"), NOT_FOUND);
    assert_eq!(answer_added(Err(RegistryError::DuplicateId)), Err(BAD_REQUEST));
    let mut runs = Runs::new();
    assert_eq!(runs.request(), ACCEPTED);
    assert_eq!(runs.request(), CONFLICT);
    runs.finished();
    assert_eq!(runs.request(), ACCEPTED);
}
