use chrono::{DateTime, Duration, Utc};
use warp::clock::{instant_at, LAST_SECOND, NANOS_PER_SEC};
use warp::download_registry::registry::Registry;
use warp::pipeline::checksum::{checksum_error, digest_text, same_digest, verify_checksum};
use warp::download_registry::entries::RegistryError;
use warp::pipeline::engine::{after_look, pending_at, pending_now, settle, Round};
use warp::pipeline::executor::{
    backend_of, conclude, result_of, Backend, ExecuteResult, Outcome,
};
use warp::pipeline::post_action::{post_steps, shutdown_due, PostStep};
use warp::pipeline::scheduler::{
    entry_instant, is_allowed_at, is_entry_ready, is_ready_at, is_within_schedule,
    next_schedule_wait, wait_for,
};
use warp::types::{
    AppSettings, DownloadEntry, DownloadStatus, PostDownloadAction, ScheduleWindow,
};

fn entry(id: &str) -> DownloadEntry {
    DownloadEntry::new_http(id.into(), "http://x".into(), "x".into())
}

fn window(a: (u8, u8), b: (u8, u8)) -> AppSettings {
    AppSettings {
        schedule_windows: vec![ScheduleWindow {
            start_hour: a.0,
            start_minute: a.1,
            end_hour: b.0,
            end_minute: b.1,
        }],
        ..Default::default()
    }
}

#[test]
fn test_empty_schedule_always_allowed() {
    assert!(is_within_schedule(&AppSettings::default()));
}

#[test]
fn test_full_day_window_is_allowed() {
    let settings = AppSettings {
        schedule_windows: vec![ScheduleWindow {
            start_hour: 0,
            start_minute: 0,
            end_hour: 23,
            end_minute: 59,
        }],
        ..Default::default()
    };
    assert!(is_within_schedule(&settings));
}

#[test]
fn test_entry_without_schedule_is_ready() {
    let entry = DownloadEntry::new_http("1".into(), "http://example.com".into(), "f.bin".into());
    assert!(is_entry_ready(&entry));
}

#[test]
fn test_entry_with_past_schedule_is_ready() {
    let past = (Utc::now() - Duration::hours(1)).to_rfc3339();
    let mut entry = DownloadEntry::new_http("1".into(), "http://x.com".into(), "a".into());
    entry.scheduled_at = Some(past);
    assert!(is_entry_ready(&entry));
}

#[test]
fn test_entry_with_future_schedule_not_ready() {
    let future = (Utc::now() + Duration::hours(2)).to_rfc3339();
    let mut entry = DownloadEntry::new_http("1".into(), "http://x.com".into(), "a".into());
    entry.scheduled_at = Some(future);
    assert!(!is_entry_ready(&entry));
}

#[test]
fn test_next_wait_none_when_allowed() {
    assert!(next_schedule_wait(&AppSettings::default()).is_none());
    assert_eq!(wait_for(false), Some(60));
}

#[test]
fn windows_may_reach_over_midnight() {
    let day = window((8, 30), (17, 0));
    assert!(!is_allowed_at(&day, 8 * 3600 + 29 * 60 + 59));
    assert!(is_allowed_at(&day, 8 * 3600 + 30 * 60));
    assert!(is_allowed_at(&day, 17 * 3600 - 1));
    assert!(!is_allowed_at(&day, 17 * 3600));
    assert!(!is_allowed_at(&day, 17 * 3600 + 30));
    let night = window((22, 0), (6, 0));
    assert!(is_allowed_at(&night, 23 * 3600));
    assert!(is_allowed_at(&night, 0));
    assert!(is_allowed_at(&night, 6 * 3600 - 1));
    assert!(!is_allowed_at(&night, 6 * 3600));
    assert!(!is_allowed_at(&night, 12 * 3600));
    let odd = window((25, 0), (99, 0));
    assert!(is_allowed_at(&odd, 0));
    assert!(!is_allowed_at(&odd, 86_399));
}

#[test]
fn instants_are_read_with_their_offset() {
    let mut e = entry("1");
    e.scheduled_at = Some("2024-05-01T12:00:00.5+02:00".into());
    let t = DateTime::parse_from_rfc3339("2024-05-01T10:00:00Z").unwrap().timestamp();
    assert_eq!(entry_instant(&e), Some((t, 500_000_000)));
    assert!(!is_ready_at(Some((t, 5)), (t, 4)));
    assert!(is_ready_at(Some((t, 5)), (t, 5)));
    e.scheduled_at = Some("tomorrow".into());
    assert_eq!(entry_instant(&e), None);
    assert!(is_entry_ready(&e));
}

#[test]
fn engine_test_run_all_no_pending() {
    let registry = Registry::open_in_memory();
    assert!(registry.list().is_empty());
    assert!(pending_now(&registry.list_not_completed()).is_empty());
    assert_eq!(after_look(0, 0), Round::Idle(5));
}

#[test]
fn engine_test_engine_skips_completed() {
    let mut registry = Registry::open_in_memory();
    let id = registry.add("url".to_string(), "path".to_string()).unwrap();
    registry.update_status(&id, DownloadStatus::Completed).unwrap();
    assert!(pending_now(&registry.list()).is_empty());
    assert_eq!(registry.get(&id).unwrap().status, DownloadStatus::Completed);
}

#[test]
fn due_downloads_come_by_priority() {
    let mut a = entry("a");
    a.priority = 1;
    let mut b = entry("b");
    b.priority = 7;
    let mut c = entry("c");
    c.scheduled_at = Some("2030-01-01T00:00:00Z".into());
    c.priority = 9;
    let list = vec![a, b, c];
    let ids = |v: Vec<DownloadEntry>| v.into_iter().map(|e| e.id).collect::<Vec<_>>();
    assert_eq!(ids(pending_at(&list, (0, 0))), vec!["b", "a"]);
    assert_eq!(ids(pending_at(&list, (4_000_000_000, 0))), vec!["c", "b", "a"]);
    assert_eq!(after_look(2, 0), Round::Busy(5));
    assert_eq!(after_look(2, 1), Round::Collect);
}

#[test]
fn test_move_after_download() {
    let entry = DownloadEntry {
        target_path: "dir/file.bin".into(),
        post_action: PostDownloadAction {
            move_to: Some("dir/done/file.bin".into()),
            ..Default::default()
        },
        ..entry("1")
    };
    let steps = post_steps(&entry);
    assert_eq!(steps.len(), 1);
    match &steps[0] {
        PostStep::Move { from, to, directory } => {
            assert_eq!(from, "dir/file.bin");
            assert_eq!(to, "dir/done/file.bin");
            assert_eq!(directory.as_deref(), Some("dir/done"));
        }
        other => panic!("{other:?}"),
    }
}

#[test]
fn test_delete_warp_after_download() {
    let entry = DownloadEntry {
        target_path: "dir/file.bin".into(),
        post_action: PostDownloadAction {
            delete_warp: true,
            run_command: Some("echo".into()),
            ..Default::default()
        },
        ..entry("1")
    };
    let steps = post_steps(&entry);
    assert_eq!(steps.len(), 3);
    assert!(matches!(&steps[0], PostStep::Delete(p) if p == "dir/file.warp"));
    assert!(matches!(&steps[1], PostStep::Delete(p) if p == "dir/file.hls.warp"));
    assert!(matches!(&steps[2], PostStep::Run(c) if c == "echo"));
}

#[test]
fn test_maybe_shutdown_noop_without_flag() {
    let registry = Registry::open_in_memory();
    assert!(!shutdown_due(&registry.list()));
    let mut done = entry("1");
    done.status = DownloadStatus::Completed;
    assert!(!shutdown_due(&vec![done.clone()]));
    done.post_action.shutdown_when_queue_empty = true;
    assert!(shutdown_due(&vec![done.clone()]));
    assert!(!shutdown_due(&vec![done, entry("2")]));
}

#[test]
fn digests_are_those_of_sha_256() {
    let abc = "ba7816bf8f01cfea414140de5dae2223b00361a396177a9cb410ff61f20015ad";
    assert_eq!(digest_text(b"abc"), abc);
    assert_eq!(checksum_error(None, None), None);
    assert_eq!(checksum_error(None, Some(b"abc")), None);
    assert_eq!(checksum_error(Some(abc), Some(b"abc")), None);
    assert_eq!(
        checksum_error(Some(abc), None),
        Some("Failed to read file for checksum".to_string())
    );
    assert_eq!(
        checksum_error(Some("00"), Some(b"abc")),
        Some(format!("Checksum mismatch: expected 00, got {abc}"))
    );
    assert_eq!(verify_checksum(b"abc", abc), Ok(()));
    assert_eq!(verify_checksum(b"abc", &abc.to_uppercase()), Ok(()));
    assert_eq!(
        verify_checksum(b"abc", "00"),
        Err(format!("Checksum mismatch: expected 00, got {abc}"))
    );
    assert!(same_digest("a", "a"));
    assert!(!same_digest("a", "b"));
}

#[test]
fn outcomes_tell_what_went_wrong_first() {
    let good = result_of(Ok(5));
    assert_eq!(good.status, DownloadStatus::Completed);
    let bad = result_of(Err("net".into()));
    assert_eq!((bad.status, bad.error_message.as_deref()), (DownloadStatus::Error, Some("net")));
    let c = conclude(good, Some("sum".into()), Some("post".into()));
    assert_eq!((c.status, c.error_message.as_deref()), (DownloadStatus::Error, Some("sum")));
    let fine = ExecuteResult { status: DownloadStatus::Completed, error_message: None };
    assert_eq!(conclude(fine, None, None).status, DownloadStatus::Completed);
    assert_eq!(
        conclude(bad, Some("sum".into()), None).error_message.as_deref(),
        Some("net")
    );
    let fine = ExecuteResult { status: DownloadStatus::Completed, error_message: None };
    assert_eq!(conclude(fine, None, Some("p".into())).error_message.as_deref(), Some("p"));
    assert_eq!(backend_of(&entry("1")), Backend::Ranges);
    let hls = DownloadEntry::new_hls("1".into(), "u".into(), "p".into(), None, None);
    assert_eq!(backend_of(&hls), Backend::Stream);
}

#[test]
fn a_download_is_claimed_once() {
    let mut registry = Registry::open_in_memory();
    registry.add_with_id("1".into(), "http://x".into(), "x".into()).unwrap();
    assert!(!registry.try_claim_download("2"));
    assert!(registry.try_claim_download("1"));
    assert_eq!(registry.get("1").unwrap().status, DownloadStatus::Downloading);
    assert!(!registry.try_claim_download("1"));
    registry.update_status("1", DownloadStatus::Completed).unwrap();
    assert!(!registry.try_claim_download("1"));
    assert_eq!(registry.get("1").unwrap().status, DownloadStatus::Completed);
}

#[test]
fn the_queue_notes_how_a_download_ended() {
    let mut registry = Registry::open_in_memory();
    registry.add_with_id("1".into(), "http://x".into(), "x".into()).unwrap();
    registry.add_with_id("2".into(), "http://y".into(), "y".into()).unwrap();
    let failed = Outcome {
        status: DownloadStatus::Error,
        error_message: Some("no route".into()),
    };
    assert_eq!(settle(&mut registry, "1", failed), Ok(()));
    let first = registry.get("1").unwrap();
    assert_eq!(first.status, DownloadStatus::Error);
    assert_eq!(first.error_message.as_deref(), Some("no route"));
    assert_eq!(registry.get("2").unwrap().status, DownloadStatus::Pending);

    let done = Outcome { status: DownloadStatus::Completed, error_message: None };
    assert_eq!(settle(&mut registry, "1", done), Ok(()));
    let first = registry.get("1").unwrap();
    assert_eq!(first.status, DownloadStatus::Completed);
    assert_eq!(first.error_message.as_deref(), Some("no route"));

    let lost = Outcome { status: DownloadStatus::Completed, error_message: None };
    assert_eq!(settle(&mut registry, "3", lost), Err(RegistryError::NotFound));
}

#[test]
fn a_download_added_during_a_run_stays() {
    let mut registry = Registry::open_in_memory();
    registry.add_with_id("a".into(), "http://x/a".into(), "a".into()).unwrap();
    assert!(registry.try_claim_download("a"));
    registry.add_with_id("b".into(), "http://x/b".into(), "b".into()).unwrap();
    let done = Outcome { status: DownloadStatus::Completed, error_message: None };
    assert_eq!(settle(&mut registry, "a", done), Ok(()));
    assert_eq!(registry.list().len(), 2);
    assert_eq!(registry.get("a").unwrap().status, DownloadStatus::Completed);
    let added = registry.get("b").unwrap();
    assert_eq!(added.status, DownloadStatus::Pending);
    assert_eq!(added.url, "http://x/b");
}

#[test]
fn clocks_beyond_the_calendar_count_as_its_ends() {
    assert_eq!(instant_at(Some(2_500_000_000)), (2, 500_000_000));
    assert_eq!(instant_at(None), (0, 0));
    let last = LAST_SECOND as u128 * NANOS_PER_SEC;
    assert_eq!(instant_at(Some(last + 7)), (253_402_300_799, 7));
    assert_eq!(instant_at(Some(last + NANOS_PER_SEC + 7)), (253_402_300_799, 0));
    let named = DateTime::parse_from_rfc3339("9999-12-31T23:59:59Z").unwrap();
    assert_eq!(named.timestamp(), LAST_SECOND as i64);
}
