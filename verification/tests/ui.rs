use warp::download_registry::entries::RegistryError;
use warp::download_registry::registry::Registry;
use warp::gui::{Action, Outcome, WarpApp};
use warp::interceptor::types::{CapturedRequest, Headers};
use warp::types::{DownloadCategory, DownloadEntry, DownloadStatus};
use warp::ui::backend::{DownloadProgress, UiAction, UiBackend, UiMessage};
use warp::ui::gui::{
    control_of, progress_label, read_url, request_label, speed_label, url_label, CaptureTab, Control,
};
use warp::ui::registry_bridge::RegistryBridge;
use warp::ui::tui::{category_titles, read_download, run_text, App, Command, InputMode, Key};

fn entry(id: &str) -> DownloadEntry {
    DownloadEntry::new_http(id.into(), format!("http://h/{id}"), format!("{id}.bin"))
}

fn queue(ids: &[&str]) -> Registry {
    let mut r = Registry::open_in_memory();
    for id in ids {
        r.add_with_id(id.to_string(), format!("http://h/{id}"), format!("{id}.bin")).unwrap();
    }
    r
}

#[test]
fn messages_change_window_and_queue_alike() {
    let mut registry = queue(&["1", "2"]);
    registry.update_status("2", DownloadStatus::Completed).unwrap();
    let mut ui = UiBackend::spawn(&registry);
    assert_eq!(ui.state.len(), 2);
    assert_eq!((ui.state[0].downloaded, ui.state[0].total), (0, 0));
    assert_eq!((ui.state[1].downloaded, ui.state[1].total), (1, 1));
    match ui.handle(&mut registry, UiMessage::Resume("1".into())) {
        UiAction::Start(e) => assert_eq!(e.status, DownloadStatus::Downloading),
        other => panic!("{other:?}"),
    }
    assert_eq!(registry.get("1").unwrap().status, DownloadStatus::Downloading);
    assert_eq!(ui.state[0].status, DownloadStatus::Downloading);
    ui.set_total("1", 100);
    ui.tick("1", 30, 10);
    assert_eq!((ui.state[0].total, ui.state[0].downloaded, ui.state[0].speed), (100, 30, 40));
    ui.tick("1", 5, 30);
    assert_eq!(ui.state[0].speed, 0);
    assert!(matches!(
        ui.handle(&mut registry, UiMessage::Pause("1".into())),
        UiAction::Nothing
    ));
    assert_eq!(registry.get("1").unwrap().status, DownloadStatus::Paused);
    assert_eq!(ui.state[0].status, DownloadStatus::Paused);
    ui.finish(&mut registry, "1", false);
    assert_eq!(ui.state[0].status, DownloadStatus::Error);
    assert_eq!(registry.get("1").unwrap().status, DownloadStatus::Error);
    let id = match ui.handle(&mut registry, UiMessage::Add("u".into(), "p".into())) {
        UiAction::ResumeNext(id) => id,
        other => panic!("{other:?}"),
    };
    assert_eq!(ui.state.len(), 3);
    assert!(registry.get(&id).is_some());
    ui.handle(&mut registry, UiMessage::Remove(id.clone()));
    assert!(registry.get(&id).is_none());
    assert_eq!(ui.state.len(), 2);
    assert!(matches!(
        ui.handle(&mut registry, UiMessage::Resume(id)),
        UiAction::Nothing
    ));
    assert!(matches!(ui.handle(&mut registry, UiMessage::Quit), UiAction::Quit));
    assert!(matches!(
        ui.on_added(Err(RegistryError::DuplicateId), "u".into(), "p".into()),
        UiAction::Report(RegistryError::DuplicateId)
    ));
}

#[test]
fn bridges_pass_requests_on() {
    let mut bridge = RegistryBridge::new(queue(&["1", "2"]));
    assert_eq!(bridge.list_filtered(None, String::new()).len(), 2);
    assert_eq!(bridge.list_filtered(None, "h/2".into()).len(), 1);
    assert_eq!(bridge.list_filtered(Some(DownloadCategory::Video), String::new()).len(), 0);
    assert_eq!(bridge.get_settings().max_workers, 32);
    assert_eq!(bridge.pause("1".into()), Ok(()));
    assert_eq!(bridge.registry.get("1").unwrap().status, DownloadStatus::Paused);
    assert_eq!(bridge.resume("1".into()), Ok(()));
    assert_eq!(bridge.retry("9".into()), Err(RegistryError::NotFound));
    bridge.remove("1".into());
    bridge.remove("1".into());
    assert!(bridge.add("u".into(), "p".into()).is_ok());
    bridge.registry.update_status("2", DownloadStatus::Completed).unwrap();
    assert_eq!(bridge.clean(), 1);
}

#[test]
fn keys_drive_the_terminal() {
    let mut app = App::new();
    assert!(app.refresh(0));
    assert!(!app.refresh(10_000));
    app.on_list(vec![entry("a"), entry("b"), entry("c")]);
    assert!(!app.refresh(1499));
    assert!(matches!(app.on_key(Key::Char('p')), Command::Nothing));
    app.on_key(Key::Down);
    assert_eq!(app.selected, Some(0));
    app.on_key(Key::Char('k'));
    assert_eq!(app.selected, Some(2));
    app.on_key(Key::Char('j'));
    app.on_key(Key::Char('j'));
    assert_eq!(app.selected, Some(1));
    assert!(matches!(app.on_key(Key::Char('p')), Command::Pause(id) if id == "b"));
    assert_eq!(app.status_message, "Paused.");
    assert!(matches!(app.on_key(Key::Char('r')), Command::Resume(id) if id == "b"));
    assert_eq!(app.status_message, "Marked pending.");
    assert!(matches!(app.on_key(Key::Char('y')), Command::Retry(id) if id == "b"));
    assert_eq!(app.status_message, "Marked for retry.");
    assert!(matches!(app.on_key(Key::Char('d')), Command::Remove(id) if id == "b"));
    assert!(matches!(app.on_key(Key::Char('c')), Command::Clean));
    assert!(matches!(app.on_key(Key::Char('R')), Command::RunAll));
    assert!(matches!(app.on_key(Key::Char('R')), Command::Nothing));
    app.on_run(Some("no".into()));
    assert_eq!(app.footer(), "Run failed: no");
    assert!(matches!(app.on_key(Key::Char('q')), Command::Quit));
    assert!(matches!(app.on_key(Key::Char('z')), Command::Nothing));
    assert_eq!(run_text(None), "Queue finished.");
}

#[test]
fn tabs_choose_the_category() {
    let mut app = App::new();
    assert_eq!(
        category_titles(),
        vec!["All", "Other", "Video", "Audio", "Archive", "Document", "Image"]
    );
    assert_eq!(app.selected_category(), None);
    app.on_key(Key::BackTab);
    assert_eq!(app.selected_category(), Some(DownloadCategory::Image));
    app.on_key(Key::Right);
    assert_eq!(app.selected_category(), None);
    app.on_key(Key::Tab);
    app.on_key(Key::Tab);
    assert_eq!(app.selected_category(), Some(DownloadCategory::Video));
    app.on_key(Key::Left);
    assert_eq!(app.selected_category(), Some(DownloadCategory::Other));
}

#[test]
fn lines_are_typed_and_given_up() {
    let mut app = App::new();
    app.on_key(Key::Char('a'));
    assert_eq!(app.input_mode, InputMode::AddUrl);
    for c in "http://h/f.zip?x out dir".chars() {
        app.on_key(Key::Char(c));
    }
    match app.on_key(Key::Enter) {
        Command::Add { url, path } => {
            assert_eq!(url, "http://h/f.zip?x");
            assert_eq!(path, "out dir");
        }
        other => panic!("{other:?}"),
    }
    assert_eq!(app.input_mode, InputMode::Normal);
    assert_eq!(app.status_message, "Added download.");
    app.on_key(Key::Char('/'));
    for c in " cat ".chars() {
        app.on_key(Key::Char(c));
    }
    app.on_key(Key::Backspace);
    app.on_key(Key::Enter);
    assert_eq!(app.search, "cat");
    app.on_key(Key::Char('/'));
    assert_eq!(app.input.iter().collect::<String>(), "cat");
    app.on_key(Key::Char('s'));
    app.on_key(Key::Esc);
    assert_eq!(app.search, "cat");
    app.status_message = String::new();
    app.on_settings(5);
    assert_eq!(app.footer(), "0 download(s) · worker cap 5 · search: cat");
    app.on_key(Key::Char('a'));
    app.on_key(Key::Char(' '));
    assert!(matches!(app.on_key(Key::Enter), Command::Nothing));
    let line: Vec<char> = "http://h/d/f.zip?x".chars().collect();
    assert_eq!(read_download(&line), ("http://h/d/f.zip?x".into(), "f.zip".into()));
    assert_eq!(app.selected_id(), None);
}

#[test]
fn windows_wait_for_their_answers() {
    let mut w = WarpApp::new();
    assert!(w.request_settings());
    assert!(!w.request_settings());
    w.on_settings(9);
    assert_eq!(w.max_workers, 9);
    assert!(w.add_download().is_none());
    assert_eq!(w.status_message, "Enter a URL first.");
    w.add_url = " http://h/a.zip?b ".into();
    let (url, path) = w.add_download().unwrap();
    assert_eq!((url.as_str(), path.as_str()), ("http://h/a.zip?b", "a.zip"));
    assert_eq!(w.add_url, "");
    assert_eq!(w.action_pending, Some(Action::Add));
    assert!(!w.request_action(Action::Clean));
    w.on_action(Outcome::Added(Ok("7".into())));
    assert_eq!(w.status_message, "Added download 7");
    assert!(w.request_action(Action::Clean));
    w.on_action(Outcome::Cleaned(Ok(2)));
    assert_eq!(w.status_message, "Cleaned 2 completed download(s).");
    w.selected_id = Some("1".into());
    w.on_list(vec![entry("1")]);
    assert_eq!(w.selected_id.as_deref(), Some("1"));
    w.on_list(vec![entry("2")]);
    assert_eq!(w.selected_id, None);
    w.selected_id = Some("2".into());
    w.on_action(Outcome::Updated(Err("e".into())));
    assert_eq!(w.status_message, "Action failed: e");
    w.on_action(Outcome::Removed(Ok(())));
    assert_eq!((w.status_message.as_str(), &w.selected_id), ("Removed download.", &None));
    for (o, text) in [
        (Outcome::Added(Err("e".into())), "Add failed: e"),
        (Outcome::Removed(Err("e".into())), "Remove failed: e"),
        (Outcome::Updated(Ok(())), "Updated."),
        (Outcome::Cleaned(Err("e".into())), "Clean failed: e"),
    ] {
        w.on_action(o);
        assert_eq!(w.status_message, text);
    }
    assert!(w.refresh(0));
    assert!(!w.refresh(9));
    w.on_list(Vec::new());
    assert!(!w.refresh(1));
    assert!(w.refresh(2));
    assert!(w.request_run());
    assert!(!w.request_run());
    w.on_run(None);
    assert_eq!(w.status_message, "Queue finished.");
    w.choose_category(Some(DownloadCategory::Audio));
    assert!(w.needs_refresh);
    w.add_url = "u".into();
    w.add_output = " o ".into();
    assert_eq!(w.add_download(), Some(("u".into(), "o".into())));
}

#[test]
fn progress_is_shown_in_words() {
    let mut p = DownloadProgress {
        id: "1".into(),
        url: "http://h/".to_string() + &"x".repeat(40),
        target_path: "p".into(),
        status: DownloadStatus::Downloading,
        downloaded: 512,
        total: 2048,
        speed: 1536,
    };
    assert_eq!(url_label(&p), format!("{}...", &p.url[..37]));
    assert_eq!(speed_label(&p), "1.50 KB/s");
    assert_eq!(progress_label(&p), "512 B / 2.00 KB");
    p.total = 0;
    assert_eq!(progress_label(&p), "512 B / ?");
    p.status = DownloadStatus::Completed;
    assert_eq!(progress_label(&p), "512 B (Done)");
    assert_eq!(speed_label(&p), "-");
    assert_eq!(control_of(DownloadStatus::Pending), Control::Pause);
    assert_eq!(control_of(DownloadStatus::Error), Control::Resume);
    assert_eq!(control_of(DownloadStatus::Completed), Control::Nothing);
    assert_eq!(read_url(""), None);
    assert_eq!(read_url(" http://h/f?q "), Some(("http://h/f?q".into(), "f".into())));
    assert_eq!(read_url(" "), Some(("".into(), "".into())));
}

#[test]
fn capture_starts_only_with_a_driver() {
    let mut tab = CaptureTab::new(false);
    assert!(tab.show_warning);
    tab.dismiss();
    assert!(!tab.start(false));
    assert!(tab.show_warning);
    assert!(tab.start(true));
    assert_eq!(tab.status_label(), "Running");
    assert!(!tab.start(true));
    tab.stop();
    assert_eq!(tab.status_label(), "Stopped");
    let r = CapturedRequest {
        id: "1".into(),
        timestamp: 0,
        source_ip: "a".into(),
        destination_ip: "b".into(),
        source_port: 1,
        destination_port: 2,
        protocol: "TCP".into(),
        method: None,
        url: Some("/test".into()),
        host: None,
        user_agent: None,
        content_type: None,
        content_length: None,
        headers: Headers::new(),
        payload_size: 0,
    };
    assert_eq!(request_label(&r), ("- /test".into(), "a:1 -> b:2".into()));
}

#[test]
fn a_window_adds_under_an_id() {
    let mut registry = queue(&["1"]);
    let mut ui = UiBackend::spawn(&registry);
    let taken = ui.add_as(&mut registry, Some("1".into()), "http://h/x".into(), "x".into());
    assert!(matches!(taken, UiAction::Report(RegistryError::DuplicateId)));
    let none = ui.add_as(&mut registry, None, "http://h/x".into(), "x".into());
    assert!(matches!(none, UiAction::Report(RegistryError::ClockBeforeEpoch)));
    assert_eq!((registry.list().len(), ui.state.len()), (1, 1));
    let new = ui.add_as(&mut registry, Some("2".into()), "http://h/x".into(), "x".into());
    assert!(matches!(new, UiAction::ResumeNext(id) if id == "2"));
    assert_eq!(registry.get("2").unwrap().url, "http://h/x");
    assert_eq!(ui.state.iter().filter(|p| p.id == "2" && p.target_path == "x").count(), 1);
}
