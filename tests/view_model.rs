use peerwatch::{is_alert_status, last_token_of, App, BackgroundEvent, Focus, Key};

fn strings(v: &[&str]) -> Vec<String> {
    v.iter().map(|s| s.to_string()).collect()
}

fn app_with_active(n: usize) -> App {
    let mut app = App::new("target".to_string());
    let active: Vec<String> = (0..n).map(|i| format!("10.0.0.{}", i)).collect();
    app.apply_data_update(active, vec![], "Monitoring PID: 7".to_string());
    app
}

#[test]
fn new_app_starts_empty() {
    let app = App::new("foo".to_string());
    assert_eq!(app.target_name, "foo");
    assert!(app.active_connections.is_empty());
    assert!(app.history_log.is_empty());
    assert!(app.seen_ips.is_empty());
    assert_eq!(app.last_status_msg, "Initializing...");
    assert_eq!(app.focus, Focus::ActiveList);
    assert_eq!(app.active_selected, None);
    assert_eq!(app.history_selected, None);
}

#[test]
fn next_and_previous_wrap() {
    let mut app = app_with_active(3);
    app.next();
    assert_eq!(app.active_selected, Some(0));
    app.next();
    app.next();
    assert_eq!(app.active_selected, Some(2));
    app.next();
    assert_eq!(app.active_selected, Some(0));
    app.previous();
    assert_eq!(app.active_selected, Some(2));
    app.previous();
    assert_eq!(app.active_selected, Some(1));
}

#[test]
fn next_then_previous_returns() {
    for start in 0..4 {
        let mut app = app_with_active(4);
        app.active_selected = Some(start);
        app.next();
        app.previous();
        assert_eq!(app.active_selected, Some(start));
    }
}

#[test]
fn previous_from_nothing_selects_first() {
    let mut app = app_with_active(5);
    app.previous();
    assert_eq!(app.active_selected, Some(0));
}

#[test]
fn empty_list_ignores_navigation() {
    let mut app = App::new("t".to_string());
    app.next();
    app.previous();
    assert_eq!(app.active_selected, None);
    app.toggle_focus();
    app.next();
    assert_eq!(app.history_selected, None);
}

#[test]
fn stale_selection_wraps_to_top() {
    let mut app = app_with_active(2);
    app.active_selected = Some(9);
    app.next();
    assert_eq!(app.active_selected, Some(0));
}

#[test]
fn navigation_moves_only_the_focused_list() {
    let mut app = app_with_active(3);
    app.apply_data_update(strings(&["1.1.1.1"]), strings(&["[00:00:00] a", "[00:00:01] b"]), "ok".to_string());
    app.toggle_focus();
    assert_eq!(app.focus, Focus::HistoryList);
    app.previous();
    assert_eq!(app.history_selected, Some(0));
    app.next();
    assert_eq!(app.history_selected, Some(1));
    assert_eq!(app.active_selected, None);
}

#[test]
fn toggle_focus_twice_restores() {
    let mut app = App::new("t".to_string());
    app.toggle_focus();
    assert_eq!(app.focus, Focus::HistoryList);
    app.toggle_focus();
    assert_eq!(app.focus, Focus::ActiveList);
}

#[test]
fn data_update_appends_history_and_replaces_active() {
    let mut app = App::new("t".to_string());
    app.apply_data_update(strings(&["1.1.1.1", "2.2.2.2"]), strings(&["[00:00:00] 1.1.1.1", "[00:00:00] 2.2.2.2"]), "Monitoring PID: 5".to_string());
    app.apply_data_update(strings(&["3.3.3.3"]), strings(&["[00:00:01] 3.3.3.3"]), "Monitoring PID: 6".to_string());
    assert_eq!(app.active_connections, strings(&["3.3.3.3"]));
    assert_eq!(app.history_log.len(), 3);
    assert_eq!(app.history_log[2], "[00:00:01] 3.3.3.3");
    assert_eq!(app.last_status_msg, "Monitoring PID: 6");
    assert_eq!(app.seen_ips.len(), 3);
}

#[test]
fn error_clears_active_and_keeps_history() {
    let mut app = App::new("t".to_string());
    app.apply_event(BackgroundEvent::DataUpdate {
        active: strings(&["1.1.1.1"]),
        new_history_entries: strings(&["[00:00:00] 1.1.1.1"]),
        pid_msg: "Monitoring PID: 5".to_string(),
    });
    app.apply_event(BackgroundEvent::Error("LSOF Error: boom".to_string()));
    assert!(app.active_connections.is_empty());
    assert_eq!(app.history_log, strings(&["[00:00:00] 1.1.1.1"]));
    assert_eq!(app.seen_ips, strings(&["1.1.1.1"]));
    assert_eq!(app.last_status_msg, "LSOF Error: boom");
}

#[test]
fn keys_drive_the_model() {
    let mut app = app_with_active(20);
    assert!(!app.handle_key(Key::Char('x')));
    assert!(!app.handle_key(Key::Down));
    assert_eq!(app.active_selected, Some(0));
    assert!(!app.handle_key(Key::Char('j')));
    assert_eq!(app.active_selected, Some(1));
    assert!(!app.handle_key(Key::PageDown));
    assert_eq!(app.active_selected, Some(11));
    assert!(!app.handle_key(Key::PageUp));
    assert!(!app.handle_key(Key::Char('k')));
    assert!(!app.handle_key(Key::Up));
    assert_eq!(app.active_selected, Some(19));
    assert!(!app.handle_key(Key::Tab));
    assert_eq!(app.focus, Focus::HistoryList);
    assert!(!app.handle_key(Key::Left));
    assert!(!app.handle_key(Key::Right));
    assert_eq!(app.focus, Focus::HistoryList);
    assert!(!app.handle_key(Key::Other));
    assert!(app.handle_key(Key::Char('q')));
}

#[test]
fn alert_statuses() {
    assert!(is_alert_status("LSOF Error: x"));
    assert!(is_alert_status("Waiting for process 'foo'..."));
    assert!(!is_alert_status("Monitoring PID: 12"));
    assert!(!is_alert_status("Initializing..."));
    assert!(!is_alert_status("Err"));
}

#[test]
fn last_token_of_entries() {
    assert_eq!(last_token_of("[12:00:00] 1.2.3.4"), Some("1.2.3.4".to_string()));
    assert_eq!(last_token_of("a b\tc \n"), Some("c".to_string()));
    assert_eq!(last_token_of(" \t "), None);
    assert_eq!(last_token_of("\u{a0}x"), Some("\u{a0}x".to_string()));
}
