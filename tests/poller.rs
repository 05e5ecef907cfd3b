use peerwatch::{
    endpoint_le_exec, extract_endpoints, first_pid, history_entry, listing_error, lookup_error,
    pid_or_wait, sort_endpoints, App, BackgroundEvent, Poller,
};

fn strings(v: &[&str]) -> Vec<String> {
    v.iter().map(|s| s.to_string()).collect()
}

fn listing(remotes: &[&str]) -> String {
    let mut s = String::from("COMMAND PID USER FD TYPE DEVICE SIZE/OFF NODE NAME\n");
    for r in remotes {
        s.push_str(&format!("prog 42 me 3u IPv4 0x1 0t0 TCP 10.0.0.2:5000->{}:443 (ESTABLISHED)\n", r));
    }
    s
}

fn is_stamp(t: &str) -> bool {
    let b = t.as_bytes();
    b.len() == 8 && b[2] == b':' && b[5] == b':' && [0, 1, 3, 4, 6, 7].iter().all(|&i| b[i].is_ascii_digit())
}

fn endpoint_of(entry: &str) -> String {
    assert!(entry.starts_with('['));
    assert_eq!(&entry[9..11], "] ");
    assert!(is_stamp(&entry[1..9]));
    entry[11..].to_string()
}

#[test]
fn sort_orders_addresses_numerically() {
    let v = strings(&["10.0.0.2", "9.1.1.1", "::1", "10.0.0.10"]);
    assert_eq!(sort_endpoints(&v), strings(&["9.1.1.1", "10.0.0.2", "10.0.0.10", "::1"]));
}

#[test]
fn sort_falls_back_to_text() {
    let v = strings(&["b.c", "a.c", "1.2.3.4"]);
    let r = sort_endpoints(&v);
    assert_eq!(r.len(), 3);
    assert!(endpoint_le_exec(&r[0], &r[1]) && endpoint_le_exec(&r[1], &r[2]));
    let v = strings(&["zz.1", "aa.1"]);
    assert_eq!(sort_endpoints(&v), strings(&["aa.1", "zz.1"]));
}

#[test]
fn comparison_uses_addresses_when_both_parse() {
    assert!(endpoint_le_exec(&"9.0.0.1".to_string(), &"10.0.0.2".to_string()));
    assert!(!endpoint_le_exec(&"10.0.0.2".to_string(), &"9.0.0.1".to_string()));
    assert!(endpoint_le_exec(&"255.255.255.255".to_string(), &"::".to_string()));
    assert!(endpoint_le_exec(&"10.0.0.2".to_string(), &"9.x".to_string()));
}

#[test]
fn history_entry_shape() {
    assert_eq!(history_entry("12:34:56", "1.2.3.4"), "[12:34:56] 1.2.3.4");
}

#[test]
fn pid_is_first_non_blank_line_trimmed() {
    assert_eq!(first_pid("1234\n5678\n"), Some("1234".to_string()));
    assert_eq!(first_pid("\n  \n 42 \r\n7\n"), Some("42".to_string()));
    assert_eq!(first_pid(""), None);
    assert_eq!(first_pid(" \n\t"), None);
}

#[test]
fn waiting_message_when_no_process() {
    match pid_or_wait("foo", "") {
        Err(BackgroundEvent::Error(m)) => assert_eq!(m, "Waiting for process 'foo'..."),
        _ => panic!("expected a waiting message"),
    }
    match pid_or_wait("foo", "99\n") {
        Ok(p) => assert_eq!(p, "99"),
        Err(_) => panic!("expected a pid"),
    }
}

#[test]
fn tool_error_messages() {
    match lookup_error("not found") {
        BackgroundEvent::Error(m) => assert_eq!(m, "PGREP Error: not found"),
        _ => panic!("expected an error"),
    }
    match listing_error("denied") {
        BackgroundEvent::Error(m) => assert_eq!(m, "LSOF Error: denied"),
        _ => panic!("expected an error"),
    }
}

#[test]
fn process_listing_announces_once() {
    let mut poller = Poller::new();
    match poller.process_listing("42", &listing(&["8.8.8.8", "1.1.1.1", "8.8.8.8"])) {
        BackgroundEvent::DataUpdate { active, new_history_entries, pid_msg } => {
            assert_eq!(active, strings(&["1.1.1.1", "8.8.8.8"]));
            let eps: Vec<String> = new_history_entries.iter().map(|e| endpoint_of(e)).collect();
            assert_eq!(eps, strings(&["8.8.8.8", "1.1.1.1"]));
            assert_eq!(pid_msg, "Monitoring PID: 42");
        }
        _ => panic!("expected an update"),
    }
    match poller.process_listing("42", &listing(&["1.1.1.1"])) {
        BackgroundEvent::DataUpdate { new_history_entries, .. } => assert!(new_history_entries.is_empty()),
        _ => panic!("expected an update"),
    }
    assert_eq!(poller.announced, strings(&["8.8.8.8", "1.1.1.1"]));
}

#[test]
fn end_to_end_first_contact_log() {
    let (a, b, c, d) = ("10.0.0.1", "10.0.0.2", "10.0.0.3", "10.0.0.4");
    let mut poller = Poller::new();
    let mut app = App::new("prog".to_string());
    let mut actives = Vec::new();
    for step in 0..4 {
        let event = match step {
            0 => poller.process_listing("42", &listing(&[a, b])),
            1 => poller.process_listing("42", &listing(&[a, c])),
            2 => match pid_or_wait("prog", "") {
                Err(e) => e,
                Ok(_) => panic!("no process expected"),
            },
            _ => poller.process_listing("43", &listing(&[d, a])),
        };
        app.apply_event(event);
        actives.push(app.active_connections.clone());
    }
    let history: Vec<String> = app.history_log.iter().map(|e| endpoint_of(e)).collect();
    assert_eq!(history, strings(&[a, b, c, d]));
    assert_eq!(actives, vec![strings(&[a, b]), strings(&[a, c]), vec![], strings(&[a, d])]);
    let mut seen = app.seen_ips.clone();
    seen.sort();
    assert_eq!(seen, strings(&[a, b, c, d]));
    assert_eq!(app.last_status_msg, "Monitoring PID: 43");
}

#[test]
fn extraction_feeds_sorting() {
    let found = extract_endpoints(&listing(&["[10.9.9.9]", "2.2.2.2"]));
    assert_eq!(found, strings(&["10.9.9.9", "2.2.2.2"]));
    assert_eq!(sort_endpoints(&found), strings(&["2.2.2.2", "10.9.9.9"]));
}
