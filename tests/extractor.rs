use peerwatch::extract_endpoints;

const HEADER: &str = "COMMAND PID USER FD TYPE DEVICE SIZE/OFF NODE NAME\n";

#[test]
fn header_only_gives_nothing() {
    assert!(extract_endpoints(HEADER).is_empty());
    assert!(extract_endpoints("").is_empty());
}

#[test]
fn ipv4_remote_is_extracted() {
    let text = format!("{}foo 1234 u IPv4 TCP 10.0.0.1:55 -> 192.168.1.1:80 (ESTABLISHED)\n", HEADER);
    assert!(extract_endpoints(&text).is_empty());
    let text = format!("{}foo 1234 u IPv4 TCP 10.0.0.1:55->192.168.1.1:80 (ESTABLISHED)\n", HEADER);
    assert_eq!(extract_endpoints(&text), vec!["192.168.1.1".to_string()]);
}

#[test]
fn bracketed_ipv6_is_unbracketed_only_when_closed() {
    let text = format!("{}x 1 u IPv6 TCP [::1]:5->[2001:db8::1]:443 (ESTABLISHED)\n", HEADER);
    // The candidate stops at the first ':' and is "[2001", which has no '.' or ':'.
    assert!(extract_endpoints(&text).is_empty());
    let text = format!("{}x 1 u IPv6 TCP a->[10.1.2.3] b\n", HEADER);
    assert_eq!(extract_endpoints(&text), vec!["10.1.2.3".to_string()]);
}

#[test]
fn line_without_arrow_contributes_nothing() {
    let text = format!("{}foo 1234 u IPv4 TCP *:8080 (LISTEN)\nbar 1 u IPv4 TCP 1.2.3.4:1->5.6.7.8:9\n", HEADER);
    assert_eq!(extract_endpoints(&text), vec!["5.6.7.8".to_string()]);
}

#[test]
fn header_arrow_is_ignored() {
    let text = "h->9.9.9.9:1\nx 1.1.1.1:2->8.8.8.8:53\n";
    assert_eq!(extract_endpoints(text), vec!["8.8.8.8".to_string()]);
}

#[test]
fn only_first_arrow_of_a_line_counts() {
    let text = format!("{}a->host b->1.2.3.4\nc->5.5.5.5 ->6.6.6.6\n", HEADER);
    assert_eq!(extract_endpoints(&text), vec!["5.5.5.5".to_string()]);
}

#[test]
fn duplicates_collapse_in_first_seen_order() {
    let text = format!("{}a->2.2.2.2:1\nb->1.1.1.1:1\r\nc->2.2.2.2:7\n", HEADER);
    assert_eq!(extract_endpoints(&text), vec!["2.2.2.2".to_string(), "1.1.1.1".to_string()]);
}

#[test]
fn every_endpoint_has_a_dot_or_colon() {
    let text = format!("{}a->\nb->localhost:1\nc->[]\nd->[.]\ne->1.2\n", HEADER);
    let found = extract_endpoints(&text);
    assert_eq!(found, vec![".".to_string(), "1.2".to_string()]);
    for e in &found {
        assert!(!e.is_empty() && (e.contains('.') || e.contains(':')));
    }
}
