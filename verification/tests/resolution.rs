use hit::hosts::hosts_lookup;
use hit::ipv4::is_ipv4addr;
use hit::resolve::{resolve_from_answers, resolve_local, ResolveError, Source};

fn lines(v: &[&str]) -> Vec<String> {
    v.iter().map(|s| s.to_string()).collect()
}

#[test]
fn hosts_lookup_finds_simple_entry() {
    let t = lines(&["10.0.0.5 example.com"]);
    assert_eq!(hosts_lookup(&t, "example.com"), Some("10.0.0.5".to_string()));
}

#[test]
fn hosts_lookup_skips_comments() {
    let t = lines(&["# 1.1.1.1 example.com", "10.0.0.5 example.com"]);
    assert_eq!(hosts_lookup(&t, "example.com"), Some("10.0.0.5".to_string()));
}

#[test]
fn hosts_lookup_skips_short_lines() {
    let t = lines(&["example.com", "", "   ", "10.0.0.5 example.com"]);
    assert_eq!(hosts_lookup(&t, "example.com"), Some("10.0.0.5".to_string()));
}

#[test]
fn hosts_lookup_first_match_wins() {
    let t = lines(&["10.0.0.5 example.com", "10.0.0.6 example.com"]);
    assert_eq!(hosts_lookup(&t, "example.com"), Some("10.0.0.5".to_string()));
}

#[test]
fn hosts_lookup_matches_later_alias() {
    let t = lines(&["127.0.0.1 localhost example.com www.example.com"]);
    assert_eq!(hosts_lookup(&t, "www.example.com"), Some("127.0.0.1".to_string()));
}

#[test]
fn hosts_lookup_is_case_sensitive() {
    let t = lines(&["10.0.0.5 example.com"]);
    assert_eq!(hosts_lookup(&t, "EXAMPLE.COM"), None);
}

#[test]
fn hosts_lookup_handles_tabs() {
    let t = lines(&["10.0.0.5\texample.com"]);
    assert_eq!(hosts_lookup(&t, "example.com"), Some("10.0.0.5".to_string()));
}

#[test]
fn hosts_lookup_misses_when_absent() {
    let t = lines(&["10.0.0.5 example.com"]);
    assert_eq!(hosts_lookup(&t, "example.org"), None);
}

#[test]
fn hosts_lookup_does_not_match_ip_column() {
    let t = lines(&["10.0.0.5 example.com"]);
    assert_eq!(hosts_lookup(&t, "10.0.0.5"), None);
}

#[test]
fn resolve_local_hit_has_hosts_provenance() {
    let t = lines(&["10.0.0.5 example.com"]);
    let r = resolve_local(&t, "example.com").unwrap();
    assert_eq!(r.ip, "10.0.0.5");
    assert_eq!(r.source, Source::HostsOverride);
}

#[test]
fn resolve_local_miss_falls_through() {
    let t = lines(&["10.0.0.5 example.com"]);
    assert!(resolve_local(&t, "example.org").is_none());
}

#[test]
fn dns_choice_takes_lexicographically_smallest() {
    let answers = lines(&["93.184.216.35", "93.184.216.34"]);
    let r = resolve_from_answers("example.org", &answers).unwrap();
    assert_eq!(r.ip, "93.184.216.34");
    assert_eq!(r.source, Source::NetworkDns);
}

#[test]
fn dns_choice_ignores_answer_order() {
    let a = lines(&["9.9.9.9", "1.1.1.1", "8.8.8.8"]);
    let b = lines(&["8.8.8.8", "9.9.9.9", "1.1.1.1"]);
    let ra = resolve_from_answers("example.org", &a).unwrap();
    let rb = resolve_from_answers("example.org", &b).unwrap();
    assert_eq!(ra.ip, rb.ip);
    assert_eq!(ra.ip, "1.1.1.1");
}

#[test]
fn dns_choice_is_string_order_not_numeric() {
    // "10.0.0.2" sorts before "9.0.0.1" as a string, though not as a number.
    let answers = lines(&["9.0.0.1", "10.0.0.2"]);
    let r = resolve_from_answers("example.org", &answers).unwrap();
    assert_eq!(r.ip, "10.0.0.2");
}

#[test]
fn dns_choice_unaffected_by_repeats() {
    let answers = lines(&["2.2.2.2", "1.1.1.1", "1.1.1.1", "2.2.2.2"]);
    let r = resolve_from_answers("example.org", &answers).unwrap();
    assert_eq!(r.ip, "1.1.1.1");
}

#[test]
fn dns_failure_when_only_ipv6() {
    let answers = lines(&["2606:2800:220:1:248:1893:25c8:1946", "::1"]);
    let r = resolve_from_answers("example.org", &answers);
    match r {
        Err(ResolveError::NotFound(h)) => assert_eq!(h, "example.org"),
        _ => panic!("expected NotFound"),
    }
}

#[test]
fn dns_failure_when_no_answers() {
    let answers: Vec<String> = Vec::new();
    let r = resolve_from_answers("example.org", &answers);
    assert!(r.is_err());
}

#[test]
fn dns_keeps_only_ipv4_shaped_answers() {
    let answers = lines(&["::1", "7.7.7.7", "not-an-address"]);
    let r = resolve_from_answers("example.org", &answers).unwrap();
    assert_eq!(r.ip, "7.7.7.7");
}

#[test]
fn not_found_message_names_the_host() {
    let e = ResolveError::NotFound("example.org".to_string());
    assert_eq!(e.message(), "could not resolve host: example.org");
}

#[test]
fn lookup_failure_message_is_verbatim() {
    let e = ResolveError::LookupFailure("network unreachable".to_string());
    assert_eq!(e.message(), "network unreachable");
}

#[test]
fn ipv4_literal_accepts_dotted_quads() {
    assert!(is_ipv4addr("0.0.0.0"));
    assert!(is_ipv4addr("1.2.3.4"));
    assert!(is_ipv4addr("255.255.255.255"));
    assert!(is_ipv4addr("93.184.216.34"));
}

#[test]
fn ipv4_literal_rejects_bad_shapes() {
    assert!(!is_ipv4addr(""));
    assert!(!is_ipv4addr("1.2.3"));
    assert!(!is_ipv4addr("1.2.3.4.5"));
    assert!(!is_ipv4addr("256.1.1.1"));
    assert!(!is_ipv4addr("01.2.3.4"));
    assert!(!is_ipv4addr("1.2.3."));
    assert!(!is_ipv4addr(".1.2.3"));
    assert!(!is_ipv4addr("a.b.c.d"));
    assert!(!is_ipv4addr("1.2.3.4 "));
    assert!(!is_ipv4addr("::1"));
    assert!(!is_ipv4addr("2606:2800:220:1:248:1893:25c8:1946"));
}

#[test]
fn ipv4_literal_allows_single_zero_octets() {
    assert!(is_ipv4addr("0.1.0.1"));
    assert!(!is_ipv4addr("00.1.0.1"));
    assert!(!is_ipv4addr("0.1.0.010"));
}
