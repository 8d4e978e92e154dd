use hit::dispatch::build_request;
use hit::resolve::{resolve_local, Source};
use hit::text::tokens;
use hit::urlparse::{normalize_input, parse_target};
use hit::{needs_usage, usage_message};

#[test]
fn bare_hostname_gains_plain_scheme() {
    assert_eq!(normalize_input("EXAMPLE.ORG"), "http://EXAMPLE.ORG");
    assert_eq!(normalize_input("example.com/path"), "http://example.com/path");
}

#[test]
fn explicit_schemes_stay_untouched() {
    assert_eq!(normalize_input("http://example.com"), "http://example.com");
    assert_eq!(normalize_input("https://example.com/x?q=1"), "https://example.com/x?q=1");
}

#[test]
fn parse_target_extracts_the_pieces() {
    let t = parse_target("example.com/path").unwrap();
    assert_eq!(t.scheme, "http");
    assert_eq!(t.host, "example.com");
    assert_eq!(t.port, None);
    assert_eq!(t.path, "/path");
    assert_eq!(t.query, None);
}

#[test]
fn parse_target_keeps_port_and_query() {
    let t = parse_target("https://example.com:8443/a/b?q=1&r=2").unwrap();
    assert_eq!(t.scheme, "https");
    assert_eq!(t.host, "example.com");
    assert_eq!(t.port, Some(8443));
    assert_eq!(t.path, "/a/b");
    assert_eq!(t.query, Some("q=1&r=2".to_string()));
}

#[test]
fn parse_target_normalizes_before_parsing() {
    // The URL parser lowercases the registered domain name itself.
    let t = parse_target("EXAMPLE.ORG").unwrap();
    assert_eq!(t.host, "example.org");
    assert_eq!(t.scheme, "http");
    assert_eq!(t.path, "/");
}

#[test]
fn parse_target_reports_parse_errors() {
    let e = parse_target("http://exa mple.org/").unwrap_err();
    assert!(e.starts_with("Invalid input: "));
}

#[test]
fn parse_target_rejects_hostless_urls() {
    let e = parse_target("http://1.2.3.4/x").unwrap_err();
    assert_eq!(e, "Invalid input: the URL has no host name");
}

#[test]
fn override_drives_dispatch_target_but_not_host_header() {
    let table = vec!["10.0.0.5 example.com".to_string()];
    let t = parse_target("example.com/path").unwrap();
    let r = resolve_local(&table, t.host.as_str()).unwrap();
    assert_eq!(r.source, Source::HostsOverride);
    let plan = build_request(t, r);
    assert_eq!(plan.connect_host, "10.0.0.5");
    assert_eq!(plan.host_header, "example.com");
    assert_eq!(plan.scheme, "http");
    assert_eq!(plan.path, "/path");
    assert_eq!(plan.port, None);
    assert_eq!(plan.query, None);
    assert_eq!(plan.user_agent, "hit/0.0.1");
    assert!(!plan.follow_redirects);
}

#[test]
fn wrong_argument_count_means_usage() {
    assert!(needs_usage(1));
    assert!(needs_usage(3));
    assert!(needs_usage(0));
    assert!(!needs_usage(2));
}

#[test]
fn usage_line_names_the_program() {
    assert_eq!(usage_message("hit"), "usage: hit <URL>");
}

#[test]
fn tokens_split_on_whitespace_runs() {
    let t = tokens("  93.184.216.34\n93.184.216.35\t x ");
    assert_eq!(t, vec!["93.184.216.34", "93.184.216.35", "x"]);
    let none = tokens("   \t\n");
    assert!(none.is_empty());
}
