use hit::paint::{paint, ColorClass};
use hit::render::{
    dec_str, header_class, render_header_lines, render_status_line, status_class, status_text,
    version_class, version_text, Header, HttpVersion,
};
use hit::resolve::Source;

const GREEN: &str = "\u{1b}[32m";
const YELLOW: &str = "\u{1b}[33m";
const RED: &str = "\u{1b}[31m";
const CYAN: &str = "\u{1b}[36m";
const RESET: &str = "\u{1b}[0m";

fn header(name: &str, value: &str) -> Header {
    Header { name: name.to_string(), value: value.to_string() }
}

#[test]
fn paint_wraps_in_escape_codes() {
    assert_eq!(paint(ColorClass::Success, "ok"), format!("{GREEN}ok{RESET}"));
    assert_eq!(paint(ColorClass::Warning, "hm"), format!("{YELLOW}hm{RESET}"));
    assert_eq!(paint(ColorClass::Alert, "no"), format!("{RED}no{RESET}"));
    assert_eq!(paint(ColorClass::Accent, "ip"), format!("{CYAN}ip{RESET}"));
    assert_eq!(paint(ColorClass::Neutral, "as-is"), "as-is");
}

#[test]
fn paint_matches_the_terminal_library() {
    assert_eq!(paint(ColorClass::Success, "ok"), ansi_term::Colour::Green.paint("ok").to_string());
    assert_eq!(paint(ColorClass::Warning, "hm"), ansi_term::Colour::Yellow.paint("hm").to_string());
    assert_eq!(paint(ColorClass::Alert, "no"), ansi_term::Colour::Red.paint("no").to_string());
    assert_eq!(paint(ColorClass::Accent, "ip"), ansi_term::Colour::Cyan.paint("ip").to_string());
}

#[test]
fn status_class_follows_hundreds_digit() {
    assert_eq!(status_class(200), ColorClass::Success);
    assert_eq!(status_class(204), ColorClass::Success);
    assert_eq!(status_class(299), ColorClass::Success);
    assert_eq!(status_class(301), ColorClass::Warning);
    assert_eq!(status_class(304), ColorClass::Warning);
    assert_eq!(status_class(404), ColorClass::Alert);
    assert_eq!(status_class(500), ColorClass::Alert);
    assert_eq!(status_class(503), ColorClass::Alert);
    assert_eq!(status_class(100), ColorClass::Neutral);
    assert_eq!(status_class(199), ColorClass::Neutral);
    assert_eq!(status_class(600), ColorClass::Neutral);
    assert_eq!(status_class(0), ColorClass::Neutral);
}

#[test]
fn version_classes_and_texts() {
    assert_eq!(version_class(HttpVersion::V09), ColorClass::Warning);
    assert_eq!(version_class(HttpVersion::V10), ColorClass::Warning);
    assert_eq!(version_class(HttpVersion::V11), ColorClass::Success);
    assert_eq!(version_class(HttpVersion::V20), ColorClass::Accent);
    assert_eq!(version_text(HttpVersion::V09), "HTTP/0.9");
    assert_eq!(version_text(HttpVersion::V10), "HTTP/1.0");
    assert_eq!(version_text(HttpVersion::V11), "HTTP/1.1");
    assert_eq!(version_text(HttpVersion::V20), "HTTP/2.0");
}

#[test]
fn header_name_classes() {
    assert_eq!(header_class("Location"), ColorClass::Warning);
    assert_eq!(header_class("Server"), ColorClass::Accent);
    assert_eq!(header_class("Via"), ColorClass::Accent);
    assert_eq!(header_class("X-Powered-By"), ColorClass::Accent);
    assert_eq!(header_class("CF-RAY"), ColorClass::Accent);
    assert_eq!(header_class("Content-Type"), ColorClass::Neutral);
    assert_eq!(header_class("location"), ColorClass::Neutral);
}

#[test]
fn decimal_rendering() {
    assert_eq!(dec_str(0), "0");
    assert_eq!(dec_str(7), "7");
    assert_eq!(dec_str(200), "200");
    assert_eq!(dec_str(404), "404");
    assert_eq!(dec_str(65535), "65535");
}

#[test]
fn status_text_with_and_without_reason() {
    assert_eq!(status_text(200, "OK"), "200 OK");
    assert_eq!(status_text(599, ""), "599");
}

#[test]
fn status_line_from_network() {
    let line = render_status_line(HttpVersion::V11, 200, "OK", "93.184.216.34", Source::NetworkDns);
    assert_eq!(
        line,
        format!("{GREEN}HTTP/1.1{RESET} {GREEN}200 OK{RESET} @ {CYAN}93.184.216.34{RESET}")
    );
}

#[test]
fn status_line_marks_hosts_override() {
    let line = render_status_line(HttpVersion::V11, 301, "Moved Permanently", "10.0.0.5", Source::HostsOverride);
    assert_eq!(
        line,
        format!(
            "{GREEN}HTTP/1.1{RESET} {YELLOW}301 Moved Permanently{RESET} @ {CYAN}10.0.0.5{RESET}{RED} [/etc/hosts]{RESET}"
        )
    );
}

#[test]
fn header_lines_are_sorted_by_name() {
    let lines = render_header_lines(vec![
        header("Server", "nginx"),
        header("Content-Type", "text/html"),
        header("Location", "https://example.org/"),
    ]);
    assert_eq!(lines.len(), 3);
    assert_eq!(lines[0], format!("\u{25cf} Content-Type: text/html"));
    assert_eq!(lines[1], format!("\u{25cf} {YELLOW}Location: https://example.org/{RESET}"));
    assert_eq!(lines[2], format!("\u{25cf} {CYAN}Server: nginx{RESET}"));
}

#[test]
fn header_rendering_ignores_wire_order() {
    let a = render_header_lines(vec![
        header("Via", "1.1 proxy"),
        header("Age", "0"),
        header("Set-Cookie", "b=2"),
        header("Set-Cookie", "a=1"),
    ]);
    let b = render_header_lines(vec![
        header("Set-Cookie", "a=1"),
        header("Age", "0"),
        header("Via", "1.1 proxy"),
        header("Set-Cookie", "b=2"),
    ]);
    assert_eq!(a, b);
}

#[test]
fn duplicate_names_are_ordered_by_value() {
    let lines = render_header_lines(vec![
        header("Set-Cookie", "b=2"),
        header("Set-Cookie", "a=1"),
    ]);
    assert_eq!(lines[0], "\u{25cf} Set-Cookie: a=1");
    assert_eq!(lines[1], "\u{25cf} Set-Cookie: b=2");
}
