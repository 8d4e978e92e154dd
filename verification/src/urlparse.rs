use vstd::prelude::*;

use crate::text::has_prefix;

verus! {

/// Whether the whole input parses as an absolute URL.  Names the
/// outcome of url::Url::parse, which depends on the input alone.
pub uninterp spec fn url_parses(s: Seq<char>) -> bool;

/// The domain name of the parsed URL, or nothing when its host is not
/// a domain.  Names url::Url::domain applied to the parse result.
pub uninterp spec fn url_host_name(s: Seq<char>) -> Option<Seq<char>>;

/// The scheme of the parsed URL.  Names url::Url::scheme applied to
/// the parse result.
pub uninterp spec fn url_scheme_name(s: Seq<char>) -> Seq<char>;

/// The explicit port of the parsed URL, when one is spelled out and is
/// not the scheme's default.  Names url::Url::port.
pub uninterp spec fn url_port_number(s: Seq<char>) -> Option<u16>;

/// The path of the parsed URL.  Names url::Url::path.
pub uninterp spec fn url_path_text(s: Seq<char>) -> Seq<char>;

/// The query of the parsed URL, without the `?`.  Names url::Url::query.
pub uninterp spec fn url_query_text(s: Seq<char>) -> Option<Seq<char>>;

/// The parse diagnostic for an input that does not parse.  Names the
/// display text of url::ParseError, which depends on the input alone.
pub uninterp spec fn url_error_text(s: Seq<char>) -> Seq<char>;

/// Relies on url::Url::parse and url::ParseError's display text: the
/// diagnostic for an input that does not parse.
#[verifier::external_body]
fn parse_error(s: &str) -> (r: Option<String>)
    ensures
        match r {
            Some(t) => !url_parses(s@) && t@ == url_error_text(s@),
            None => url_parses(s@),
        },
{
    url::Url::parse(s).err().map(|e| e.to_string())
}

/// Relies on url::Url::parse and url::Url::domain: the domain name of
/// the parsed URL, when the input parses and its host is a domain.
#[verifier::external_body]
fn parse_host(s: &str) -> (r: Option<String>)
    ensures
        match r {
            Some(h) => url_parses(s@) && url_host_name(s@) == Some(h@),
            None => !url_parses(s@) || url_host_name(s@) is None,
        },
{
    url::Url::parse(s).ok().and_then(|u| u.domain().map(|d| d.to_string()))
}

/// Relies on url::Url::parse and url::Url::scheme: the scheme of the
/// parsed URL.
#[verifier::external_body]
fn parse_scheme(s: &str) -> (r: Option<String>)
    ensures
        match r {
            Some(sc) => url_parses(s@) && sc@ == url_scheme_name(s@),
            None => !url_parses(s@),
        },
{
    url::Url::parse(s).ok().map(|u| u.scheme().to_string())
}

/// Relies on url::Url::parse and url::Url::port: the explicit port of
/// the parsed URL, when one is spelled out.
#[verifier::external_body]
fn parse_port(s: &str) -> (r: Option<Option<u16>>)
    ensures
        match r {
            Some(p) => url_parses(s@) && p == url_port_number(s@),
            None => !url_parses(s@),
        },
{
    url::Url::parse(s).ok().map(|u| u.port())
}

/// Relies on url::Url::parse and url::Url::path: the path of the
/// parsed URL.
#[verifier::external_body]
fn parse_path(s: &str) -> (r: Option<String>)
    ensures
        match r {
            Some(p) => url_parses(s@) && p@ == url_path_text(s@),
            None => !url_parses(s@),
        },
{
    url::Url::parse(s).ok().map(|u| u.path().to_string())
}

/// Relies on url::Url::parse and url::Url::query: the query of the
/// parsed URL, when it has one.
#[verifier::external_body]
fn parse_query(s: &str) -> (r: Option<Option<String>>)
    ensures
        match r {
            Some(q) => url_parses(s@) && (match q {
                Some(t) => url_query_text(s@) == Some(t@),
                None => url_query_text(s@) is None,
            }),
            None => !url_parses(s@),
        },
{
    url::Url::parse(s).ok().map(|u| u.query().map(|q| q.to_string()))
}

/// The input after scheme normalization: input that already names the
/// plain or the secure scheme stays as it is, anything else gets the
/// plain scheme put in front, so a bare hostname becomes a URL.
pub open spec fn normalized_input(s: Seq<char>) -> Seq<char> {
    if "http://"@.is_prefix_of(s) || "https://"@.is_prefix_of(s) {
        s
    } else {
        "http://"@ + s
    }
}

/// Normalizes the raw argument before any parsing: exactly the
/// scheme-prefix rule of `normalized_input`, with the text kept
/// otherwise untouched.
pub fn normalize_input(raw: &str) -> (r: String)
    ensures
        r@ == normalized_input(raw@),
{
    if has_prefix(raw, "http://") || has_prefix(raw, "https://") {
        String::from_str(raw)
    } else {
        String::from_str("http://").concat(raw)
    }
}

/// The parsed target of the run: the pieces of the normalized URL the
/// rest of the pipeline needs, as plain values.  `host` is the logical
/// hostname: resolution and the Host header both start from it.
#[derive(Debug)]
pub struct Target {
    pub scheme: String,
    pub host: String,
    pub port: Option<u16>,
    pub path: String,
    pub query: Option<String>,
}

/// Normalizes the raw argument, parses it as a URL, and takes the
/// pieces apart.  Fails exactly when the normalized input does not
/// parse, or parses to a URL whose host is not a domain name; the
/// error is the single line the program reports.
pub fn parse_target(raw: &str) -> (r: Result<Target, String>)
    ensures
        ({
            let norm = normalized_input(raw@);
            match r {
                Ok(t) => {
                    &&& url_parses(norm)
                    &&& url_host_name(norm) == Some(t.host@)
                    &&& t.scheme@ == url_scheme_name(norm)
                    &&& t.port == url_port_number(norm)
                    &&& t.path@ == url_path_text(norm)
                    &&& match t.query {
                        Some(q) => url_query_text(norm) == Some(q@),
                        None => url_query_text(norm) is None,
                    }
                },
                Err(m) => {
                    &&& !(url_parses(norm) && url_host_name(norm) is Some)
                    &&& if url_parses(norm) {
                        m@ == "Invalid input: the URL has no host name"@
                    } else {
                        m@ == "Invalid input: "@ + url_error_text(norm)
                    }
                },
            }
        }),
{
    let norm = normalize_input(raw);
    match parse_host(norm.as_str()) {
        Some(host) => {
            let scheme = match parse_scheme(norm.as_str()) {
                Some(sc) => sc,
                None => {
                    proof {
                        assert(false);
                    }
                    unreached()
                },
            };
            let port = match parse_port(norm.as_str()) {
                Some(p) => p,
                None => {
                    proof {
                        assert(false);
                    }
                    unreached()
                },
            };
            let path = match parse_path(norm.as_str()) {
                Some(p) => p,
                None => {
                    proof {
                        assert(false);
                    }
                    unreached()
                },
            };
            let query = match parse_query(norm.as_str()) {
                Some(q) => q,
                None => {
                    proof {
                        assert(false);
                    }
                    unreached()
                },
            };
            Ok(Target { scheme, host, port, path, query })
        },
        None => {
            match parse_error(norm.as_str()) {
                Some(e) => Err(String::from_str("Invalid input: ").concat(e.as_str())),
                None => Err(String::from_str("Invalid input: the URL has no host name")),
            }
        },
    }
}

} // verus!
