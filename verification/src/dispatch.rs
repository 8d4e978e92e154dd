use vstd::prelude::*;

use crate::resolve::Resolution;
use crate::urlparse::Target;

verus! {

/// Exactly one GET request, fully decided before anything touches the
/// network: the connection goes to the resolved address while the
/// `Host` header carries the logical hostname, redirects are never
/// followed, and the tool identifies itself.
#[derive(Debug)]
pub struct RequestPlan {
    /// Scheme of the original URL, untouched by resolution.
    pub scheme: String,
    /// The address the connection is opened to: the resolved IP.
    pub connect_host: String,
    /// Explicit port of the original URL, when it had one.
    pub port: Option<u16>,
    /// Path of the original URL, untouched by resolution.
    pub path: String,
    /// Query of the original URL, untouched by resolution.
    pub query: Option<String>,
    /// The logical hostname, sent as the `Host` header (no port) so the
    /// request lands on the right virtual host.
    pub host_header: String,
    /// The identifying user agent.
    pub user_agent: String,
    /// Always false: a redirect is reported, never chased.
    pub follow_redirects: bool,
}

/// Builds the one request of the run from the parsed target and the
/// resolved address.  The connection target becomes the resolved IP
/// while scheme, port, path and query pass through unchanged, and the
/// original hostname — never the IP — goes into the `Host` header.
pub fn build_request(t: Target, r: Resolution) -> (plan: RequestPlan)
    ensures
        plan.scheme@ == t.scheme@,
        plan.connect_host@ == r.ip@,
        plan.port == t.port,
        plan.path@ == t.path@,
        match (plan.query, t.query) {
            (Some(a), Some(b)) => a@ == b@,
            (None, None) => true,
            _ => false,
        },
        plan.host_header@ == t.host@,
        plan.user_agent@ == "hit/0.0.1"@,
        plan.follow_redirects == false,
{
    RequestPlan {
        scheme: t.scheme,
        connect_host: r.ip,
        port: t.port,
        path: t.path,
        query: t.query,
        host_header: t.host,
        user_agent: String::from_str("hit/0.0.1"),
        follow_redirects: false,
    }
}

} // verus!
