//! An HTTP inspection library: resolves a hostname to one IPv4
//! address (a local override table first, then the network answers,
//! smallest string winning), plans a single non-redirecting GET that
//! targets the resolved address while the Host header keeps the
//! logical hostname, and renders version, status and sorted headers
//! with semantic coloring.

pub mod dispatch;
pub mod hosts;
pub mod ipv4;
pub mod paint;
pub mod render;
pub mod resolve;
pub mod text;
pub mod urlparse;

use vstd::prelude::*;

verus! {

/// The program serves exactly one positional argument (two entries on
/// the argument vector, the program name included); any other count
/// calls for the usage message, and nothing — no resolution, no
/// network activity — happens instead.
pub fn needs_usage(arg_count: usize) -> (r: bool)
    ensures
        r <==> arg_count != 2,
{
    arg_count != 2
}

/// The usage line printed when the argument count is wrong.
pub fn usage_message(prog: &str) -> (r: String)
    ensures
        r@ == "usage: "@ + prog@ + " <URL>"@,
{
    let mut m = String::from_str("usage: ");
    m.append(prog);
    m.append(" <URL>");
    proof {
        assert(m@ =~= "usage: "@ + prog@ + " <URL>"@);
    }
    m
}

} // verus!
