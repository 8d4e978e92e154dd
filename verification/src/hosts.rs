use vstd::prelude::*;

use crate::text::{str_eq, tokens, tokens_of, views_of};

verus! {

/// Whether one override-table line maps `host` to an address: the line
/// has at least two whitespace-separated tokens, its first token does
/// not start with `#`, and one of the remaining tokens is exactly
/// (case-sensitively) the queried hostname.
pub open spec fn line_gives(line: Seq<char>, host: Seq<char>) -> bool {
    let ts = tokens_of(line);
    &&& ts.len() >= 2
    &&& !(ts[0].len() > 0 && ts[0][0] == '#')
    &&& exists|j: int| 1 <= j < ts.len() && ts[j] == host
}

/// The address the override table yields for `host`: the first token of
/// the first matching line, scanning top to bottom, or nothing.
pub open spec fn hosts_lookup_spec(lines: Seq<Seq<char>>, host: Seq<char>) -> Option<Seq<char>>
    decreases lines.len(),
{
    if lines.len() == 0 {
        None
    } else if line_gives(lines[0], host) {
        Some(tokens_of(lines[0])[0])
    } else {
        hosts_lookup_spec(lines.drop_first(), host)
    }
}

fn starts_with_hash(t: &str) -> (r: bool)
    ensures
        r == (t@.len() > 0 && t@[0] == '#'),
{
    if t.unicode_len() == 0 {
        false
    } else {
        t.get_char(0) == '#'
    }
}

/// Scans the override-table lines for `host` and returns the first
/// token of the first matching line.  Comment lines (first token starts
/// with `#`) and lines with fewer than two tokens are skipped; matching
/// is exact and case-sensitive.
pub fn hosts_lookup(lines: &Vec<String>, host: &str) -> (r: Option<String>)
    ensures
        match r {
            Some(ip) => hosts_lookup_spec(views_of(lines@), host@) == Some(ip@),
            None => hosts_lookup_spec(views_of(lines@), host@) is None,
        },
{
    let ghost all = views_of(lines@);
    let n: usize = lines.len();
    let mut li: usize = 0;
    proof {
        assert(all.skip(0) =~= all);
    }
    while li < n
        invariant
            li <= n,
            n == lines@.len(),
            all == views_of(lines@),
            hosts_lookup_spec(all, host@) == hosts_lookup_spec(all.skip(li as int), host@),
        decreases n - li,
    {
        let line: &String = &lines[li];
        let mut toks: Vec<String> = tokens(line.as_str());
        let ghost ts = tokens_of(line@);
        proof {
            assert(all.skip(li as int)[0] == all[li as int]);
            assert(all[li as int] == lines@[li as int]@);
            assert(all.skip(li as int).drop_first() =~= all.skip(li as int + 1));
        }
        if toks.len() >= 2 && !starts_with_hash(toks[0].as_str()) {
            proof {
                assert(views_of(toks@)[0] == ts[0]);
            }
            let mut j: usize = 1;
            let mut found: bool = false;
            while j < toks.len() && !found
                invariant
                    1 <= j <= toks.len(),
                    views_of(toks@) == ts,
                    ts.len() >= 2,
                    found ==> exists|k: int| 1 <= k < ts.len() && ts[k] == host@,
                    !found ==> forall|k: int| 1 <= k < j ==> ts[k] != host@,
                decreases toks.len() - j + (if found { 0int } else { 1int }),
            {
                if str_eq(toks[j].as_str(), host) {
                    proof {
                        assert(views_of(toks@)[j as int] == ts[j as int]);
                    }
                    found = true;
                } else {
                    proof {
                        assert(views_of(toks@)[j as int] == ts[j as int]);
                    }
                    j = j + 1;
                }
            }
            if found {
                proof {
                    assert(line_gives(lines@[li as int]@, host@));
                }
                let ip: String = toks.remove(0);
                proof {
                    assert(ip@ == ts[0]);
                }
                return Some(ip);
            }
            proof {
                assert(forall|k: int| 1 <= k < ts.len() ==> ts[k] != host@);
                assert(!line_gives(lines@[li as int]@, host@));
            }
        } else {
            proof {
                if views_of(toks@).len() >= 2 {
                    assert(views_of(toks@)[0] == ts[0]);
                    assert(ts[0].len() > 0 && ts[0][0] == '#');
                }
                assert(!line_gives(lines@[li as int]@, host@));
            }
        }
        li = li + 1;
    }
    proof {
        assert(all.skip(n as int).len() == 0);
    }
    None
}

/// If some line of the table maps the queried hostname, the lookup
/// succeeds, and what it returns is the first token of the earliest
/// such line — later lines and any outside answer are never consulted.
pub proof fn lemma_hosts_override_wins(lines: Seq<Seq<char>>, host: Seq<char>)
    requires
        exists|i: int| 0 <= i < lines.len() && line_gives(lines[i], host),
    ensures
        hosts_lookup_spec(lines, host) is Some,
        exists|i: int|
            0 <= i < lines.len() && line_gives(lines[i], host) && hosts_lookup_spec(lines, host)
                == Some(tokens_of(lines[i])[0]) && (forall|k: int|
                0 <= k < i ==> !line_gives(lines[k], host)),
    decreases lines.len(),
{
    if line_gives(lines[0], host) {
        assert(0 <= 0 < lines.len() && line_gives(lines[0], host) && hosts_lookup_spec(lines, host)
            == Some(tokens_of(lines[0])[0]) && (forall|k: int|
            0 <= k < 0 ==> !line_gives(lines[k], host)));
    } else {
        let w = choose|i: int| 0 <= i < lines.len() && line_gives(lines[i], host);
        assert(lines.drop_first()[w - 1] == lines[w]);
        lemma_hosts_override_wins(lines.drop_first(), host);
        let v = choose|i: int|
            0 <= i < lines.drop_first().len() && line_gives(lines.drop_first()[i], host)
                && hosts_lookup_spec(lines.drop_first(), host) == Some(
                tokens_of(lines.drop_first()[i])[0],
            ) && (forall|k: int| 0 <= k < i ==> !line_gives(lines.drop_first()[k], host));
        assert(lines.drop_first()[v] == lines[v + 1]);
        assert forall|k: int| 0 <= k < v + 1 implies !line_gives(lines[k], host) by {
            if k > 0 {
                assert(lines.drop_first()[k - 1] == lines[k]);
            }
        }
        assert(0 <= v + 1 < lines.len() && line_gives(lines[v + 1], host) && hosts_lookup_spec(
            lines,
            host,
        ) == Some(tokens_of(lines[v + 1])[0]) && (forall|k: int|
            0 <= k < v + 1 ==> !line_gives(lines[k], host)));
    }
}

/// If no line of the table maps the queried hostname, the lookup yields
/// nothing, and resolution falls through to the network resolver.
pub proof fn lemma_hosts_fallthrough(lines: Seq<Seq<char>>, host: Seq<char>)
    requires
        forall|i: int| 0 <= i < lines.len() ==> !line_gives(lines[i], host),
    ensures
        hosts_lookup_spec(lines, host) is None,
    decreases lines.len(),
{
    if lines.len() > 0 {
        assert(forall|i: int|
            0 <= i < lines.drop_first().len() ==> lines.drop_first()[i] == lines[i + 1]);
        lemma_hosts_fallthrough(lines.drop_first(), host);
    }
}

} // verus!
