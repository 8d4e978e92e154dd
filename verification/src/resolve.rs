use vstd::prelude::*;

use crate::hosts::{hosts_lookup, hosts_lookup_spec};
use crate::ipv4::{is_ipv4_literal, is_ipv4addr};
use crate::text::{
    lemma_lex_le_antisym, lemma_lex_le_refl, lemma_lex_le_total, lemma_lex_le_trans, lex_le,
    str_le, views_of,
};

verus! {

/// Where a resolved address came from: the local override table, or
/// the network resolver.  The override table takes unconditional
/// precedence, and the provenance drives a visual marker in the output.
#[derive(Clone, Copy, PartialEq, Eq, Structural, Debug)]
pub enum Source {
    HostsOverride,
    NetworkDns,
}

/// A resolved address together with its provenance.
#[derive(Debug)]
pub struct Resolution {
    pub ip: String,
    pub source: Source,
}

/// Why resolution failed.  Every failure is terminal for the run.
#[derive(Debug)]
pub enum ResolveError {
    /// Neither the override table nor the network yielded a usable
    /// (IPv4-shaped) address for this hostname.
    NotFound(String),
    /// The network resolver itself failed; the text is reported verbatim.
    LookupFailure(String),
}

impl ResolveError {
    /// The single human-readable line reported for this failure.
    pub fn message(self) -> (r: String)
        ensures
            match self {
                ResolveError::NotFound(h) => r@ == "could not resolve host: "@ + h@,
                ResolveError::LookupFailure(t) => r@ == t@,
            },
    {
        match self {
            ResolveError::NotFound(h) => String::from_str("could not resolve host: ").concat(
                h.as_str(),
            ),
            ResolveError::LookupFailure(t) => t,
        }
    }
}

/// The answers from the network resolver that have IPv4 shape; the
/// rest are discarded, in order.
pub open spec fn ipv4_answers(answers: Seq<Seq<char>>) -> Seq<Seq<char>> {
    answers.filter(|a: Seq<char>| is_ipv4_literal(a))
}

/// Step one of resolution: consult the local override table.  A hit is
/// final and carries the `HostsOverride` provenance; a miss means the
/// caller must ask the network resolver and hand the answers to
/// `resolve_from_answers`.
pub fn resolve_local(lines: &Vec<String>, hostname: &str) -> (r: Option<Resolution>)
    ensures
        match r {
            Some(res) => hosts_lookup_spec(views_of(lines@), hostname@) == Some(res.ip@)
                && res.source is HostsOverride,
            None => hosts_lookup_spec(views_of(lines@), hostname@) is None,
        },
{
    match hosts_lookup(lines, hostname) {
        Some(ip) => Some(Resolution { ip, source: Source::HostsOverride }),
        None => None,
    }
}

/// Step two of resolution: pick one address out of the network
/// answers.  Keeps only IPv4-shaped answers and returns the
/// lexicographically smallest of them — so the choice does not depend
/// on the order the resolver delivered them in.  With no usable
/// answer the hostname cannot be resolved.
pub fn resolve_from_answers(hostname: &str, answers: &Vec<String>) -> (r: Result<
    Resolution,
    ResolveError,
>)
    ensures
        match r {
            Ok(res) => {
                let usable = ipv4_answers(views_of(answers@));
                &&& res.source is NetworkDns
                &&& usable.contains(res.ip@)
                &&& forall|k: int| 0 <= k < usable.len() ==> lex_le(res.ip@, usable[k])
            },
            Err(e) => {
                &&& ipv4_answers(views_of(answers@)).len() == 0
                &&& e matches ResolveError::NotFound(h) && h@ == hostname@
            },
        },
{
    let ghost adv = views_of(answers@);
    let n: usize = answers.len();
    let mut best: Option<String> = None;
    let mut i: usize = 0;
    proof {
        assert(adv.subrange(0, 0) =~= Seq::<Seq<char>>::empty());
        reveal(Seq::filter);
    }
    while i < n
        invariant
            i <= n,
            n == answers@.len(),
            adv == views_of(answers@),
            match best {
                Some(b) => {
                    let pu = ipv4_answers(adv.subrange(0, i as int));
                    &&& pu.contains(b@)
                    &&& forall|k: int| 0 <= k < pu.len() ==> lex_le(b@, pu[k])
                },
                None => ipv4_answers(adv.subrange(0, i as int)).len() == 0,
            },
        decreases n - i,
    {
        let ghost pre = adv.subrange(0, i as int);
        let ghost pre1 = adv.subrange(0, i as int + 1);
        proof {
            reveal(Seq::filter);
            assert(pre1.drop_last() =~= pre);
            assert(pre1.last() == adv[i as int]);
            assert(adv[i as int] == answers@[i as int]@);
        }
        let a: &String = &answers[i];
        if is_ipv4addr(a.as_str()) {
            proof {
                assert(ipv4_answers(pre1) == ipv4_answers(pre).push(a@));
            }
            best = match best {
                None => {
                    proof {
                        lemma_lex_le_refl(a@);
                    }
                    Some(a.clone())
                },
                Some(b) => {
                    let ghost pu = ipv4_answers(pre);
                    let ghost pu1 = ipv4_answers(pre1);
                    if str_le(a.as_str(), b.as_str()) {
                        proof {
                            assert forall|k: int| 0 <= k < pu1.len() implies lex_le(
                                a@,
                                pu1[k],
                            ) by {
                                if k < pu.len() {
                                    assert(pu1[k] == pu[k]);
                                    lemma_lex_le_trans(a@, b@, pu[k]);
                                } else {
                                    lemma_lex_le_refl(a@);
                                }
                            }
                            assert(pu1[pu.len() as int] == a@);
                        }
                        Some(a.clone())
                    } else {
                        proof {
                            lemma_lex_le_total(a@, b@);
                            let bi = choose|bi: int| 0 <= bi < pu.len() && pu[bi] == b@;
                            assert(pu1[bi] == b@);
                            assert forall|k: int| 0 <= k < pu1.len() implies lex_le(
                                b@,
                                pu1[k],
                            ) by {
                                if k < pu.len() {
                                    assert(pu1[k] == pu[k]);
                                }
                            }
                        }
                        Some(b)
                    }
                },
            };
        } else {
            proof {
                assert(ipv4_answers(pre1) == ipv4_answers(pre));
            }
        }
        i = i + 1;
    }
    proof {
        assert(adv.subrange(0, n as int) =~= adv);
    }
    match best {
        Some(b) => Ok(Resolution { ip: b, source: Source::NetworkDns }),
        None => Err(ResolveError::NotFound(String::from_str(hostname))),
    }
}

/// The network choice is independent of answer order and of repeats:
/// any two answer sets with the same contents (as multisets) admit the
/// same chosen address — the conditions below are exactly what
/// `resolve_from_answers` ensures of its result.
pub proof fn lemma_choice_order_independent(
    a1: Seq<Seq<char>>,
    a2: Seq<Seq<char>>,
    m1: Seq<char>,
    m2: Seq<char>,
)
    requires
        a1.to_multiset() == a2.to_multiset(),
        ipv4_answers(a1).contains(m1),
        forall|k: int| 0 <= k < ipv4_answers(a1).len() ==> lex_le(m1, ipv4_answers(a1)[k]),
        ipv4_answers(a2).contains(m2),
        forall|k: int| 0 <= k < ipv4_answers(a2).len() ==> lex_le(m2, ipv4_answers(a2)[k]),
    ensures
        m1 == m2,
{
    broadcast use vstd::seq_lib::group_to_multiset_ensures;

    lemma_min_crosses(a1, a2, m1, m2);
    lemma_min_crosses(a2, a1, m2, m1);
    lemma_lex_le_antisym(m1, m2);
}

/// The smallest usable answer of one answer set is bounded by the
/// smallest usable answer of any other set with the same contents.
proof fn lemma_min_crosses(a1: Seq<Seq<char>>, a2: Seq<Seq<char>>, m1: Seq<char>, m2: Seq<char>)
    requires
        a1.to_multiset() == a2.to_multiset(),
        ipv4_answers(a1).contains(m1),
        ipv4_answers(a2).contains(m2),
        forall|k: int| 0 <= k < ipv4_answers(a2).len() ==> lex_le(m2, ipv4_answers(a2)[k]),
    ensures
        lex_le(m2, m1),
{
    broadcast use vstd::seq_lib::group_to_multiset_ensures;

    let p = |a: Seq<char>| is_ipv4_literal(a);
    let i1 = choose|i: int| 0 <= i < ipv4_answers(a1).len() && ipv4_answers(a1)[i] == m1;
    a1.lemma_filter_pred(p, i1);
    a1.lemma_filter_contains_rev(p, m1);
    assert(a1.contains(m1));
    assert(a1.to_multiset().count(m1) > 0);
    assert(a2.contains(m1));
    let j = choose|j: int| 0 <= j < a2.len() && a2[j] == m1;
    a2.lemma_filter_contains(p, j);
    assert(ipv4_answers(a2).contains(m1));
    let j2 = choose|j2: int| 0 <= j2 < ipv4_answers(a2).len() && ipv4_answers(a2)[j2] == m1;
    assert(lex_le(m2, ipv4_answers(a2)[j2]));
}

/// Answer sets with IPv4 shape throughout lose nothing to the filter,
/// so a non-empty all-IPv4 answer set always resolves.
pub proof fn lemma_all_ipv4_kept(a: Seq<Seq<char>>)
    requires
        forall|i: int| 0 <= i < a.len() ==> is_ipv4_literal(a[i]),
    ensures
        ipv4_answers(a) == a,
    decreases a.len(),
{
    reveal(Seq::filter);
    if a.len() > 0 {
        assert(forall|i: int| 0 <= i < a.drop_last().len() ==> a.drop_last()[i] == a[i]);
        lemma_all_ipv4_kept(a.drop_last());
        assert(is_ipv4_literal(a.last()));
        assert(ipv4_answers(a) == ipv4_answers(a.drop_last()).push(a.last()));
        assert(a.drop_last().push(a.last()) =~= a);
    }
}

/// Answer sets with no IPv4-shaped member yield nothing usable, so
/// resolution fails with `NotFound`.
pub proof fn lemma_no_ipv4_notfound(a: Seq<Seq<char>>)
    requires
        forall|i: int| 0 <= i < a.len() ==> !is_ipv4_literal(a[i]),
    ensures
        ipv4_answers(a).len() == 0,
    decreases a.len(),
{
    reveal(Seq::filter);
    if a.len() > 0 {
        assert(forall|i: int| 0 <= i < a.drop_last().len() ==> a.drop_last()[i] == a[i]);
        lemma_no_ipv4_notfound(a.drop_last());
        assert(!is_ipv4_literal(a.last()));
    }
}

} // verus!
