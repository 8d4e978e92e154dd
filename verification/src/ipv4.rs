use vstd::prelude::*;

verus! {

/// The pieces of `s` between `.` separators, with `cur` the partial
/// piece read so far.  Empty pieces are kept, so `"1..2"` has three.
pub open spec fn dot_parts_go(s: Seq<char>, cur: Seq<char>) -> Seq<Seq<char>>
    decreases s.len(),
{
    if s.len() == 0 {
        seq![cur]
    } else if s[0] == '.' {
        seq![cur] + dot_parts_go(s.drop_first(), Seq::empty())
    } else {
        dot_parts_go(s.drop_first(), cur.push(s[0]))
    }
}

/// The `.`-separated pieces of `s`, in order, empties kept.
pub open spec fn dot_parts(s: Seq<char>) -> Seq<Seq<char>> {
    dot_parts_go(s, Seq::empty())
}

pub open spec fn is_digit_char(c: char) -> bool {
    '0' <= c && c <= '9'
}

pub open spec fn digit_value(c: char) -> int {
    c as int - '0' as int
}

/// The numeric value of a digit string, most significant digit first.
pub open spec fn digits_value(p: Seq<char>) -> int
    decreases p.len(),
{
    if p.len() == 0 {
        0
    } else {
        digits_value(p.drop_last()) * 10 + digit_value(p.last())
    }
}

/// One octet of a dotted-quad address: one to three decimal digits, no
/// leading zero unless the octet is exactly "0", and a value below 256.
pub open spec fn valid_octet(p: Seq<char>) -> bool {
    &&& 1 <= p.len() <= 3
    &&& forall|i: int| 0 <= i < p.len() ==> is_digit_char(p[i])
    &&& (p.len() > 1 ==> p[0] != '0')
    &&& digits_value(p) <= 255
}

/// An IPv4 literal: exactly four valid octets separated by dots.
pub open spec fn is_ipv4_literal(s: Seq<char>) -> bool {
    let ps = dot_parts(s);
    ps.len() == 4 && forall|i: int| 0 <= i < 4 ==> valid_octet(ps[i])
}

/// Splits `s` on `.` separators, keeping empty pieces.
fn split_dots(s: &str) -> (r: Vec<String>)
    ensures
        crate::text::views_of(r@) == dot_parts(s@),
{
    let n: usize = s.unicode_len();
    let mut out: Vec<String> = Vec::new();
    let mut i: usize = 0;
    let mut start: usize = 0;
    proof {
        assert(s@.skip(0) =~= s@);
        assert(s@.subrange(0, 0) =~= Seq::<char>::empty());
        assert(crate::text::views_of(out@) =~= Seq::<Seq<char>>::empty());
        assert(crate::text::views_of(out@) + dot_parts_go(s@.skip(0), s@.subrange(0, 0)) =~=
            dot_parts(s@));
    }
    loop
        invariant
            start <= i <= n,
            n == s@.len(),
            dot_parts(s@) == crate::text::views_of(out@) + dot_parts_go(
                s@.skip(i as int),
                s@.subrange(start as int, i as int),
            ),
        decreases n - i,
    {
        if i == n {
            let t: String = String::from_str(s.substring_char(start, i));
            proof {
                let cur = s@.subrange(start as int, i as int);
                assert(s@.skip(i as int).len() == 0);
                assert(dot_parts_go(s@.skip(i as int), cur) =~= seq![cur]);
                assert(crate::text::views_of(out@.push(t)) =~= crate::text::views_of(
                    out@,
                ).push(cur));
                assert(crate::text::views_of(out@) + seq![cur] =~= crate::text::views_of(
                    out@,
                ).push(cur));
            }
            out.push(t);
            return out;
        }
        let c: char = s.get_char(i);
        proof {
            assert(s@.skip(i as int)[0] == s@[i as int]);
            assert(s@.skip(i as int).drop_first() =~= s@.skip(i as int + 1));
        }
        if c == '.' {
            let t: String = String::from_str(s.substring_char(start, i));
            proof {
                let cur = s@.subrange(start as int, i as int);
                let rest = dot_parts_go(s@.skip(i as int + 1), Seq::<char>::empty());
                assert(dot_parts_go(s@.skip(i as int), cur) == seq![cur] + rest);
                assert(crate::text::views_of(out@.push(t)) =~= crate::text::views_of(
                    out@,
                ).push(cur));
                assert(crate::text::views_of(out@) + (seq![cur] + rest) =~= crate::text::views_of(
                    out@,
                ).push(cur) + rest);
            }
            out.push(t);
            i = i + 1;
            start = i;
            proof {
                assert(s@.subrange(start as int, i as int) =~= Seq::<char>::empty());
            }
        } else {
            proof {
                let cur = s@.subrange(start as int, i as int);
                assert(cur.push(s@[i as int]) =~= s@.subrange(start as int, i as int + 1));
            }
            i = i + 1;
        }
    }
}

/// Checks one candidate octet for shape and range.
fn check_octet(p: &str) -> (r: bool)
    ensures
        r == valid_octet(p@),
{
    let n: usize = p.unicode_len();
    if n < 1 || n > 3 {
        return false;
    }
    let mut i: usize = 0;
    let mut val: u32 = 0;
    proof {
        assert(p@.subrange(0, 0) =~= Seq::<char>::empty());
    }
    while i < n
        invariant
            i <= n,
            n == p@.len(),
            n <= 3,
            forall|k: int| 0 <= k < i ==> is_digit_char(p@[k]),
            val == digits_value(p@.subrange(0, i as int)),
            val <= 999,
        decreases n - i,
    {
        let c: char = p.get_char(i);
        if c < '0' || c > '9' {
            proof {
                assert(!is_digit_char(p@[i as int]));
            }
            return false;
        }
        let d: u32 = (c as u32) - ('0' as u32);
        proof {
            let pre = p@.subrange(0, i as int + 1);
            assert(pre.drop_last() =~= p@.subrange(0, i as int));
            assert(pre.last() == p@[i as int]);
            assert(digit_value(p@[i as int]) == d);
            assert(digits_value(p@.subrange(0, i as int)) <= 99) by {
                if i >= 2 {
                    assert(i == 2 && n == 3);
                }
                lemma_digits_value_bound(p@.subrange(0, i as int));
            }
        }
        val = val * 10 + d;
        i = i + 1;
    }
    proof {
        assert(p@.subrange(0, n as int) =~= p@);
    }
    if p.get_char(0) == '0' && n > 1 {
        return false;
    }
    val <= 255
}

/// A digit string of length at most `k` has value below `10^k`; only
/// the cases this file needs are stated.
proof fn lemma_digits_value_bound(p: Seq<char>)
    requires
        forall|i: int| 0 <= i < p.len() ==> is_digit_char(p[i]),
        p.len() <= 2,
    ensures
        0 <= digits_value(p),
        digits_value(p) <= 99,
    decreases p.len(),
{
    if p.len() > 0 {
        assert(forall|i: int| 0 <= i < p.drop_last().len() ==> is_digit_char(p.drop_last()[i]));
        lemma_digits_value_bound_one(p.drop_last());
        assert(0 <= digit_value(p.last()) <= 9);
    }
}

proof fn lemma_digits_value_bound_one(p: Seq<char>)
    requires
        forall|i: int| 0 <= i < p.len() ==> is_digit_char(p[i]),
        p.len() <= 1,
    ensures
        0 <= digits_value(p),
        digits_value(p) <= 9,
{
    if p.len() == 0 {
        assert(digits_value(p) == 0);
    } else {
        assert(p.drop_last().len() == 0);
        assert(digits_value(p.drop_last()) == 0);
        assert(is_digit_char(p[p.len() - 1]));
        assert(0 <= digit_value(p.last()) <= 9);
        assert(digits_value(p) == digits_value(p.drop_last()) * 10 + digit_value(p.last()));
    }
}

/// Whether `addr` is a dotted-quad IPv4 literal.  Answers from the
/// network resolver are kept only when they have this shape.
pub fn is_ipv4addr(addr: &str) -> (r: bool)
    ensures
        r == is_ipv4_literal(addr@),
{
    let parts: Vec<String> = split_dots(addr);
    let ghost ps = dot_parts(addr@);
    if parts.len() != 4 {
        return false;
    }
    let mut i: usize = 0;
    while i < 4
        invariant
            i <= 4,
            parts@.len() == 4,
            crate::text::views_of(parts@) == ps,
            ps == dot_parts(addr@),
            ps.len() == 4,
            forall|k: int| 0 <= k < i ==> valid_octet(ps[k]),
        decreases 4 - i,
    {
        proof {
            assert(crate::text::views_of(parts@)[i as int] == ps[i as int]);
        }
        if !check_octet(parts[i].as_str()) {
            proof {
                assert(!valid_octet(ps[i as int]));
                assert(!is_ipv4_literal(addr@)) by {
                    if is_ipv4_literal(addr@) {
                        assert(valid_octet(dot_parts(addr@)[i as int]));
                    }
                }
            }
            return false;
        }
        i = i + 1;
    }
    true
}

} // verus!
