use vstd::prelude::*;

use crate::paint::{paint, painted, ColorClass};
use crate::text::{
    lemma_lex_le_antisym, lemma_lex_le_refl, lemma_lex_le_total, lemma_lex_le_trans, lex_le,
    str_eq, str_le, views_of,
};
use vstd::relations::{sorted_by, total_ordering};
use vstd::seq_lib::lemma_multiset_commutative;
use vstd::seq_lib::lemma_sorted_unique;

verus! {

/// The protocol versions the renderer distinguishes.
#[derive(Clone, Copy, PartialEq, Eq, Structural, Debug)]
pub enum HttpVersion {
    V09,
    V10,
    V11,
    V20,
}

/// The class of a status code is a total function of its hundreds
/// digit alone: 2 is success, 3 warns, 4 and 5 alert, anything else is
/// left unstyled.
pub open spec fn status_class_spec(code: u16) -> ColorClass {
    if code / 100 == 2 {
        ColorClass::Success
    } else if code / 100 == 3 {
        ColorClass::Warning
    } else if code / 100 == 4 || code / 100 == 5 {
        ColorClass::Alert
    } else {
        ColorClass::Neutral
    }
}

pub fn status_class(code: u16) -> (r: ColorClass)
    ensures
        r == status_class_spec(code),
{
    let h: u16 = code / 100;
    if h == 2 {
        ColorClass::Success
    } else if h == 3 {
        ColorClass::Warning
    } else if h == 4 || h == 5 {
        ColorClass::Alert
    } else {
        ColorClass::Neutral
    }
}

/// Two status codes with the same hundreds digit always carry the same
/// class: the coloring looks at nothing else.
pub proof fn lemma_status_class_hundreds(a: u16, b: u16)
    requires
        a / 100 == b / 100,
    ensures
        status_class_spec(a) == status_class_spec(b),
{
}

/// Legacy versions warn, the current one reads as success, the modern
/// one as an accent.
pub open spec fn version_class_spec(v: HttpVersion) -> ColorClass {
    match v {
        HttpVersion::V09 => ColorClass::Warning,
        HttpVersion::V10 => ColorClass::Warning,
        HttpVersion::V11 => ColorClass::Success,
        HttpVersion::V20 => ColorClass::Accent,
    }
}

pub fn version_class(v: HttpVersion) -> (r: ColorClass)
    ensures
        r == version_class_spec(v),
{
    match v {
        HttpVersion::V09 => ColorClass::Warning,
        HttpVersion::V10 => ColorClass::Warning,
        HttpVersion::V11 => ColorClass::Success,
        HttpVersion::V20 => ColorClass::Accent,
    }
}

pub open spec fn version_text_spec(v: HttpVersion) -> Seq<char> {
    match v {
        HttpVersion::V09 => "HTTP/0.9"@,
        HttpVersion::V10 => "HTTP/1.0"@,
        HttpVersion::V11 => "HTTP/1.1"@,
        HttpVersion::V20 => "HTTP/2.0"@,
    }
}

pub fn version_text(v: HttpVersion) -> (r: String)
    ensures
        r@ == version_text_spec(v),
{
    match v {
        HttpVersion::V09 => String::from_str("HTTP/0.9"),
        HttpVersion::V10 => String::from_str("HTTP/1.0"),
        HttpVersion::V11 => String::from_str("HTTP/1.1"),
        HttpVersion::V20 => String::from_str("HTTP/2.0"),
    }
}

/// `Location` hints at a redirect; a few infrastructure headers get an
/// accent; every other header name stays unstyled.
pub open spec fn header_class_spec(name: Seq<char>) -> ColorClass {
    if name == "Location"@ {
        ColorClass::Warning
    } else if name == "Server"@ || name == "Via"@ || name == "X-Powered-By"@ || name == "CF-RAY"@ {
        ColorClass::Accent
    } else {
        ColorClass::Neutral
    }
}

pub fn header_class(name: &str) -> (r: ColorClass)
    ensures
        r == header_class_spec(name@),
{
    if str_eq(name, "Location") {
        ColorClass::Warning
    } else if str_eq(name, "Server") || str_eq(name, "Via") || str_eq(name, "X-Powered-By")
        || str_eq(name, "CF-RAY") {
        ColorClass::Accent
    } else {
        ColorClass::Neutral
    }
}

pub open spec fn digit_char(d: int) -> char {
    if d == 0 {
        '0'
    } else if d == 1 {
        '1'
    } else if d == 2 {
        '2'
    } else if d == 3 {
        '3'
    } else if d == 4 {
        '4'
    } else if d == 5 {
        '5'
    } else if d == 6 {
        '6'
    } else if d == 7 {
        '7'
    } else if d == 8 {
        '8'
    } else {
        '9'
    }
}

/// The decimal digits of `n`, most significant first.
pub open spec fn dec_of(n: int) -> Seq<char>
    recommends
        n >= 0,
    decreases n,
{
    if n < 10 {
        seq![digit_char(n)]
    } else {
        dec_of(n / 10).push(digit_char(n % 10))
    }
}

fn digit_str(d: u16) -> (r: &'static str)
    requires
        d < 10,
    ensures
        r@ == seq![digit_char(d as int)],
{
    if d == 0 {
        proof {
            reveal_strlit("0");
            assert("0"@ =~= seq![digit_char(0)]);
        }
        "0"
    } else if d == 1 {
        proof {
            reveal_strlit("1");
            assert("1"@ =~= seq![digit_char(1)]);
        }
        "1"
    } else if d == 2 {
        proof {
            reveal_strlit("2");
            assert("2"@ =~= seq![digit_char(2)]);
        }
        "2"
    } else if d == 3 {
        proof {
            reveal_strlit("3");
            assert("3"@ =~= seq![digit_char(3)]);
        }
        "3"
    } else if d == 4 {
        proof {
            reveal_strlit("4");
            assert("4"@ =~= seq![digit_char(4)]);
        }
        "4"
    } else if d == 5 {
        proof {
            reveal_strlit("5");
            assert("5"@ =~= seq![digit_char(5)]);
        }
        "5"
    } else if d == 6 {
        proof {
            reveal_strlit("6");
            assert("6"@ =~= seq![digit_char(6)]);
        }
        "6"
    } else if d == 7 {
        proof {
            reveal_strlit("7");
            assert("7"@ =~= seq![digit_char(7)]);
        }
        "7"
    } else if d == 8 {
        proof {
            reveal_strlit("8");
            assert("8"@ =~= seq![digit_char(8)]);
        }
        "8"
    } else {
        proof {
            reveal_strlit("9");
            assert("9"@ =~= seq![digit_char(9)]);
        }
        "9"
    }
}

/// Renders `n` in decimal.
pub fn dec_str(n: u16) -> (r: String)
    ensures
        r@ == dec_of(n as int),
    decreases n,
{
    if n < 10 {
        String::from_str(digit_str(n))
    } else {
        let mut s = dec_str(n / 10);
        s.append(digit_str(n % 10));
        proof {
            assert(dec_of(n as int / 10).push(digit_char(n as int % 10)) =~= dec_of(n as int / 10)
                + seq![digit_char(n as int % 10)]);
        }
        s
    }
}

/// The displayed status: the decimal code, then the reason phrase when
/// there is one.
pub open spec fn status_text_spec(code: u16, reason: Seq<char>) -> Seq<char> {
    if reason.len() == 0 {
        dec_of(code as int)
    } else {
        dec_of(code as int) + " "@ + reason
    }
}

pub fn status_text(code: u16, reason: &str) -> (r: String)
    ensures
        r@ == status_text_spec(code, reason@),
{
    let mut t = dec_str(code);
    if reason.unicode_len() > 0 {
        t.append(" ");
        t.append(reason);
        proof {
            assert(t@ =~= status_text_spec(code, reason@));
        }
    }
    t
}

/// The first output line: colored version and status, then the address
/// the request was actually sent to, and the override marker when the
/// address came from the local table.
pub open spec fn status_line_spec(
    v: HttpVersion,
    code: u16,
    reason: Seq<char>,
    ip: Seq<char>,
    from_hosts: bool,
) -> Seq<char> {
    painted(version_class_spec(v), version_text_spec(v)) + " "@ + painted(
        status_class_spec(code),
        status_text_spec(code, reason),
    ) + " @ "@ + painted(ColorClass::Accent, ip) + if from_hosts {
        painted(ColorClass::Alert, " [/etc/hosts]"@)
    } else {
        Seq::<char>::empty()
    }
}

pub fn render_status_line(
    v: HttpVersion,
    code: u16,
    reason: &str,
    ip: &str,
    source: crate::resolve::Source,
) -> (r: String)
    ensures
        r@ == status_line_spec(v, code, reason@, ip@, source is HostsOverride),
{
    let vt = version_text(v);
    let mut line = paint(version_class(v), vt.as_str());
    line.append(" ");
    let st = status_text(code, reason);
    let colored_status = paint(status_class(code), st.as_str());
    line.append(colored_status.as_str());
    line.append(" @ ");
    let colored_ip = paint(ColorClass::Accent, ip);
    line.append(colored_ip.as_str());
    match source {
        crate::resolve::Source::HostsOverride => {
            let marker = paint(ColorClass::Alert, " [/etc/hosts]");
            line.append(marker.as_str());
        },
        crate::resolve::Source::NetworkDns => {},
    }
    proof {
        assert(line@ =~= status_line_spec(v, code, reason@, ip@, source is HostsOverride));
    }
    line
}

/// One response header, as the transport delivered it.
#[derive(Debug)]
pub struct Header {
    pub name: String,
    pub value: String,
}

pub open spec fn header_view(h: Header) -> (Seq<char>, Seq<char>) {
    (h.name@, h.value@)
}

pub open spec fn headers_model(hs: Seq<Header>) -> Seq<(Seq<char>, Seq<char>)> {
    hs.map_values(|h: Header| header_view(h))
}

/// Header order for display: by name, then by value, both in the
/// lexicographic order of the characters.
pub open spec fn header_pair_le(a: (Seq<char>, Seq<char>), b: (Seq<char>, Seq<char>)) -> bool {
    if a.0 == b.0 {
        lex_le(a.1, b.1)
    } else {
        lex_le(a.0, b.0)
    }
}

pub open spec fn header_leq() -> spec_fn((Seq<char>, Seq<char>), (Seq<char>, Seq<char>)) -> bool {
    |a: (Seq<char>, Seq<char>), b: (Seq<char>, Seq<char>)| header_pair_le(a, b)
}

/// The display order is a total order, so sorting by it yields one
/// canonical arrangement of any header multiset.
pub proof fn lemma_header_leq_total_ordering()
    ensures
        total_ordering(header_leq()),
{
    let leq = header_leq();
    assert forall|x: (Seq<char>, Seq<char>)| #[trigger] leq(x, x) by {
        lemma_lex_le_refl(x.1);
    }
    assert forall|x: (Seq<char>, Seq<char>), y: (Seq<char>, Seq<char>)|
        #[trigger] leq(x, y) && #[trigger] leq(y, x) implies x == y by {
        if x.0 == y.0 {
            lemma_lex_le_antisym(x.1, y.1);
        } else {
            lemma_lex_le_antisym(x.0, y.0);
        }
    }
    assert forall|x: (Seq<char>, Seq<char>), y: (Seq<char>, Seq<char>), z: (Seq<char>, Seq<char>)|
        #[trigger] leq(x, y) && #[trigger] leq(y, z) implies leq(x, z) by {
        if x.0 == y.0 && y.0 == z.0 {
            lemma_lex_le_trans(x.1, y.1, z.1);
        } else if x.0 != y.0 && y.0 != z.0 {
            if x.0 == z.0 {
                lemma_lex_le_antisym(x.0, y.0);
            } else {
                lemma_lex_le_trans(x.0, y.0, z.0);
            }
        }
    }
    assert forall|x: (Seq<char>, Seq<char>), y: (Seq<char>, Seq<char>)|
        #[trigger] leq(x, y) || #[trigger] leq(y, x) by {
        if x.0 == y.0 {
            lemma_lex_le_total(x.1, y.1);
        } else {
            lemma_lex_le_total(x.0, y.0);
        }
    }
}

fn header_le(a: &Header, b: &Header) -> (r: bool)
    ensures
        r == header_pair_le(header_view(*a), header_view(*b)),
{
    if str_eq(a.name.as_str(), b.name.as_str()) {
        str_le(a.value.as_str(), b.value.as_str())
    } else {
        str_le(a.name.as_str(), b.name.as_str())
    }
}

proof fn lemma_model_insert_multiset(s: Seq<(Seq<char>, Seq<char>)>, j: int, x: (Seq<char>, Seq<char>))
    requires
        0 <= j <= s.len(),
    ensures
        s.insert(j, x).to_multiset() == s.to_multiset().insert(x),
{
    broadcast use vstd::seq_lib::group_to_multiset_ensures;
    broadcast use vstd::multiset::group_multiset_axioms;

    let a = s.subrange(0, j);
    let b = s.subrange(j, s.len() as int);
    assert(s =~= a + b);
    lemma_multiset_commutative(a, b);
    assert(s.insert(j, x) =~= a.push(x) + b);
    lemma_multiset_commutative(a.push(x), b);
    assert(a.push(x).to_multiset() =~= a.to_multiset().insert(x));
    assert((a.to_multiset().insert(x)).add(b.to_multiset()) =~= (a.to_multiset().add(
        b.to_multiset(),
    )).insert(x));
}

/// Sorts headers into the display order.
fn sort_headers(headers: Vec<Header>) -> (r: Vec<Header>)
    ensures
        headers_model(r@) == headers_model(headers@).sort_by(header_leq()),
{
    let ghost orig = headers_model(headers@);
    let ghost leq = header_leq();
    let mut rest = headers;
    let mut out: Vec<Header> = Vec::new();
    proof {
        broadcast use vstd::seq_lib::group_to_multiset_ensures;
        broadcast use vstd::multiset::group_multiset_axioms;

        lemma_header_leq_total_ordering();
        assert(headers_model(out@) =~= Seq::<(Seq<char>, Seq<char>)>::empty());
        assert(headers_model(out@).to_multiset().add(headers_model(rest@).to_multiset()) =~= orig
            .to_multiset());
    }
    while rest.len() > 0
        invariant
            leq == header_leq(),
            total_ordering(leq),
            sorted_by(headers_model(out@), leq),
            headers_model(out@).to_multiset().add(headers_model(rest@).to_multiset()) == orig
                .to_multiset(),
        decreases rest.len(),
    {
        broadcast use vstd::seq_lib::group_to_multiset_ensures;
        broadcast use vstd::multiset::group_multiset_axioms;

        let ghost rm = headers_model(rest@);
        let ghost om = headers_model(out@);
        let h = rest.remove(0);
        let ghost hm = header_view(h);
        proof {
            assert(rm[0] == hm);
            assert(headers_model(rest@) =~= rm.remove(0));
            assert(rm.remove(0).to_multiset() =~= rm.to_multiset().remove(hm));
            assert(rm.to_multiset().count(hm) > 0);
            assert(om.to_multiset().add(rm.to_multiset().remove(hm)).insert(hm) =~= om
                .to_multiset().add(rm.to_multiset()));
        }
        let mut j: usize = 0;
        loop
            invariant_except_break
                j <= out.len(),
                om == headers_model(out@),
                hm == header_view(h),
                forall|k: int| 0 <= k < j ==> !leq(hm, om[k]),
                leq == header_leq(),
            ensures
                j <= out.len(),
                om == headers_model(out@),
                j < out.len() ==> leq(hm, om[j as int]),
                forall|k: int| 0 <= k < j ==> !leq(hm, om[k]),
            decreases out.len() - j,
        {
            if j == out.len() {
                break ;
            }
            proof {
                assert(headers_model(out@)[j as int] == header_view(out@[j as int]));
                assert(leq(hm, om[j as int]) == header_pair_le(hm, om[j as int]));
            }
            if header_le(&h, &out[j]) {
                break ;
            }
            j = j + 1;
        }
        proof {
            lemma_model_insert_multiset(om, j as int, hm);
            assert(om.insert(j as int, hm).to_multiset().add(headers_model(rest@).to_multiset())
                =~= orig.to_multiset());
        }
        let ghost om1 = om.insert(j as int, hm);
        proof {
            om.insert_ensures(j as int, hm);
            assert forall|p: int, q: int| 0 <= p < q < om1.len() implies leq(om1[p], om1[q]) by {
                if q < j {
                    assert(om1[p] == om[p] && om1[q] == om[q]);
                } else if p < j && q == j {
                    assert(om1[p] == om[p] && om1[q] == hm);
                    assert(!leq(hm, om[p]));
                } else if p < j && q > j {
                    assert(om1[p] == om[p] && om1[q] == om[q - 1]);
                } else if p == j {
                    assert(om1[p] == hm && om1[q] == om[q - 1]);
                    if j < om.len() {
                        assert(leq(hm, om[j as int]));
                        if q - 1 > j {
                            assert(leq(om[j as int], om[q - 1]));
                        }
                    }
                } else {
                    assert(om1[p] == om[p - 1] && om1[q] == om[q - 1]);
                }
            }
        }
        out.insert(j, h);
        proof {
            assert(headers_model(out@) =~= om1);
        }
    }
    proof {
        broadcast use vstd::seq_lib::group_to_multiset_ensures;

        assert(headers_model(rest@) =~= Seq::<(Seq<char>, Seq<char>)>::empty());
        assert(headers_model(out@).to_multiset() =~= orig.to_multiset()) by {
            broadcast use vstd::multiset::group_multiset_axioms;

            assert(headers_model(rest@).to_multiset().len() == 0);
        }
        orig.lemma_sort_by_ensures(leq);
        lemma_sorted_unique(headers_model(out@), orig.sort_by(leq), leq);
    }
    out
}

/// One rendered header line: a bullet, then `name: value` wrapped in
/// the escape codes of the name's class.
pub open spec fn header_line_view(m: (Seq<char>, Seq<char>)) -> Seq<char> {
    "\u{25cf} "@ + painted(header_class_spec(m.0), m.0 + ": "@ + m.1)
}

/// All header lines, in display order: sorted by name then value, so
/// any delivery order of the same headers renders identically.
pub open spec fn rendered_header_lines(ms: Seq<(Seq<char>, Seq<char>)>) -> Seq<Seq<char>> {
    ms.sort_by(header_leq()).map_values(|m: (Seq<char>, Seq<char>)| header_line_view(m))
}

fn render_one_header(h: &Header) -> (r: String)
    ensures
        r@ == header_line_view(header_view(*h)),
{
    let mut body = String::from_str(h.name.as_str());
    body.append(": ");
    body.append(h.value.as_str());
    let colored = paint(header_class(h.name.as_str()), body.as_str());
    let mut line = String::from_str("\u{25cf} ");
    line.append(colored.as_str());
    proof {
        assert(line@ =~= header_line_view(header_view(*h)));
    }
    line
}

/// Renders the response headers: collected, sorted by name then value,
/// one line each — never the wire order.
pub fn render_header_lines(headers: Vec<Header>) -> (r: Vec<String>)
    ensures
        views_of(r@) == rendered_header_lines(headers_model(headers@)),
{
    let ghost ms = headers_model(headers@);
    let sorted = sort_headers(headers);
    let ghost sm = headers_model(sorted@);
    let mut out: Vec<String> = Vec::new();
    let mut i: usize = 0;
    let n: usize = sorted.len();
    proof {
        assert(views_of(out@) =~= Seq::<Seq<char>>::empty());
    }
    while i < n
        invariant
            i <= n,
            n == sorted@.len(),
            sm == headers_model(sorted@),
            sm == ms.sort_by(header_leq()),
            ms == headers_model(headers@),
            views_of(out@).len() == i,
            forall|k: int| 0 <= k < i ==> views_of(out@)[k] == header_line_view(sm[k]),
        decreases n - i,
    {
        let ghost prev = out@;
        let line = render_one_header(&sorted[i]);
        proof {
            assert(headers_model(sorted@)[i as int] == header_view(sorted@[i as int]));
        }
        out.push(line);
        proof {
            assert(views_of(out@) =~= views_of(prev).push(line@));
        }
        i = i + 1;
    }
    proof {
        assert(views_of(out@) =~= rendered_header_lines(ms));
    }
    out
}

/// Rendering is blind to the order headers arrived in: two deliveries
/// of the same headers (same multiset) render the same lines.
pub proof fn lemma_header_render_order_blind(
    h1: Seq<(Seq<char>, Seq<char>)>,
    h2: Seq<(Seq<char>, Seq<char>)>,
)
    requires
        h1.to_multiset() == h2.to_multiset(),
    ensures
        rendered_header_lines(h1) == rendered_header_lines(h2),
{
    lemma_header_leq_total_ordering();
    h1.lemma_sort_by_ensures(header_leq());
    h2.lemma_sort_by_ensures(header_leq());
    lemma_sorted_unique(h1.sort_by(header_leq()), h2.sort_by(header_leq()), header_leq());
}

} // verus!
