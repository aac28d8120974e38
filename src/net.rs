//! Network addresses, socket endpoints and networks, and their canonical text.
//!
//! Every value has exactly one text: decimal octets for IPv4, lower-case hex
//! groups with the longest run of zero groups (the first of equal runs, at
//! least two groups) written as `::` for IPv6, `[v6]:port` for an IPv6
//! endpoint. The parsers accept exactly these texts.

use vstd::prelude::*;
use crate::text::{
    all_digits, all_free_of, digits_of, free_of, join, lemma_digits_of, lemma_join_chars,
    lemma_join_unique, lemma_join2, parse_number, push_digits, push_joined, same_chars, split, value_of,
    char_value, is_digit,
};

verus! {

/// An IPv4 address.
#[derive(Clone, Copy, Debug, PartialEq, Eq)]
pub struct Ipv4Addr {
    pub a: u8,
    pub b: u8,
    pub c: u8,
    pub d: u8,
}

/// Decimal text of a number.
pub open spec fn dec(n: nat) -> Seq<char> {
    digits_of(n, 10)
}

pub open spec fn ipv4_pieces(a: Ipv4Addr) -> Seq<Seq<char>> {
    seq![dec(a.a as nat), dec(a.b as nat), dec(a.c as nat), dec(a.d as nat)]
}

/// The dotted decimal text of an IPv4 address.
pub open spec fn ipv4_text(a: Ipv4Addr) -> Seq<char> {
    join(ipv4_pieces(a), '.')
}

/// The IPv4 address whose text is `s`, if there is one.
pub open spec fn parse_ipv4_spec(s: Seq<char>) -> Option<Ipv4Addr> {
    if exists|a: Ipv4Addr| ipv4_text(a) == s {
        Some(choose|a: Ipv4Addr| ipv4_text(a) == s)
    } else {
        None
    }
}

/// A decimal text is made of digits, holds no separator, and gives its number back.
pub proof fn lemma_dec(n: nat)
    ensures
        all_digits(dec(n), 10),
        value_of(dec(n), 10) == n,
        forall|c: char| char_value(c) is None ==> free_of(dec(n), c),
        forall|i: int| 0 <= i < dec(n).len() ==> char_value(#[trigger] dec(n)[i]) is Some,
{
    lemma_digits_of(n, 10);
    assert forall|c: char| char_value(c) is None implies free_of(dec(n), c) by {
        assert forall|i: int| 0 <= i < dec(n).len() implies dec(n)[i] != c by {
            assert(is_digit(dec(n)[i], 10));
        }
    }
    assert forall|i: int| 0 <= i < dec(n).len() implies char_value(#[trigger] dec(n)[i]) is Some by {
        assert(is_digit(dec(n)[i], 10));
    }
}

proof fn lemma_ipv4_pieces(a: Ipv4Addr)
    ensures
        all_free_of(ipv4_pieces(a), '.'),
        all_free_of(ipv4_pieces(a), ':'),
        all_free_of(ipv4_pieces(a), '/'),
        all_free_of(ipv4_pieces(a), ']'),
        ipv4_pieces(a).len() == 4,
{
    lemma_dec(a.a as nat);
    lemma_dec(a.b as nat);
    lemma_dec(a.c as nat);
    lemma_dec(a.d as nat);
}

/// Different IPv4 addresses have different texts.
pub proof fn lemma_ipv4_text_injective(a: Ipv4Addr, b: Ipv4Addr)
    requires
        ipv4_text(a) == ipv4_text(b),
    ensures
        a == b,
{
    lemma_ipv4_pieces(a);
    lemma_ipv4_pieces(b);
    lemma_join_unique(ipv4_pieces(a), ipv4_pieces(b), '.');
    assert(ipv4_pieces(a)[0] == ipv4_pieces(b)[0]);
    assert(ipv4_pieces(a)[1] == ipv4_pieces(b)[1]);
    assert(ipv4_pieces(a)[2] == ipv4_pieces(b)[2]);
    assert(ipv4_pieces(a)[3] == ipv4_pieces(b)[3]);
    lemma_dec(a.a as nat);
    lemma_dec(a.b as nat);
    lemma_dec(a.c as nat);
    lemma_dec(a.d as nat);
    lemma_dec(b.a as nat);
    lemma_dec(b.b as nat);
    lemma_dec(b.c as nat);
    lemma_dec(b.d as nat);
}

/// The text of an IPv4 address parses back to it.
pub proof fn lemma_ipv4_parse_text(a: Ipv4Addr)
    ensures
        parse_ipv4_spec(ipv4_text(a)) == Some(a),
{
    let b = choose|b: Ipv4Addr| ipv4_text(b) == ipv4_text(a);
    lemma_ipv4_text_injective(a, b);
}

/// The text of an IPv4 address is not empty, holds a '.', does not start
/// with '[' and holds no ':', '/' or ']'.
pub proof fn lemma_ipv4_text_chars(a: Ipv4Addr)
    ensures
        free_of(ipv4_text(a), ':'),
        free_of(ipv4_text(a), '/'),
        free_of(ipv4_text(a), ']'),
        ipv4_text(a).len() > 0,
        ipv4_text(a)[0] != '[',
        exists|i: int| 0 <= i < ipv4_text(a).len() && ipv4_text(a)[i] == '.',
{
    let p = ipv4_pieces(a);
    lemma_dec(a.a as nat);
    lemma_dec(a.b as nat);
    lemma_dec(a.c as nat);
    lemma_dec(a.d as nat);
    let ok = |c: char| c == '.' || char_value(c) is Some;
    assert forall|i: int, j: int| 0 <= i < p.len() && 0 <= j < p[i].len() implies ok(
        #[trigger] p[i][j],
    ) by {}
    lemma_join_chars(p, '.', ok);
    let s = ipv4_text(a);
    assert(s == join(p.drop_last(), '.').push('.') + p.last());
    assert(s[join(p.drop_last(), '.').len() as int] == '.');
    assert(p.drop_last().drop_last().drop_last() =~= seq![p[0]]);
    assert(join(p.drop_last().drop_last(), '.') == join(seq![p[0]], '.').push('.') + p[1]);
    assert(s[0] == join(p.drop_last(), '.')[0]);
    assert(join(p.drop_last(), '.')[0] == join(p.drop_last().drop_last(), '.')[0]);
    assert(s[0] == p[0][0]);
}

/// Appends the text of an IPv4 address.
pub fn push_ipv4(a: Ipv4Addr, out: &mut Vec<char>)
    ensures
        final(out)@ == old(out)@ + ipv4_text(a),
{
    let mut p: Vec<Vec<char>> = Vec::new();
    let mut x: Vec<char> = Vec::new();
    push_digits(a.a as u64, 10, &mut x);
    p.push(x);
    let mut x: Vec<char> = Vec::new();
    push_digits(a.b as u64, 10, &mut x);
    p.push(x);
    let mut x: Vec<char> = Vec::new();
    push_digits(a.c as u64, 10, &mut x);
    p.push(x);
    let mut x: Vec<char> = Vec::new();
    push_digits(a.d as u64, 10, &mut x);
    p.push(x);
    assert(p.deep_view()[0] =~= p@[0]@);
    assert(p.deep_view()[1] =~= p@[1]@);
    assert(p.deep_view()[2] =~= p@[2]@);
    assert(p.deep_view()[3] =~= p@[3]@);
    assert(p.deep_view() =~= ipv4_pieces(a));
    push_joined(&p, '.', out);
}

/// Reads an IPv4 address from its text.
pub fn parse_ipv4(s: &Vec<char>) -> (r: Option<Ipv4Addr>)
    ensures
        r == parse_ipv4_spec(s@),
{
    let p = split(s, '.');
    let ghost pv = p.deep_view();
    if p.len() != 4 {
        proof {
            assert forall|a: Ipv4Addr| ipv4_text(a) != s@ by {
                if ipv4_text(a) == s@ {
                    lemma_ipv4_pieces(a);
                    lemma_join_unique(pv, ipv4_pieces(a), '.');
                }
            }
        }
        return None;
    }
    assert(p@[0]@ == pv[0] && p@[1]@ == pv[1] && p@[2]@ == pv[2] && p@[3]@ == pv[3]) by {
        assert(p@[0].deep_view() =~= p@[0]@);
        assert(p@[1].deep_view() =~= p@[1]@);
        assert(p@[2].deep_view() =~= p@[2]@);
        assert(p@[3].deep_view() =~= p@[3]@);
    }
    let v0 = parse_number(&p[0], 10, 255);
    let v1 = parse_number(&p[1], 10, 255);
    let v2 = parse_number(&p[2], 10, 255);
    let v3 = parse_number(&p[3], 10, 255);
    if v0.is_none() || v1.is_none() || v2.is_none() || v3.is_none() {
        proof {
            assert forall|a: Ipv4Addr| ipv4_text(a) != s@ by {
                if ipv4_text(a) == s@ {
                    lemma_ipv4_pieces(a);
                    lemma_join_unique(pv, ipv4_pieces(a), '.');
                    lemma_dec(a.a as nat);
                    lemma_dec(a.b as nat);
                    lemma_dec(a.c as nat);
                    lemma_dec(a.d as nat);
                }
            }
        }
        return None;
    }
    let cand = Ipv4Addr {
        a: v0.unwrap() as u8,
        b: v1.unwrap() as u8,
        c: v2.unwrap() as u8,
        d: v3.unwrap() as u8,
    };
    let mut t: Vec<char> = Vec::new();
    push_ipv4(cand, &mut t);
    assert(t@ =~= ipv4_text(cand));
    if same_chars(&t, s) {
        proof {
            lemma_ipv4_parse_text(cand);
        }
        Some(cand)
    } else {
        proof {
            assert forall|a: Ipv4Addr| ipv4_text(a) != s@ by {
                if ipv4_text(a) == s@ {
                    lemma_ipv4_pieces(a);
                    lemma_join_unique(pv, ipv4_pieces(a), '.');
                    lemma_dec(a.a as nat);
                    lemma_dec(a.b as nat);
                    lemma_dec(a.c as nat);
                    lemma_dec(a.d as nat);
                    assert(cand == a);
                }
            }
        }
        None
    }
}


/// An IPv6 address, as its eight 16-bit groups.
#[derive(Clone, Copy, Debug, PartialEq, Eq)]
pub struct Ipv6Addr {
    pub s0: u16,
    pub s1: u16,
    pub s2: u16,
    pub s3: u16,
    pub s4: u16,
    pub s5: u16,
    pub s6: u16,
    pub s7: u16,
}

/// The eight groups of an IPv6 address.
pub open spec fn segs(a: Ipv6Addr) -> Seq<u16> {
    seq![a.s0, a.s1, a.s2, a.s3, a.s4, a.s5, a.s6, a.s7]
}

/// The address of eight groups.
pub open spec fn from_segs(s: Seq<u16>) -> Ipv6Addr {
    Ipv6Addr { s0: s[0], s1: s[1], s2: s[2], s3: s[3], s4: s[4], s5: s[5], s6: s[6], s7: s[7] }
}

/// The number of zero groups from `i` on.
pub open spec fn zero_run(s: Seq<u16>, i: int) -> nat
    decreases s.len() - i,
{
    if i < 0 || i >= s.len() {
        0
    } else if s[i] == 0 {
        1 + zero_run(s, i + 1)
    } else {
        0
    }
}

/// Start and length of the longest run of zero groups from `i` on; of equal
/// runs, the first.
pub open spec fn longest_run(s: Seq<u16>, i: int) -> (int, nat)
    decreases s.len() - i,
{
    if i < 0 || i >= s.len() {
        (s.len() as int, 0)
    } else {
        let rest = longest_run(s, i + 1);
        if zero_run(s, i) >= rest.1 {
            (i, zero_run(s, i))
        } else {
            rest
        }
    }
}

/// The hex text of each group.
pub open spec fn hexes(s: Seq<u16>) -> Seq<Seq<char>> {
    s.map_values(|x: u16| digits_of(x as nat, 16))
}

/// The colon-separated pieces of an IPv6 text; the empty pieces mark `::`.
pub open spec fn ipv6_pieces(a: Ipv6Addr) -> Seq<Seq<char>> {
    let s = segs(a);
    let st = longest_run(s, 0).0;
    let ln = longest_run(s, 0).1 as int;
    if ln < 2 {
        hexes(s)
    } else {
        (if st == 0 { seq![Seq::<char>::empty()] } else { hexes(s.subrange(0, st)) }) + seq![
            Seq::<char>::empty(),
        ] + (if st + ln == 8 {
            seq![Seq::<char>::empty()]
        } else {
            hexes(s.subrange(st + ln, 8))
        })
    }
}

/// The canonical text of an IPv6 address.
pub open spec fn ipv6_text(a: Ipv6Addr) -> Seq<char> {
    join(ipv6_pieces(a), ':')
}

/// The IPv6 address whose text is `s`, if there is one.
pub open spec fn parse_ipv6_spec(s: Seq<char>) -> Option<Ipv6Addr> {
    if exists|a: Ipv6Addr| ipv6_text(a) == s {
        Some(choose|a: Ipv6Addr| ipv6_text(a) == s)
    } else {
        None
    }
}

/// Index of the first empty piece from `i` on, or the number of pieces.
pub open spec fn first_empty(p: Seq<Seq<char>>, i: int) -> int
    decreases p.len() - i,
{
    if i < 0 || i >= p.len() {
        p.len() as int
    } else if p[i].len() == 0 {
        i
    } else {
        first_empty(p, i + 1)
    }
}

/// Each piece is a hex number of one group.
pub open spec fn hex_ok(q: Seq<Seq<char>>) -> bool {
    forall|i: int| 0 <= i < q.len() ==> all_digits(#[trigger] q[i], 16) && value_of(q[i], 16) <= 0xffff
}

pub open spec fn hex_values(q: Seq<Seq<char>>) -> Seq<u16> {
    q.map_values(|x: Seq<char>| value_of(x, 16) as u16)
}

pub open spec fn zeros(n: nat) -> Seq<u16> {
    Seq::new(n, |i: int| 0u16)
}

/// The groups that colon-separated pieces stand for, read leniently: one
/// empty piece (two at the start) marks the zero groups left out.
pub open spec fn decode_groups(p: Seq<Seq<char>>) -> Option<Seq<u16>> {
    let e = first_empty(p, 0);
    if e == p.len() {
        if p.len() == 8 && hex_ok(p) {
            Some(hex_values(p))
        } else {
            None
        }
    } else {
        let left = p.subrange(0, e);
        let rest0 = p.subrange(e + 1, p.len() as int);
        if e == 0 && (rest0.len() == 0 || rest0[0].len() != 0) {
            None
        } else {
            let rest = if e == 0 { rest0.subrange(1, rest0.len() as int) } else { rest0 };
            let right = if rest.len() == 1 && rest[0].len() == 0 { Seq::empty() } else { rest };
            if left.len() + right.len() <= 7 && hex_ok(left) && hex_ok(right) {
                Some(hex_values(left) + zeros((8 - left.len() - right.len()) as nat) + hex_values(right))
            } else {
                None
            }
        }
    }
}

proof fn lemma_zero_run(s: Seq<u16>, i: int)
    requires
        0 <= i <= s.len(),
    ensures
        i + zero_run(s, i) <= s.len(),
        forall|k: int| i <= k < i + zero_run(s, i) ==> s[k] == 0,
    decreases s.len() - i,
{
    if i < s.len() && s[i] == 0 {
        lemma_zero_run(s, i + 1);
    }
}

proof fn lemma_longest_run(s: Seq<u16>, i: int)
    requires
        0 <= i <= s.len(),
    ensures
        i <= longest_run(s, i).0 <= s.len(),
        longest_run(s, i).1 == zero_run(s, longest_run(s, i).0),
    decreases s.len() - i,
{
    if i < s.len() {
        lemma_longest_run(s, i + 1);
    }
}

proof fn lemma_hexes(q: Seq<u16>)
    ensures
        hex_ok(hexes(q)),
        hex_values(hexes(q)) == q,
        hexes(q).len() == q.len(),
        forall|i: int| 0 <= i < q.len() ==> (#[trigger] hexes(q)[i]).len() > 0,
        forall|i: int, j: int| 0 <= i < q.len() && 0 <= j < hexes(q)[i].len() ==> char_value(
            #[trigger] hexes(q)[i][j],
        ) is Some,
{
    assert forall|i: int| 0 <= i < q.len() implies all_digits(#[trigger] hexes(q)[i], 16) && value_of(
        hexes(q)[i],
        16,
    ) == q[i] by {
        lemma_digits_of(q[i] as nat, 16);
    }
    assert forall|i: int, j: int| 0 <= i < q.len() && 0 <= j < hexes(q)[i].len() implies char_value(
        #[trigger] hexes(q)[i][j],
    ) is Some by {
        lemma_digits_of(q[i] as nat, 16);
        assert(is_digit(hexes(q)[i][j], 16));
    }
    assert(hex_values(hexes(q)) =~= q);
}

proof fn lemma_first_empty(p: Seq<Seq<char>>, i: int, j: int)
    requires
        0 <= i <= j <= p.len(),
        forall|k: int| i <= k < j ==> (#[trigger] p[k]).len() > 0,
        j == p.len() || p[j].len() == 0,
    ensures
        first_empty(p, i) == j,
    decreases j - i,
{
    if i < j {
        lemma_first_empty(p, i + 1, j);
    }
}

proof fn lemma_decode_compressed(s: Seq<u16>, st: int, ln: int)
    requires
        s.len() == 8,
        0 <= st,
        2 <= ln,
        st + ln <= 8,
        forall|k: int| st <= k < st + ln ==> s[k] == 0,
    ensures
        ({
            let e: Seq<Seq<char>> = seq![Seq::<char>::empty()];
            let lp = if st == 0 { e } else { hexes(s.subrange(0, st)) };
            let rp = if st + ln == 8 { e } else { hexes(s.subrange(st + ln, 8)) };
            decode_groups(lp + e + rp) == Some(s)
        }),
{
    let e: Seq<Seq<char>> = seq![Seq::<char>::empty()];
    let l = s.subrange(0, st);
    let r = s.subrange(st + ln, 8);
    lemma_hexes(l);
    lemma_hexes(r);
    let lp = if st == 0 { e } else { hexes(l) };
    let rp = if st + ln == 8 { e } else { hexes(r) };
    let p = lp + e + rp;
    if st == 0 {
        lemma_first_empty(p, 0, 0);
        assert(p.subrange(1, p.len() as int) =~= e + rp);
        assert((e + rp).subrange(1, (e + rp).len() as int) =~= rp);
        assert(p.subrange(0, 0) =~= Seq::<Seq<char>>::empty());
        assert(l =~= Seq::<u16>::empty());
    } else {
        lemma_first_empty(p, 0, st);
        assert(p.subrange(0, st) =~= hexes(l));
        assert(p.subrange(st + 1, p.len() as int) =~= rp);
    }
    if st + ln != 8 {
        assert(hexes(r)[0].len() > 0);
    } else {
        assert(r =~= Seq::<u16>::empty());
        assert(hex_values(Seq::<Seq<char>>::empty()) =~= r);
    }
    assert(hex_values(Seq::<Seq<char>>::empty()) =~= Seq::<u16>::empty());
    assert(l + zeros(ln as nat) + r =~= s);
}

/// Decoding the pieces of an address gives its groups back.
proof fn lemma_decode_pieces(a: Ipv6Addr)
    ensures
        decode_groups(ipv6_pieces(a)) == Some(segs(a)),
{
    let s = segs(a);
    let st = longest_run(s, 0).0;
    let ln = longest_run(s, 0).1 as int;
    lemma_longest_run(s, 0);
    lemma_zero_run(s, st);
    if ln < 2 {
        lemma_hexes(s);
        lemma_first_empty(hexes(s), 0, 8);
    } else {
        lemma_decode_compressed(s, st, ln);
    }
}

/// Every character of an IPv6 text is ':' or a hex digit.
pub proof fn lemma_ipv6_text_chars(a: Ipv6Addr)
    ensures
        forall|i: int| 0 <= i < ipv6_text(a).len() ==> (#[trigger] ipv6_text(a)[i] == ':' || char_value(
            ipv6_text(a)[i],
        ) is Some),
        all_free_of(ipv6_pieces(a), ':'),
        ipv6_pieces(a).len() >= 1,
{
    let s = segs(a);
    let st = longest_run(s, 0).0;
    let ln = longest_run(s, 0).1 as int;
    let p = ipv6_pieces(a);
    lemma_longest_run(s, 0);
    lemma_zero_run(s, st);
    lemma_hexes(s);
    lemma_hexes(s.subrange(0, st));
    lemma_hexes(s.subrange(st + ln, 8));
    let ok = |c: char| c == ':' || char_value(c) is Some;
    assert forall|i: int, j: int| 0 <= i < p.len() && 0 <= j < p[i].len() implies ok(
        #[trigger] p[i][j],
    ) by {
        if ln >= 2 {
            let e: Seq<Seq<char>> = seq![Seq::<char>::empty()];
            let lp = if st == 0 { e } else { hexes(s.subrange(0, st)) };
            let rp = if st + ln == 8 { e } else { hexes(s.subrange(st + ln, 8)) };
            assert(p == lp + e + rp);
            if i >= lp.len() + 1 {
                assert(p[i] == rp[i - lp.len() - 1]);
            } else if i < lp.len() {
                assert(p[i] == lp[i]);
            }
        }
    }
    lemma_join_chars(p, ':', ok);
    assert forall|i: int| 0 <= i < p.len() implies free_of(#[trigger] p[i], ':') by {
        assert forall|j: int| 0 <= j < p[i].len() implies p[i][j] != ':' by {
            assert(ok(p[i][j]));
        }
    }
}

/// An IPv6 text is never empty.
pub proof fn lemma_ipv6_text_nonempty(a: Ipv6Addr)
    ensures
        ipv6_pieces(a) != seq![Seq::<char>::empty()],
{
    let s = segs(a);
    let st = longest_run(s, 0).0;
    let ln = longest_run(s, 0).1 as int;
    lemma_hexes(s);
    lemma_longest_run(s, 0);
    lemma_zero_run(s, st);
    if ln < 2 {
        assert(ipv6_pieces(a).len() == 8);
    } else {
        lemma_hexes(s.subrange(0, st));
        lemma_hexes(s.subrange(st + ln, 8));
        assert(ipv6_pieces(a).len() >= 3);
    }
}

/// Different IPv6 addresses have different texts.
pub proof fn lemma_ipv6_text_injective(a: Ipv6Addr, b: Ipv6Addr)
    requires
        ipv6_text(a) == ipv6_text(b),
    ensures
        a == b,
{
    lemma_ipv6_text_chars(a);
    lemma_ipv6_text_chars(b);
    lemma_join_unique(ipv6_pieces(a), ipv6_pieces(b), ':');
    lemma_decode_pieces(a);
    lemma_decode_pieces(b);
    assert(segs(a) == segs(b));
    assert(segs(a)[0] == segs(b)[0]);
    assert(segs(a)[1] == segs(b)[1]);
    assert(segs(a)[2] == segs(b)[2]);
    assert(segs(a)[3] == segs(b)[3]);
    assert(segs(a)[4] == segs(b)[4]);
    assert(segs(a)[5] == segs(b)[5]);
    assert(segs(a)[6] == segs(b)[6]);
    assert(segs(a)[7] == segs(b)[7]);
}

/// The text of an IPv6 address parses back to it.
pub proof fn lemma_ipv6_parse_text(a: Ipv6Addr)
    ensures
        parse_ipv6_spec(ipv6_text(a)) == Some(a),
{
    let b = choose|b: Ipv6Addr| ipv6_text(b) == ipv6_text(a);
    lemma_ipv6_text_injective(a, b);
}


/// The eight groups of an IPv6 address.
pub fn segments_of(a: Ipv6Addr) -> (r: Vec<u16>)
    ensures
        r@ == segs(a),
{
    let r: Vec<u16> = vec![a.s0, a.s1, a.s2, a.s3, a.s4, a.s5, a.s6, a.s7];
    assert(r@ =~= segs(a));
    r
}

/// Start and length of the first longest run of zero groups.
pub fn longest_zero_run(s: &Vec<u16>) -> (r: (usize, usize))
    requires
        s@.len() == 8,
    ensures
        r.0 as int == longest_run(s@, 0).0,
        r.1 as nat == longest_run(s@, 0).1,
{
    let mut i: usize = 8;
    let mut run: usize = 0;
    let mut best_start: usize = 8;
    let mut best_len: usize = 0;
    while i > 0
        invariant
            s@.len() == 8,
            i <= 8,
            run <= 8 - i,
            run as nat == zero_run(s@, i as int),
            best_start as int == longest_run(s@, i as int).0,
            best_len as nat == longest_run(s@, i as int).1,
        decreases i,
    {
        i = i - 1;
        if s[i] == 0 {
            run = run + 1;
        } else {
            run = 0;
        }
        if run >= best_len {
            best_start = i;
            best_len = run;
        }
    }
    (best_start, best_len)
}

/// Appends the hex text of the groups `lo..hi` as pieces.
fn push_hexes(v: &Vec<u16>, lo: usize, hi: usize, p: &mut Vec<Vec<char>>)
    requires
        lo <= hi <= v@.len(),
    ensures
        final(p).deep_view() == old(p).deep_view() + hexes(v@.subrange(lo as int, hi as int)),
{
    let ghost start = p.deep_view();
    let mut i: usize = lo;
    while i < hi
        invariant
            lo <= i <= hi <= v@.len(),
            p.deep_view() == start + hexes(v@.subrange(lo as int, i as int)),
        decreases hi - i,
    {
        let ghost before = p.deep_view();
        let mut x: Vec<char> = Vec::new();
        push_digits(v[i] as u64, 16, &mut x);
        let ghost xv = x@;
        p.push(x);
        assert(p@[p@.len() - 1].deep_view() =~= xv);
        assert(p.deep_view() =~= before.push(xv));
        assert(hexes(v@.subrange(lo as int, i + 1)) =~= hexes(v@.subrange(lo as int, i as int)).push(
            xv,
        ));
        i = i + 1;
    }
}

/// Appends the canonical text of an IPv6 address.
pub fn push_ipv6(a: Ipv6Addr, out: &mut Vec<char>)
    ensures
        final(out)@ == old(out)@ + ipv6_text(a),
{
    let v = segments_of(a);
    let (st, ln) = longest_zero_run(&v);
    proof {
        lemma_longest_run(v@, 0);
        lemma_zero_run(v@, st as int);
    }
    let mut p: Vec<Vec<char>> = Vec::new();
    let ghost e: Seq<Seq<char>> = seq![Seq::<char>::empty()];
    if ln < 2 {
        push_hexes(&v, 0, 8, &mut p);
        assert(v@.subrange(0, 8) =~= v@);
        assert(p.deep_view() =~= hexes(v@));
    } else {
        if st == 0 {
            p.push(Vec::new());
            assert(p@[0].deep_view() =~= Seq::<char>::empty());
            assert(p.deep_view() =~= e);
        } else {
            push_hexes(&v, 0, st, &mut p);
        }
        let ghost lp = p.deep_view();
        p.push(Vec::new());
        assert(p@[p@.len() - 1].deep_view() =~= Seq::<char>::empty());
        assert(p.deep_view() =~= lp + e);
        let ghost mp = p.deep_view();
        if st + ln == 8 {
            p.push(Vec::new());
            assert(p@[p@.len() - 1].deep_view() =~= Seq::<char>::empty());
            assert(p.deep_view() =~= mp + e);
        } else {
            push_hexes(&v, st + ln, 8, &mut p);
        }
        assert(p.deep_view() =~= ipv6_pieces(a));
    }
    push_joined(&p, ':', out);
}

/// Reads the groups `lo..hi` as hex numbers of at most four digits' value.
fn parse_groups(p: &Vec<Vec<char>>, lo: usize, hi: usize, out: &mut Vec<u16>) -> (r: bool)
    requires
        lo <= hi <= p@.len(),
    ensures
        r == hex_ok(p.deep_view().subrange(lo as int, hi as int)),
        r ==> final(out)@ == old(out)@ + hex_values(p.deep_view().subrange(lo as int, hi as int)),
{
    let ghost start = out@;
    let ghost pv = p.deep_view();
    let mut i: usize = lo;
    while i < hi
        invariant
            lo <= i <= hi <= p@.len(),
            pv == p.deep_view(),
            hex_ok(pv.subrange(lo as int, i as int)),
            out@ == start + hex_values(pv.subrange(lo as int, i as int)),
        decreases hi - i,
    {
        assert(p@[i as int].deep_view() =~= p@[i as int]@);
        assert(pv.subrange(lo as int, i + 1) =~= pv.subrange(lo as int, i as int).push(pv[i as int]));
        match parse_number(&p[i], 16, 0xffff) {
            Some(x) => {
                out.push(x as u16);
                assert(hex_values(pv.subrange(lo as int, i + 1)) =~= hex_values(
                    pv.subrange(lo as int, i as int),
                ).push(x as u16));
                assert(hex_ok(pv.subrange(lo as int, i + 1))) by {
                    assert forall|k: int| 0 <= k < i + 1 - lo implies all_digits(
                        #[trigger] pv.subrange(lo as int, i + 1)[k],
                        16,
                    ) && value_of(pv.subrange(lo as int, i + 1)[k], 16) <= 0xffff by {
                        if k < i - lo {
                            assert(pv.subrange(lo as int, i + 1)[k] == pv.subrange(lo as int, i as int)[k]);
                        }
                    }
                }
            },
            None => {
                assert(pv.subrange(lo as int, hi as int)[i - lo] == pv[i as int]);
                return false;
            },
        }
        i = i + 1;
    }
    true
}

/// The groups that colon-separated pieces stand for, read leniently.
fn decode_pieces(p: &Vec<Vec<char>>) -> (r: Option<Vec<u16>>)
    ensures
        match r {
            Some(v) => decode_groups(p.deep_view()) == Some(v@),
            None => decode_groups(p.deep_view()) is None,
        },
{
    let ghost pv = p.deep_view();
    let n = p.len();
    let mut e: usize = 0;
    while e < n && p[e].len() != 0
        invariant
            e <= n == p@.len(),
            pv == p.deep_view(),
            forall|k: int| 0 <= k < e ==> (#[trigger] pv[k]).len() > 0,
        decreases n - e,
    {
        assert(p@[e as int].deep_view() =~= p@[e as int]@);
        e = e + 1;
    }
    proof {
        if e < n {
            assert(p@[e as int].deep_view() =~= p@[e as int]@);
        }
        lemma_first_empty(pv, 0, e as int);
    }
    let mut v: Vec<u16> = Vec::new();
    if e == n {
        if n != 8 {
            return None;
        }
        if !parse_groups(p, 0, 8, &mut v) {
            assert(pv.subrange(0, 8) =~= pv);
            return None;
        }
        assert(pv.subrange(0, 8) =~= pv);
        assert(v@ =~= hex_values(pv));
        return Some(v);
    }
    let mut r0: usize = e + 1;
    if e == 0 {
        if r0 >= n || p[r0].len() != 0 {
            proof {
                if r0 < n {
                    assert(p@[r0 as int].deep_view() =~= p@[r0 as int]@);
                    assert(pv.subrange(1, n as int)[0] == pv[1]);
                }
            }
            return None;
        }
        assert(p@[r0 as int].deep_view() =~= p@[r0 as int]@);
        assert(pv.subrange(1, n as int)[0] == pv[1]);
        assert(pv.subrange(1, n as int).subrange(1, n - 1) =~= pv.subrange(2, n as int));
        r0 = r0 + 1;
    }
    let ghost rest = pv.subrange(r0 as int, n as int);
    let mut r1: usize = n;
    if n - r0 == 1 && p[r0].len() == 0 {
        assert(p@[r0 as int].deep_view() =~= p@[r0 as int]@);
        assert(rest[0] == pv[r0 as int]);
        r1 = r0;
        assert(pv.subrange(r0 as int, r1 as int) =~= Seq::<Seq<char>>::empty());
    } else {
        proof {
            if n - r0 == 1 {
                assert(p@[r0 as int].deep_view() =~= p@[r0 as int]@);
                assert(rest[0] == pv[r0 as int]);
            }
        }
    }
    let ghost right = pv.subrange(r0 as int, r1 as int);
    let ghost left = pv.subrange(0, e as int);
    if e + (r1 - r0) > 7 {
        return None;
    }
    if !parse_groups(p, 0, e, &mut v) {
        return None;
    }
    let nz: usize = 8 - e - (r1 - r0);
    let mut k: usize = 0;
    let ghost mid = v@;
    while k < nz
        invariant
            k <= nz,
            v@ == mid + zeros(k as nat),
        decreases nz - k,
    {
        v.push(0);
        assert(zeros((k + 1) as nat) =~= zeros(k as nat).push(0u16));
        k = k + 1;
    }
    if !parse_groups(p, r0, r1, &mut v) {
        return None;
    }
    assert(v@ =~= hex_values(left) + zeros(nz as nat) + hex_values(right));
    Some(v)
}

/// Reads an IPv6 address from its canonical text.
pub fn parse_ipv6(s: &Vec<char>) -> (r: Option<Ipv6Addr>)
    ensures
        r == parse_ipv6_spec(s@),
{
    let p = split(s, ':');
    let ghost pv = p.deep_view();
    let d = decode_pieces(&p);
    match d {
        None => {
            proof {
                assert forall|a: Ipv6Addr| ipv6_text(a) != s@ by {
                    if ipv6_text(a) == s@ {
                        lemma_ipv6_text_chars(a);
                        lemma_join_unique(pv, ipv6_pieces(a), ':');
                        lemma_decode_pieces(a);
                    }
                }
            }
            None
        },
        Some(v) => {
            let cand = Ipv6Addr {
                s0: v[0],
                s1: v[1],
                s2: v[2],
                s3: v[3],
                s4: v[4],
                s5: v[5],
                s6: v[6],
                s7: v[7],
            };
            let mut t: Vec<char> = Vec::new();
            push_ipv6(cand, &mut t);
            assert(t@ =~= ipv6_text(cand));
            if same_chars(&t, s) {
                proof {
                    lemma_ipv6_parse_text(cand);
                }
                Some(cand)
            } else {
                proof {
                    assert forall|a: Ipv6Addr| ipv6_text(a) != s@ by {
                        if ipv6_text(a) == s@ {
                            lemma_ipv6_text_chars(a);
                            lemma_join_unique(pv, ipv6_pieces(a), ':');
                            lemma_decode_pieces(a);
                            assert(v@ == segs(a));
                            assert(v@[0] == segs(a)[0]);
                            assert(v@[1] == segs(a)[1]);
                            assert(v@[2] == segs(a)[2]);
                            assert(v@[3] == segs(a)[3]);
                            assert(v@[4] == segs(a)[4]);
                            assert(v@[5] == segs(a)[5]);
                            assert(v@[6] == segs(a)[6]);
                            assert(v@[7] == segs(a)[7]);
                            assert(cand == a);
                        }
                    }
                }
                None
            }
        },
    }
}


/// An IPv4 or IPv6 address.
#[derive(Clone, Copy, Debug, PartialEq, Eq)]
pub enum IpAddr {
    V4(Ipv4Addr),
    V6(Ipv6Addr),
}

/// The canonical text of an address.
pub open spec fn ip_text(a: IpAddr) -> Seq<char> {
    match a {
        IpAddr::V4(x) => ipv4_text(x),
        IpAddr::V6(x) => ipv6_text(x),
    }
}

/// The address whose text is `s`, if there is one.
pub open spec fn parse_ip_spec(s: Seq<char>) -> Option<IpAddr> {
    if exists|a: IpAddr| ip_text(a) == s {
        Some(choose|a: IpAddr| ip_text(a) == s)
    } else {
        None
    }
}

/// An IPv4 text holds a '.', an IPv6 text none.
proof fn lemma_families_differ(a: Ipv4Addr, b: Ipv6Addr)
    ensures
        ipv4_text(a) != ipv6_text(b),
{
    lemma_ipv4_text_chars(a);
    lemma_ipv6_text_chars(b);
    let i = choose|i: int| 0 <= i < ipv4_text(a).len() && ipv4_text(a)[i] == '.';
    if ipv4_text(a) == ipv6_text(b) {
        assert(ipv6_text(b)[i] == ':' || char_value(ipv6_text(b)[i]) is Some);
    }
}

/// Different addresses have different texts.
pub proof fn lemma_ip_text_injective(a: IpAddr, b: IpAddr)
    requires
        ip_text(a) == ip_text(b),
    ensures
        a == b,
{
    match (a, b) {
        (IpAddr::V4(x), IpAddr::V4(y)) => lemma_ipv4_text_injective(x, y),
        (IpAddr::V6(x), IpAddr::V6(y)) => lemma_ipv6_text_injective(x, y),
        (IpAddr::V4(x), IpAddr::V6(y)) => lemma_families_differ(x, y),
        (IpAddr::V6(x), IpAddr::V4(y)) => lemma_families_differ(y, x),
    }
}

/// The text of an address parses back to it.
pub proof fn lemma_ip_parse_text(a: IpAddr)
    ensures
        parse_ip_spec(ip_text(a)) == Some(a),
{
    let b = choose|b: IpAddr| ip_text(b) == ip_text(a);
    lemma_ip_text_injective(a, b);
}

/// An address text holds no '/' or ']' and does not start with '['.
proof fn lemma_ip_text_chars(a: IpAddr)
    ensures
        free_of(ip_text(a), '/'),
        free_of(ip_text(a), ']'),
{
    match a {
        IpAddr::V4(x) => lemma_ipv4_text_chars(x),
        IpAddr::V6(x) => {
            lemma_ipv6_text_chars(x);
            assert forall|i: int| 0 <= i < ipv6_text(x).len() implies ipv6_text(x)[i] != '/' && ipv6_text(x)[i] != ']' by {
                assert(ipv6_text(x)[i] == ':' || char_value(ipv6_text(x)[i]) is Some);
            }
        },
    }
}

/// Appends the canonical text of an address.
pub fn push_ip(a: IpAddr, out: &mut Vec<char>)
    ensures
        final(out)@ == old(out)@ + ip_text(a),
{
    match a {
        IpAddr::V4(x) => push_ipv4(x, out),
        IpAddr::V6(x) => push_ipv6(x, out),
    }
}

/// Reads an address from its canonical text.
pub fn parse_ip(s: &Vec<char>) -> (r: Option<IpAddr>)
    ensures
        r == parse_ip_spec(s@),
{
    match parse_ipv4(s) {
        Some(x) => {
            proof {
                lemma_ipv4_parse_text(x);
                lemma_ip_parse_text(IpAddr::V4(x));
            }
            Some(IpAddr::V4(x))
        },
        None => match parse_ipv6(s) {
            Some(y) => {
                proof {
                    lemma_ipv6_parse_text(y);
                    lemma_ip_parse_text(IpAddr::V6(y));
                }
                Some(IpAddr::V6(y))
            },
            None => {
                proof {
                    assert forall|a: IpAddr| ip_text(a) != s@ by {
                        match a {
                            IpAddr::V4(x) => {},
                            IpAddr::V6(y) => {},
                        }
                    }
                }
                None
            },
        },
    }
}

/// A socket endpoint: an address and a port.
#[derive(Clone, Copy, Debug, PartialEq, Eq)]
pub struct SocketAddr {
    pub ip: IpAddr,
    pub port: u16,
}

/// The pieces of an endpoint's text around its separator (':' for IPv4,
/// ']' for IPv6).
pub open spec fn socket_pieces(a: SocketAddr) -> Seq<Seq<char>> {
    match a.ip {
        IpAddr::V4(x) => seq![ipv4_text(x), dec(a.port as nat)],
        IpAddr::V6(x) => seq![seq!['['] + ipv6_text(x), seq![':'] + dec(a.port as nat)],
    }
}

pub open spec fn socket_sep(a: SocketAddr) -> char {
    if a.ip is V4 { ':' } else { ']' }
}

/// The canonical text of an endpoint: `a.b.c.d:port` or `[v6]:port`.
pub open spec fn socket_text(a: SocketAddr) -> Seq<char> {
    join(socket_pieces(a), socket_sep(a))
}

/// The endpoint whose text is `s`, if there is one.
pub open spec fn parse_socket_spec(s: Seq<char>) -> Option<SocketAddr> {
    if exists|a: SocketAddr| socket_text(a) == s {
        Some(choose|a: SocketAddr| socket_text(a) == s)
    } else {
        None
    }
}

proof fn lemma_socket_pieces(a: SocketAddr)
    ensures
        all_free_of(socket_pieces(a), socket_sep(a)),
        socket_text(a).len() > 0,
        (socket_text(a)[0] == '[') == (a.ip is V6),
{
    lemma_dec(a.port as nat);
    match a.ip {
        IpAddr::V4(x) => {
            lemma_ipv4_text_chars(x);
            lemma_join2(ipv4_text(x), dec(a.port as nat), ':');
            assert(socket_text(a)[0] == ipv4_text(x)[0]);
        },
        IpAddr::V6(x) => {
            lemma_ip_text_chars(a.ip);
            let p = socket_pieces(a);
            assert(free_of(p[0], ']')) by {
                assert forall|i: int| 0 <= i < p[0].len() implies p[0][i] != ']' by {
                    if i > 0 {
                        assert(p[0][i] == ipv6_text(x)[i - 1]);
                    }
                }
            }
            assert(free_of(p[1], ']')) by {
                assert forall|i: int| 0 <= i < p[1].len() implies p[1][i] != ']' by {
                    if i > 0 {
                        assert(p[1][i] == dec(a.port as nat)[i - 1]);
                    }
                }
            }
            lemma_join2(p[0], p[1], ']');
            assert(socket_text(a)[0] == p[0][0]);
        },
    }
}

/// Different endpoints have different texts.
pub proof fn lemma_socket_text_injective(a: SocketAddr, b: SocketAddr)
    requires
        socket_text(a) == socket_text(b),
    ensures
        a == b,
{
    lemma_socket_pieces(a);
    lemma_socket_pieces(b);
    lemma_join_unique(socket_pieces(a), socket_pieces(b), socket_sep(a));
    let pa = socket_pieces(a);
    let pb = socket_pieces(b);
    assert(pa[0] == pb[0] && pa[1] == pb[1]);
    lemma_dec(a.port as nat);
    lemma_dec(b.port as nat);
    match (a.ip, b.ip) {
        (IpAddr::V4(x), IpAddr::V4(y)) => {
            lemma_ipv4_text_injective(x, y);
        },
        (IpAddr::V6(x), IpAddr::V6(y)) => {
            assert(pa[0].subrange(1, pa[0].len() as int) =~= ipv6_text(x));
            assert(pb[0].subrange(1, pb[0].len() as int) =~= ipv6_text(y));
            lemma_ipv6_text_injective(x, y);
            assert(pa[1].subrange(1, pa[1].len() as int) =~= dec(a.port as nat));
            assert(pb[1].subrange(1, pb[1].len() as int) =~= dec(b.port as nat));
        },
        _ => {},
    }
}

/// The text of an endpoint parses back to it.
pub proof fn lemma_socket_parse_text(a: SocketAddr)
    ensures
        parse_socket_spec(socket_text(a)) == Some(a),
{
    let b = choose|b: SocketAddr| socket_text(b) == socket_text(a);
    lemma_socket_text_injective(a, b);
}

/// The characters of `v` from `from` on.
pub fn tail(v: &Vec<char>, from: usize) -> (r: Vec<char>)
    requires
        from <= v@.len(),
    ensures
        r@ == v@.subrange(from as int, v@.len() as int),
{
    let mut r: Vec<char> = Vec::new();
    let mut i: usize = from;
    while i < v.len()
        invariant
            from <= i <= v@.len(),
            r@ == v@.subrange(from as int, i as int),
        decreases v.len() - i,
    {
        r.push(v[i]);
        assert(v@.subrange(from as int, i + 1) =~= v@.subrange(from as int, i as int).push(v@[i as int]));
        i = i + 1;
    }
    r
}

/// Appends the canonical text of an endpoint.
pub fn push_socket(a: SocketAddr, out: &mut Vec<char>)
    ensures
        final(out)@ == old(out)@ + socket_text(a),
{
    let ghost start = out@;
    proof {
        lemma_join2(socket_pieces(a)[0], socket_pieces(a)[1], socket_sep(a));
    }
    match a.ip {
        IpAddr::V4(x) => {
            push_ipv4(x, out);
            out.push(':');
            push_digits(a.port as u64, 10, out);
            assert(out@ =~= start + (ipv4_text(x).push(':') + dec(a.port as nat)));
        },
        IpAddr::V6(x) => {
            out.push('[');
            push_ipv6(x, out);
            out.push(']');
            out.push(':');
            push_digits(a.port as u64, 10, out);
            assert(out@ =~= start + ((seq!['['] + ipv6_text(x)).push(']') + (seq![':'] + dec(
                a.port as nat,
            ))));
        },
    }
}

/// Reads two pieces split at `sep`, the first and second as given back.
fn split_pair(s: &Vec<char>, sep: char) -> (r: Option<(Vec<char>, Vec<char>)>)
    ensures
        match r {
            Some((x, y)) => x@.push(sep) + y@ == s@ && free_of(x@, sep) && free_of(y@, sep),
            None => forall|x: Seq<char>, y: Seq<char>|
                free_of(x, sep) && free_of(y, sep) ==> join(seq![x, y], sep) != s@,
        },
{
    let mut p = split(s, sep);
    let ghost pv = p.deep_view();
    if p.len() != 2 {
        proof {
            assert forall|x: Seq<char>, y: Seq<char>|
                free_of(x, sep) && free_of(y, sep) implies join(seq![x, y], sep) != s@ by {
                if join(seq![x, y], sep) == s@ {
                    lemma_join_unique(pv, seq![x, y], sep);
                }
            }
        }
        return None;
    }
    assert(p@[0].deep_view() =~= p@[0]@);
    assert(p@[1].deep_view() =~= p@[1]@);
    assert(free_of(pv[0], sep) && free_of(pv[1], sep));
    let y = p.pop().unwrap();
    let x = p.pop().unwrap();
    assert(pv =~= seq![pv[0], pv[1]]);
    proof {
        lemma_join2(pv[0], pv[1], sep);
    }
    Some((x, y))
}

/// Reads an endpoint from its canonical text.
pub fn parse_socket(s: &Vec<char>) -> (r: Option<SocketAddr>)
    ensures
        r == parse_socket_spec(s@),
{
    let cand: SocketAddr;
    if s.len() > 0 && s[0] == '[' {
        match split_pair(s, ']') {
            None => {
                proof {
                    assert forall|a: SocketAddr| socket_text(a) != s@ by {
                        if socket_text(a) == s@ {
                            lemma_socket_pieces(a);
                            let p = socket_pieces(a);
                            assert(p =~= seq![p[0], p[1]]);
                        }
                    }
                }
                return None;
            },
            Some((x, y)) => {
                if x.len() == 0 || y.len() == 0 || y[0] != ':' {
                    proof {
                        assert forall|a: SocketAddr| socket_text(a) != s@ by {
                            if socket_text(a) == s@ {
                                lemma_socket_pieces(a);
                                let p = socket_pieces(a);
                                lemma_join2(x@, y@, ']');
                                lemma_join2(p[0], p[1], ']');
                                assert(p =~= seq![p[0], p[1]]);
                                lemma_join_unique(seq![x@, y@], p, ']');
                            }
                        }
                    }
                    return None;
                }
                let t = tail(&x, 1);
                let d = tail(&y, 1);
                match (parse_ipv6(&t), parse_number(&d, 10, 65535)) {
                    (Some(ip), Some(port)) => {
                        cand = SocketAddr { ip: IpAddr::V6(ip), port: port as u16 };
                        assert forall|a: SocketAddr| socket_text(a) == s@ implies cand == a by {
                            lemma_socket_pieces(a);
                            let p = socket_pieces(a);
                            lemma_join2(x@, y@, ']');
                            lemma_join2(p[0], p[1], ']');
                            assert(p =~= seq![p[0], p[1]]);
                            lemma_join_unique(seq![x@, y@], p, ']');
                            let ip6 = a.ip->V6_0;
                            assert(t@ =~= ipv6_text(ip6));
                            lemma_ipv6_parse_text(ip6);
                            assert(d@ =~= dec(a.port as nat));
                            lemma_dec(a.port as nat);
                        }
                    },
                    _ => {
                        proof {
                            assert forall|a: SocketAddr| socket_text(a) != s@ by {
                                if socket_text(a) == s@ {
                                    lemma_socket_pieces(a);
                                    let p = socket_pieces(a);
                                    lemma_join2(x@, y@, ']');
                                lemma_join2(p[0], p[1], ']');
                                assert(p =~= seq![p[0], p[1]]);
                                lemma_join_unique(seq![x@, y@], p, ']');
                                    let ip = a.ip->V6_0;
                                    assert(t@ =~= ipv6_text(ip));
                                    lemma_ipv6_parse_text(ip);
                                    assert(d@ =~= dec(a.port as nat));
                                    lemma_dec(a.port as nat);
                                }
                            }
                        }
                        return None;
                    },
                }
            },
        }
    } else {
        match split_pair(s, ':') {
            None => {
                proof {
                    assert forall|a: SocketAddr| socket_text(a) != s@ by {
                        if socket_text(a) == s@ {
                            lemma_socket_pieces(a);
                            let p = socket_pieces(a);
                            assert(p =~= seq![p[0], p[1]]);
                        }
                    }
                }
                return None;
            },
            Some((x, y)) => {
                match (parse_ipv4(&x), parse_number(&y, 10, 65535)) {
                    (Some(ip), Some(port)) => {
                        cand = SocketAddr { ip: IpAddr::V4(ip), port: port as u16 };
                        assert forall|a: SocketAddr| socket_text(a) == s@ implies cand == a by {
                            lemma_socket_pieces(a);
                            let p = socket_pieces(a);
                            lemma_join2(x@, y@, ':');
                            lemma_join2(p[0], p[1], ':');
                            assert(p =~= seq![p[0], p[1]]);
                            lemma_join_unique(seq![x@, y@], p, ':');
                            lemma_ipv4_parse_text(a.ip->V4_0);
                            lemma_dec(a.port as nat);
                        }
                    },
                    _ => {
                        proof {
                            assert forall|a: SocketAddr| socket_text(a) != s@ by {
                                if socket_text(a) == s@ {
                                    lemma_socket_pieces(a);
                                    let p = socket_pieces(a);
                                    lemma_join2(x@, y@, ':');
                                    lemma_join2(p[0], p[1], ':');
                                    assert(p =~= seq![p[0], p[1]]);
                                    lemma_join_unique(seq![x@, y@], p, ':');
                                    lemma_ipv4_parse_text(a.ip->V4_0);
                                    lemma_dec(a.port as nat);
                                }
                            }
                        }
                        return None;
                    },
                }
            },
        }
    }
    let mut t: Vec<char> = Vec::new();
    push_socket(cand, &mut t);
    assert(t@ =~= socket_text(cand));
    if same_chars(&t, s) {
        proof {
            lemma_socket_parse_text(cand);
        }
        Some(cand)
    } else {
        proof {
            assert forall|a: SocketAddr| socket_text(a) != s@ by {
                if socket_text(a) == s@ {
                    assert(cand == a);
                }
            }
        }
        None
    }
}


/// An IP network: an address and a prefix length.
#[derive(Clone, Copy, Debug, PartialEq, Eq)]
pub struct IpNetwork {
    pub ip: IpAddr,
    pub prefix: u8,
}

/// The largest prefix length of an address family.
pub open spec fn max_prefix(ip: IpAddr) -> nat {
    if ip is V4 { 32 } else { 128 }
}

impl IpNetwork {
    /// The prefix length fits the address family.
    pub open spec fn wf(&self) -> bool {
        self.prefix <= max_prefix(self.ip)
    }
}

/// The canonical text of a network: `address/prefix`.
pub open spec fn network_text(n: IpNetwork) -> Seq<char> {
    join(seq![ip_text(n.ip), dec(n.prefix as nat)], '/')
}

/// The valid network whose text is `s`, if there is one.
pub open spec fn parse_network_spec(s: Seq<char>) -> Option<IpNetwork> {
    if exists|n: IpNetwork| n.wf() && network_text(n) == s {
        Some(choose|n: IpNetwork| n.wf() && network_text(n) == s)
    } else {
        None
    }
}

proof fn lemma_network_pieces(n: IpNetwork)
    ensures
        free_of(ip_text(n.ip), '/'),
        free_of(dec(n.prefix as nat), '/'),
        network_text(n) == ip_text(n.ip).push('/') + dec(n.prefix as nat),
{
    lemma_ip_text_chars(n.ip);
    lemma_dec(n.prefix as nat);
    lemma_join2(ip_text(n.ip), dec(n.prefix as nat), '/');
}

/// Different networks have different texts.
pub proof fn lemma_network_text_injective(a: IpNetwork, b: IpNetwork)
    requires
        network_text(a) == network_text(b),
    ensures
        a == b,
{
    lemma_network_pieces(a);
    lemma_network_pieces(b);
    let pa = seq![ip_text(a.ip), dec(a.prefix as nat)];
    let pb = seq![ip_text(b.ip), dec(b.prefix as nat)];
    lemma_join_unique(pa, pb, '/');
    assert(pa[0] == pb[0] && pa[1] == pb[1]);
    lemma_ip_text_injective(a.ip, b.ip);
    lemma_dec(a.prefix as nat);
    lemma_dec(b.prefix as nat);
}

/// The text of a valid network parses back to it.
pub proof fn lemma_network_parse_text(n: IpNetwork)
    requires
        n.wf(),
    ensures
        parse_network_spec(network_text(n)) == Some(n),
{
    let b = choose|b: IpNetwork| b.wf() && network_text(b) == network_text(n);
    lemma_network_text_injective(n, b);
}

/// Appends the canonical text of a network.
pub fn push_network(n: IpNetwork, out: &mut Vec<char>)
    ensures
        final(out)@ == old(out)@ + network_text(n),
{
    let ghost start = out@;
    proof {
        lemma_network_pieces(n);
    }
    push_ip(n.ip, out);
    out.push('/');
    push_digits(n.prefix as u64, 10, out);
    assert(out@ =~= start + (ip_text(n.ip).push('/') + dec(n.prefix as nat)));
}

/// Reads a valid network from its canonical text.
pub fn parse_network(s: &Vec<char>) -> (r: Option<IpNetwork>)
    ensures
        r == parse_network_spec(s@),
{
    let pair = split_pair(s, '/');
    if pair.is_none() {
        proof {
            assert forall|n: IpNetwork| !(n.wf() && network_text(n) == s@) by {
                lemma_network_pieces(n);
            }
        }
        return None;
    }
    let (x, y) = pair.unwrap();
    let ip = parse_ip(&x);
    if ip.is_none() {
        proof {
            assert forall|n: IpNetwork| !(n.wf() && network_text(n) == s@) by {
                if n.wf() && network_text(n) == s@ {
                    lemma_network_pieces(n);
                    lemma_join2(x@, y@, '/');
                    lemma_join_unique(seq![x@, y@], seq![ip_text(n.ip), dec(n.prefix as nat)], '/');
                    lemma_ip_parse_text(n.ip);
                }
            }
        }
        return None;
    }
    let ip = ip.unwrap();
    let max: u64 = match ip {
        IpAddr::V4(_) => 32,
        IpAddr::V6(_) => 128,
    };
    let prefix = parse_number(&y, 10, max);
    if prefix.is_none() {
        proof {
            assert forall|n: IpNetwork| !(n.wf() && network_text(n) == s@) by {
                if n.wf() && network_text(n) == s@ {
                    lemma_network_pieces(n);
                    lemma_join2(x@, y@, '/');
                    lemma_join_unique(seq![x@, y@], seq![ip_text(n.ip), dec(n.prefix as nat)], '/');
                    lemma_ip_parse_text(n.ip);
                    lemma_dec(n.prefix as nat);
                }
            }
        }
        return None;
    }
    let cand = IpNetwork { ip, prefix: prefix.unwrap() as u8 };
    proof {
        assert forall|n: IpNetwork| n.wf() && network_text(n) == s@ implies cand == n by {
            lemma_network_pieces(n);
            lemma_join2(x@, y@, '/');
            lemma_join_unique(seq![x@, y@], seq![ip_text(n.ip), dec(n.prefix as nat)], '/');
            lemma_ip_parse_text(n.ip);
            lemma_dec(n.prefix as nat);
        }
    }
    let mut t: Vec<char> = Vec::new();
    push_network(cand, &mut t);
    assert(t@ =~= network_text(cand));
    if same_chars(&t, s) {
        proof {
            lemma_network_parse_text(cand);
        }
        Some(cand)
    } else {
        None
    }
}

} // verus!
