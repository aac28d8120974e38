//! Digits, numbers and separated lists as sequences of characters.

use vstd::prelude::*;

verus! {

/// The character of digit `d` (lower case for the digits above nine).
pub open spec fn digit_char(d: nat) -> char {
    if d == 0 { '0' } else if d == 1 { '1' } else if d == 2 { '2' } else if d == 3 { '3' }
    else if d == 4 { '4' } else if d == 5 { '5' } else if d == 6 { '6' } else if d == 7 { '7' }
    else if d == 8 { '8' } else if d == 9 { '9' } else if d == 10 { 'a' } else if d == 11 { 'b' }
    else if d == 12 { 'c' } else if d == 13 { 'd' } else if d == 14 { 'e' } else { 'f' }
}

/// The value of a digit character, if `c` is one (lower case only).
pub open spec fn char_value(c: char) -> Option<nat> {
    if c == '0' { Some(0) } else if c == '1' { Some(1) } else if c == '2' { Some(2) }
    else if c == '3' { Some(3) } else if c == '4' { Some(4) } else if c == '5' { Some(5) }
    else if c == '6' { Some(6) } else if c == '7' { Some(7) } else if c == '8' { Some(8) }
    else if c == '9' { Some(9) } else if c == 'a' { Some(10) } else if c == 'b' { Some(11) }
    else if c == 'c' { Some(12) } else if c == 'd' { Some(13) } else if c == 'e' { Some(14) }
    else if c == 'f' { Some(15) } else { None }
}

/// `c` is a digit of base `b`.
pub open spec fn is_digit(c: char, b: nat) -> bool {
    char_value(c) is Some && char_value(c)->0 < b
}

/// The shortest digit string of `n` in base `b` (no leading zeros).
pub open spec fn digits_of(n: nat, b: nat) -> Seq<char>
    decreases n via digits_of_decreases
{
    if b < 2 {
        Seq::empty()
    } else if n < b {
        seq![digit_char(n)]
    } else {
        digits_of(n / b, b).push(digit_char(n % b))
    }
}

#[via_fn]
proof fn digits_of_decreases(n: nat, b: nat) {
    if b >= 2 && n >= b {
        assert(n / b < n) by (nonlinear_arith)
            requires b >= 2, n >= b;
    }
}

/// The number that the digit string `s` denotes in base `b`.
pub open spec fn value_of(s: Seq<char>, b: nat) -> nat
    decreases s.len(),
{
    if s.len() == 0 {
        0
    } else {
        value_of(s.drop_last(), b) * b + match char_value(s.last()) {
            Some(v) => v,
            None => 0,
        }
    }
}

/// `s` is a non-empty string of base-`b` digits.
pub open spec fn all_digits(s: Seq<char>, b: nat) -> bool {
    s.len() > 0 && forall|i: int| 0 <= i < s.len() ==> is_digit(#[trigger] s[i], b)
}

/// The pieces joined, with `sep` between each two.
pub open spec fn join(p: Seq<Seq<char>>, sep: char) -> Seq<char>
    decreases p.len(),
{
    if p.len() == 0 {
        Seq::empty()
    } else if p.len() == 1 {
        p[0]
    } else {
        join(p.drop_last(), sep).push(sep) + p.last()
    }
}

/// `s` does not hold `c`.
pub open spec fn free_of(s: Seq<char>, c: char) -> bool {
    forall|i: int| 0 <= i < s.len() ==> s[i] != c
}

/// No piece holds `c`.
pub open spec fn all_free_of(p: Seq<Seq<char>>, c: char) -> bool {
    forall|i: int| 0 <= i < p.len() ==> free_of(#[trigger] p[i], c)
}

pub proof fn lemma_digit_round_trip(d: nat)
    requires
        d < 16,
    ensures
        char_value(digit_char(d)) == Some(d),
{
}

pub proof fn lemma_digits_of(n: nat, b: nat)
    requires
        2 <= b <= 16,
    ensures
        all_digits(digits_of(n, b), b),
        value_of(digits_of(n, b), b) == n,
    decreases n,
{
    if n < b {
        lemma_digit_round_trip(n);
        assert(digits_of(n, b).drop_last() =~= Seq::<char>::empty());
        assert(value_of(Seq::<char>::empty(), b) == 0);
        assert(value_of(digits_of(n, b), b) == 0 * b + n);
    } else {
        assert(n / b < n) by (nonlinear_arith)
            requires b >= 2, n >= b;
        lemma_digits_of(n / b, b);
        lemma_digit_round_trip(n % b);
        let s = digits_of(n, b);
        assert(s.drop_last() =~= digits_of(n / b, b));
        assert(n == (n / b) * b + n % b) by (nonlinear_arith)
            requires b >= 2;
        assert(value_of(s, b) == value_of(digits_of(n / b, b), b) * b + n % b);
        assert forall|i: int| 0 <= i < s.len() implies is_digit(#[trigger] s[i], b) by {
            if i < s.len() - 1 {
                assert(s[i] == digits_of(n / b, b)[i]);
            }
        }
    }
}

/// A digit string has a value no smaller than that of any of its prefixes.
pub proof fn lemma_value_prefix(s: Seq<char>, b: nat, k: int)
    requires
        0 <= k <= s.len(),
        b >= 1,
    ensures
        value_of(s.subrange(0, k), b) <= value_of(s, b),
    decreases s.len(),
{
    if k < s.len() {
        assert(s.drop_last() =~= s.subrange(0, s.len() - 1));
        lemma_value_prefix(s.drop_last(), b, k);
        assert(s.drop_last().subrange(0, k) =~= s.subrange(0, k));
        let v = value_of(s.drop_last(), b);
        assert(v <= v * b) by (nonlinear_arith)
            requires b >= 1;
    } else {
        assert(s.subrange(0, k) =~= s);
    }
}

proof fn lemma_join_last(p: Seq<Seq<char>>, sep: char)
    requires
        p.len() >= 2,
        free_of(p.last(), sep),
    ensures
        ({
            let s = join(p, sep);
            let k = join(p.drop_last(), sep).len() as int;
            &&& k < s.len()
            &&& s[k] == sep
            &&& s.subrange(0, k) == join(p.drop_last(), sep)
            &&& s.subrange(k + 1, s.len() as int) == p.last()
            &&& forall|j: int| k < j < s.len() ==> s[j] != sep
        }),
{
    let s = join(p, sep);
    let k = join(p.drop_last(), sep).len() as int;
    assert(s == join(p.drop_last(), sep).push(sep) + p.last());
    assert(s.subrange(0, k) =~= join(p.drop_last(), sep));
    assert(s.subrange(k + 1, s.len() as int) =~= p.last());
    assert forall|j: int| k < j < s.len() implies s[j] != sep by {
        assert(s[j] == p.last()[j - k - 1]);
    }
}

/// Where `sep` stands in a joined list of `sep`-free pieces, the pieces are
/// given back: the list is determined by its join.
pub proof fn lemma_join_unique(p: Seq<Seq<char>>, q: Seq<Seq<char>>, sep: char)
    requires
        p.len() >= 1,
        q.len() >= 1,
        all_free_of(p, sep),
        all_free_of(q, sep),
        join(p, sep) == join(q, sep),
    ensures
        p == q,
    decreases p.len() + q.len(),
{
    let s = join(p, sep);
    if p.len() == 1 && q.len() == 1 {
        assert(p =~= q);
    } else if p.len() == 1 {
        assert(free_of(q[q.len() - 1], sep));
        lemma_join_last(q, sep);
        assert(free_of(p[0], sep));
    } else if q.len() == 1 {
        assert(free_of(p[p.len() - 1], sep));
        lemma_join_last(p, sep);
        assert(free_of(q[0], sep));
    } else {
        assert(free_of(p[p.len() - 1], sep));
        assert(free_of(q[q.len() - 1], sep));
        lemma_join_last(p, sep);
        lemma_join_last(q, sep);
        let pd = p.drop_last();
        let qd = q.drop_last();
        assert forall|i: int| 0 <= i < pd.len() implies free_of(#[trigger] pd[i], sep) by {
            assert(free_of(p[i], sep));
        }
        assert forall|i: int| 0 <= i < qd.len() implies free_of(#[trigger] qd[i], sep) by {
            assert(free_of(q[i], sep));
        }
        lemma_join_unique(pd, qd, sep);
        assert(p =~= pd.push(p.last()));
        assert(q =~= qd.push(q.last()));
    }
}

/// Two pieces join around one separator.
pub proof fn lemma_join2(x: Seq<char>, y: Seq<char>, sep: char)
    ensures
        join(seq![x, y], sep) == x.push(sep) + y,
{
    assert(seq![x, y].drop_last() =~= seq![x]);
    assert(join(seq![x], sep) == x);
    assert(seq![x, y].last() == y);
}

/// Every character of a join is the separator or a character of a piece.
pub proof fn lemma_join_chars(p: Seq<Seq<char>>, sep: char, ok: spec_fn(char) -> bool)
    requires
        ok(sep),
        forall|i: int, j: int| 0 <= i < p.len() && 0 <= j < p[i].len() ==> ok(#[trigger] p[i][j]),
    ensures
        forall|j: int| 0 <= j < join(p, sep).len() ==> ok(#[trigger] join(p, sep)[j]),
    decreases p.len(),
{
    if p.len() == 0 {
    } else if p.len() == 1 {
        assert forall|j: int| 0 <= j < join(p, sep).len() implies ok(#[trigger] join(p, sep)[j]) by {
            assert(ok(p[0][j]));
        }
    } else {
        let d = p.drop_last();
        assert forall|i: int, j: int| 0 <= i < d.len() && 0 <= j < d[i].len() implies ok(
            #[trigger] d[i][j],
        ) by {
            assert(d[i] == p[i]);
            assert(ok(p[i][j]));
        }
        lemma_join_chars(d, sep, ok);
        let s = join(p, sep);
        let k = join(d, sep).len() as int;
        assert forall|j: int| 0 <= j < s.len() implies ok(#[trigger] s[j]) by {
            if j < k {
                assert(s[j] == join(d, sep)[j]);
            } else if j > k {
                assert(s[j] == p.last()[j - k - 1]);
                assert(ok(p[p.len() - 1][j - k - 1]));
            }
        }
    }
}

/// The character of digit `d`.
pub fn digit_to_char(d: u64) -> (c: char)
    requires
        d < 16,
    ensures
        c == digit_char(d as nat),
{
    if d == 0 { '0' } else if d == 1 { '1' } else if d == 2 { '2' } else if d == 3 { '3' }
    else if d == 4 { '4' } else if d == 5 { '5' } else if d == 6 { '6' } else if d == 7 { '7' }
    else if d == 8 { '8' } else if d == 9 { '9' } else if d == 10 { 'a' } else if d == 11 { 'b' }
    else if d == 12 { 'c' } else if d == 13 { 'd' } else if d == 14 { 'e' } else { 'f' }
}

/// The value of a digit character.
pub fn char_to_digit(c: char) -> (r: Option<u64>)
    ensures
        r matches Some(v) ==> char_value(c) == Some(v as nat),
        r is None ==> char_value(c) is None,
{
    if c == '0' { Some(0) } else if c == '1' { Some(1) } else if c == '2' { Some(2) }
    else if c == '3' { Some(3) } else if c == '4' { Some(4) } else if c == '5' { Some(5) }
    else if c == '6' { Some(6) } else if c == '7' { Some(7) } else if c == '8' { Some(8) }
    else if c == '9' { Some(9) } else if c == 'a' { Some(10) } else if c == 'b' { Some(11) }
    else if c == 'c' { Some(12) } else if c == 'd' { Some(13) } else if c == 'e' { Some(14) }
    else if c == 'f' { Some(15) } else { None }
}

/// Appends the shortest base-`b` digit string of `n`.
pub fn push_digits(n: u64, b: u64, out: &mut Vec<char>)
    requires
        2 <= b <= 16,
    ensures
        final(out)@ == old(out)@ + digits_of(n as nat, b as nat),
    decreases n,
{
    if n < b {
        let c = digit_to_char(n);
        out.push(c);
        assert(digits_of(n as nat, b as nat) =~= seq![c]);
    } else {
        assert(n / b < n) by (nonlinear_arith)
            requires b >= 2, n >= b;
        push_digits(n / b, b, out);
        let c = digit_to_char(n % b);
        out.push(c);
    }
}

/// Reads a base-`b` number of at most `max`.
pub fn parse_number(s: &Vec<char>, b: u64, max: u64) -> (r: Option<u64>)
    requires
        2 <= b <= 16,
        max <= 0xffff_ffff,
    ensures
        r is Some <==> all_digits(s@, b as nat) && value_of(s@, b as nat) <= max,
        r matches Some(v) ==> v == value_of(s@, b as nat),
{
    if s.len() == 0 {
        return None;
    }
    let mut v: u64 = 0;
    let mut i: usize = 0;
    while i < s.len()
        invariant
            i <= s@.len(),
            2 <= b <= 16,
            max <= 0xffff_ffff,
            v <= max,
            v == value_of(s@.subrange(0, i as int), b as nat),
            forall|j: int| 0 <= j < i ==> is_digit(#[trigger] s@[j], b as nat),
        decreases s.len() - i,
    {
        assert(s@.subrange(0, i + 1).drop_last() =~= s@.subrange(0, i as int));
        match char_to_digit(s[i]) {
            Some(d) => {
                if d >= b {
                    return None;
                }
                assert(v * b <= 0xffff_ffff * 16) by (nonlinear_arith)
                    requires v <= 0xffff_ffff, b <= 16;
                let w = v * b + d;
                if w > max {
                    proof {
                        lemma_value_prefix(s@, b as nat, i + 1);
                    }
                    return None;
                }
                v = w;
            },
            None => {
                return None;
            },
        }
        i = i + 1;
    }
    assert(s@.subrange(0, i as int) =~= s@);
    Some(v)
}

/// Splits at each `sep`: the pieces are `sep`-free and join to `s`.
pub fn split(s: &Vec<char>, sep: char) -> (r: Vec<Vec<char>>)
    ensures
        r@.len() >= 1,
        join(r.deep_view(), sep) == s@,
        all_free_of(r.deep_view(), sep),
{
    let mut pieces: Vec<Vec<char>> = Vec::new();
    let mut cur: Vec<char> = Vec::new();
    let ghost mut done: Seq<Seq<char>> = Seq::empty();
    let mut i: usize = 0;
    while i < s.len()
        invariant
            i <= s@.len(),
            pieces@.len() == done.len(),
            forall|j: int| 0 <= j < done.len() ==> (#[trigger] pieces@[j])@ == done[j],
            join(done.push(cur@), sep) == s@.subrange(0, i as int),
            all_free_of(done.push(cur@), sep),
        decreases s.len() - i,
    {
        let c = s[i];
        let ghost before = done.push(cur@);
        if c == sep {
            proof {
                done = before;
            }
            let last = cur;
            pieces.push(last);
            cur = Vec::new();
            let ghost after = done.push(cur@);
            assert(after.drop_last() =~= before);
            assert(join(after, sep) =~= s@.subrange(0, i + 1));
            assert forall|j: int| 0 <= j < after.len() implies free_of(#[trigger] after[j], sep) by {
                if j < after.len() - 1 {
                    assert(after[j] == before[j]);
                }
            }
        } else {
            cur.push(c);
            let ghost after = done.push(cur@);
            assert(after.drop_last() =~= before.drop_last());
            assert(after.last() =~= before.last().push(c));
            assert(before.drop_last() =~= done);
            assert(after.drop_last() =~= done);
            assert(s@.subrange(0, i + 1) =~= s@.subrange(0, i as int).push(c));
            proof {
                if done.len() == 0 {
                    assert(join(before, sep) == before[0]);
                    assert(join(after, sep) == after[0]);
                } else {
                    assert(join(before, sep) == join(done, sep).push(sep) + before.last());
                    assert(join(after, sep) == join(done, sep).push(sep) + after.last());
                }
            }
            assert(join(after, sep) =~= s@.subrange(0, i + 1));
            assert forall|j: int| 0 <= j < after.len() implies free_of(#[trigger] after[j], sep) by {
                if j < after.len() - 1 {
                    assert(after[j] == before[j]);
                }
            }
        }
        i = i + 1;
    }
    let ghost all = done.push(cur@);
    pieces.push(cur);
    assert forall|j: int| 0 <= j < pieces@.len() implies (#[trigger] pieces@[j]).deep_view()
        == all[j] by {
        assert(pieces@[j].deep_view() =~= pieces@[j]@);
    }
    assert(pieces.deep_view() =~= all);
    assert(s@.subrange(0, i as int) =~= s@);
    pieces
}


/// Whether two character strings are equal.
pub fn same_chars(a: &Vec<char>, b: &Vec<char>) -> (r: bool)
    ensures
        r == (a@ == b@),
{
    if a.len() != b.len() {
        return false;
    }
    let mut i: usize = 0;
    while i < a.len()
        invariant
            i <= a@.len(),
            a@.len() == b@.len(),
            forall|j: int| 0 <= j < i ==> a@[j] == b@[j],
        decreases a.len() - i,
    {
        if a[i] != b[i] {
            return false;
        }
        i = i + 1;
    }
    assert(a@ =~= b@);
    true
}

/// Appends the pieces joined with `sep`.
pub fn push_joined(p: &Vec<Vec<char>>, sep: char, out: &mut Vec<char>)
    ensures
        final(out)@ == old(out)@ + join(p.deep_view(), sep),
{
    let ghost start = out@;
    let mut i: usize = 0;
    while i < p.len()
        invariant
            i <= p@.len(),
            out@ == start + join(p.deep_view().subrange(0, i as int), sep),
        decreases p.len() - i,
    {
        let ghost q = p.deep_view().subrange(0, i + 1);
        assert(q.drop_last() =~= p.deep_view().subrange(0, i as int));
        assert(p@[i as int].deep_view() =~= p@[i as int]@);
        if i > 0 {
            out.push(sep);
        }
        let mut j: usize = 0;
        let ghost mid = out@;
        while j < p[i].len()
            invariant
                i < p@.len(),
                j <= p@[i as int]@.len(),
                out@ == mid + p@[i as int]@.subrange(0, j as int),
            decreases p[i as int]@.len() - j,
        {
            out.push(p[i][j]);
            assert(p@[i as int]@.subrange(0, j + 1) =~= p@[i as int]@.subrange(0, j as int).push(
                p@[i as int]@[j as int],
            ));
            j = j + 1;
        }
        assert(p@[i as int]@.subrange(0, j as int) =~= p@[i as int]@);
        assert(out@ =~= start + join(q, sep));
        i = i + 1;
    }
    assert(p.deep_view().subrange(0, i as int) =~= p.deep_view());
}

/// The characters of `s`.
pub fn chars_of(s: &str) -> (r: Vec<char>)
    ensures
        r@ == s@,
{
    let n = s.unicode_len();
    let mut r: Vec<char> = Vec::new();
    let mut i: usize = 0;
    while i < n
        invariant
            n == s@.len(),
            i <= n,
            r@ == s@.subrange(0, i as int),
        decreases n - i,
    {
        r.push(s.get_char(i));
        assert(s@.subrange(0, i + 1) =~= s@.subrange(0, i as int).push(s@[i as int]));
        i = i + 1;
    }
    assert(s@.subrange(0, i as int) =~= s@);
    r
}

/// Relies on String::push: the character is appended at the end.
#[verifier::external_body]
fn push_char(s: &mut String, c: char)
    ensures
        final(s)@ == old(s)@.push(c),
{
    s.push(c);
}

/// A string of the characters `v`.
pub fn string_of(v: &Vec<char>) -> (r: String)
    ensures
        r@ == v@,
{
    let mut r = String::new();
    let mut i: usize = 0;
    while i < v.len()
        invariant
            i <= v@.len(),
            r@ == v@.subrange(0, i as int),
        decreases v.len() - i,
    {
        push_char(&mut r, v[i]);
        assert(v@.subrange(0, i + 1) =~= v@.subrange(0, i as int).push(v@[i as int]));
        i = i + 1;
    }
    assert(v@.subrange(0, i as int) =~= v@);
    r
}

} // verus!
