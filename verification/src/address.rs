//! Textual IPv4 and IPv6 addresses, in the syntax that `A` and `AAAA`
//! records must carry.
use vstd::prelude::*;

use crate::text::chars_of;

verus! {

pub open spec fn is_dec_digit(c: char) -> bool {
    '0' <= c && c <= '9'
}

pub open spec fn is_hex_digit(c: char) -> bool {
    ||| is_dec_digit(c)
    ||| ('a' <= c && c <= 'f')
    ||| ('A' <= c && c <= 'F')
}

/// The number written in decimal by the digits `t`.
pub open spec fn dec_value(t: Seq<char>) -> nat
    decreases t.len(),
{
    if t.len() == 0 {
        0
    } else {
        dec_value(t.drop_last()) * 10 + ((t.last() as int - '0' as int) as nat)
    }
}

/// One to three decimal digits, without a leading zero, naming a value up to 255.
pub open spec fn is_dec_octet(t: Seq<char>) -> bool {
    &&& 1 <= t.len() <= 3
    &&& forall|i: int| 0 <= i < t.len() ==> is_dec_digit(#[trigger] t[i])
    &&& (t.len() == 1 || t[0] != '0')
    &&& dec_value(t) <= 255
}

/// One to four hexadecimal digits (either case).
pub open spec fn is_h16(t: Seq<char>) -> bool {
    &&& 1 <= t.len() <= 4
    &&& forall|i: int| 0 <= i < t.len() ==> is_hex_digit(#[trigger] t[i])
}

/// The pieces of `s` between occurrences of `sep`; there is always one more
/// piece than there are separators.
pub open spec fn fields(s: Seq<char>, sep: char) -> Seq<Seq<char>>
    decreases s.len(),
{
    if s.len() == 0 {
        seq![Seq::<char>::empty()]
    } else {
        let prev = fields(s.drop_last(), sep);
        if s.last() == sep {
            prev.push(Seq::<char>::empty())
        } else {
            prev.update(prev.len() - 1, prev.last().push(s.last()))
        }
    }
}

/// Dotted-quad notation: four decimal octets separated by dots.
pub open spec fn is_ipv4_text(s: Seq<char>) -> bool {
    let f = fields(s, '.');
    &&& f.len() == 4
    &&& forall|i: int| 0 <= i < 4 ==> is_dec_octet(#[trigger] f[i])
}

/// The colon-separated groups of a section; an empty section has none.
pub open spec fn colon_fields(s: Seq<char>) -> Seq<Seq<char>> {
    if s.len() == 0 {
        Seq::empty()
    } else {
        fields(s, ':')
    }
}

pub open spec fn all_h16(fs: Seq<Seq<char>>) -> bool {
    forall|i: int| 0 <= i < fs.len() ==> is_h16(#[trigger] fs[i])
}

/// How many 16-bit groups a section of an IPv6 address writes: each
/// hexadecimal group counts one; when `v4_tail` allows it, a dotted quad in
/// the last place counts two. `None` when the section is malformed.
pub open spec fn group_count(fs: Seq<Seq<char>>, v4_tail: bool) -> Option<nat> {
    if all_h16(fs) {
        Some(fs.len())
    } else if v4_tail && fs.len() > 0 && all_h16(fs.drop_last()) && is_ipv4_text(fs.last()) {
        Some(fs.len() + 1)
    } else {
        None
    }
}

pub open spec fn double_colon_at(s: Seq<char>, p: int) -> bool {
    0 <= p && p + 1 < s.len() && s[p] == ':' && s[p + 1] == ':'
}

pub open spec fn first_double_colon(s: Seq<char>, p: int) -> bool {
    &&& double_colon_at(s, p)
    &&& forall|q: int| 0 <= q < p ==> !double_colon_at(s, q)
}

/// With `::` at `p`: the groups before it (no dotted quad) and the groups
/// after it (a dotted quad allowed last) leave at least one group to elide.
pub open spec fn compressed_ok(s: Seq<char>, p: int) -> bool {
    match (
        group_count(colon_fields(s.subrange(0, p)), false),
        group_count(colon_fields(s.subrange(p + 2, s.len() as int)), true),
    ) {
        (Some(k), Some(w)) => k + w <= 7,
        _ => false,
    }
}

/// IPv6 text: either eight groups written out (the last two may be a
/// dotted quad), or groups around a single `::` standing for one or more
/// zero groups.
pub open spec fn is_ipv6_text(s: Seq<char>) -> bool {
    ||| ((forall|p: int| !double_colon_at(s, p)) && group_count(colon_fields(s), true) == Some(8nat))
    ||| exists|p: int| first_double_colon(s, p) && compressed_ok(s, p)
}

proof fn lemma_fields_nonempty(s: Seq<char>, sep: char)
    ensures
        fields(s, sep).len() >= 1,
    decreases s.len(),
{
    if s.len() > 0 {
        lemma_fields_nonempty(s.drop_last(), sep);
    }
}

proof fn lemma_fields_len_bound(s: Seq<char>, sep: char)
    ensures
        fields(s, sep).len() <= s.len() + 1,
    decreases s.len(),
{
    if s.len() > 0 {
        lemma_fields_len_bound(s.drop_last(), sep);
        lemma_fields_nonempty(s.drop_last(), sep);
    }
}

/// The character of the decimal digit `d` (below ten).
pub open spec fn digit_char(d: nat) -> char {
    if d == 0 {
        '0'
    } else if d == 1 {
        '1'
    } else if d == 2 {
        '2'
    } else if d == 3 {
        '3'
    } else if d == 4 {
        '4'
    } else if d == 5 {
        '5'
    } else if d == 6 {
        '6'
    } else if d == 7 {
        '7'
    } else if d == 8 {
        '8'
    } else {
        '9'
    }
}

/// `n` written in decimal, without leading zeros.
pub open spec fn dec_text(n: nat) -> Seq<char>
    decreases n,
{
    if n < 10 {
        seq![digit_char(n)]
    } else {
        dec_text(n / 10).push(digit_char(n % 10))
    }
}

/// Four numbers written in decimal and joined by dots.
pub open spec fn dotted_quad(a: nat, b: nat, c: nat, d: nat) -> Seq<char> {
    dec_text(a) + seq!['.'] + dec_text(b) + seq!['.'] + dec_text(c) + seq!['.'] + dec_text(d)
}

proof fn lemma_digit_char(d: nat)
    requires
        d < 10,
    ensures
        is_dec_digit(digit_char(d)),
        digit_char(d) as int - '0' as int == d,
        d > 0 ==> digit_char(d) != '0',
{
}

proof fn lemma_dec_text_shape(n: nat)
    ensures
        dec_text(n).len() >= 1,
        n >= 10 ==> dec_text(n).len() >= 2,
        n >= 100 ==> dec_text(n).len() >= 3,
        n < 10 ==> dec_text(n).len() == 1,
        n < 100 ==> dec_text(n).len() <= 2,
        n < 1000 ==> dec_text(n).len() <= 3,
        n >= 1000 ==> dec_text(n).len() >= 4,
        forall|i: int| 0 <= i < dec_text(n).len() ==> is_dec_digit(#[trigger] dec_text(n)[i]),
        dec_text(n).len() == 1 || dec_text(n)[0] != '0',
        dec_value(dec_text(n)) == n,
    decreases n,
{
    if n < 10 {
        lemma_digit_char(n);
        let t = dec_text(n);
        assert(t.drop_last() =~= Seq::<char>::empty());
        assert(dec_value(Seq::<char>::empty()) == 0);
        assert(dec_value(t) == dec_value(t.drop_last()) * 10 + ((t.last() as int - '0' as int) as nat));
    } else {
        let m = n / 10;
        lemma_digit_char(n % 10);
        lemma_dec_text_shape(m);
        let t = dec_text(n);
        assert(t.drop_last() =~= dec_text(m));
        assert(t[0] == dec_text(m)[0]);
        assert forall|i: int| 0 <= i < t.len() implies is_dec_digit(#[trigger] t[i]) by {
            if i < t.len() - 1 {
                assert(t[i] == dec_text(m)[i]);
            }
        }
        assert(n == m * 10 + n % 10);
        assert(dec_value(t) == dec_value(t.drop_last()) * 10 + ((t.last() as int - '0' as int) as nat));
        assert(t.last() == digit_char(n % 10));
    }
}

/// The decimal writing of a number is a valid octet exactly when the number
/// is at most 255: acceptance depends on the value alone.
pub proof fn lemma_dec_octet_values(n: nat)
    ensures
        is_dec_octet(dec_text(n)) <==> n <= 255,
{
    lemma_dec_text_shape(n);
}

proof fn lemma_fields_single(y: Seq<char>, sep: char)
    requires
        forall|i: int| 0 <= i < y.len() ==> y[i] != sep,
    ensures
        fields(y, sep) == seq![y],
    decreases y.len(),
{
    if y.len() == 0 {
        assert(y =~= Seq::<char>::empty());
    } else {
        let y2 = y.drop_last();
        lemma_fields_single(y2, sep);
        assert(y2.push(y.last()) =~= y);
        assert(seq![y2].update(0, y2.push(y.last())) =~= seq![y]);
    }
}

proof fn lemma_fields_append(x: Seq<char>, y: Seq<char>, sep: char)
    requires
        forall|i: int| 0 <= i < y.len() ==> y[i] != sep,
    ensures
        fields(x + seq![sep] + y, sep) == fields(x, sep).push(y),
    decreases y.len(),
{
    let s = x + seq![sep] + y;
    if y.len() == 0 {
        assert(s.drop_last() =~= x);
        assert(y =~= Seq::<char>::empty());
    } else {
        let y2 = y.drop_last();
        lemma_fields_append(x, y2, sep);
        assert(s.drop_last() =~= x + seq![sep] + y2);
        assert(y2.push(y.last()) =~= y);
        let prev = fields(x, sep).push(y2);
        assert(prev.update(prev.len() - 1, y2.push(y.last())) =~= fields(x, sep).push(y));
    }
}

/// Every dotted quad of numbers up to 255, written in decimal without
/// leading zeros (such as `10.0.0.249`), is IPv4 text.
pub proof fn lemma_dotted_quad_is_ipv4(a: nat, b: nat, c: nat, d: nat)
    requires
        a <= 255,
        b <= 255,
        c <= 255,
        d <= 255,
    ensures
        is_ipv4_text(dotted_quad(a, b, c, d)),
{
    lemma_dec_octet_values(a);
    lemma_dec_octet_values(b);
    lemma_dec_octet_values(c);
    lemma_dec_octet_values(d);
    lemma_dec_text_shape(a);
    lemma_dec_text_shape(b);
    lemma_dec_text_shape(c);
    lemma_dec_text_shape(d);
    let (ta, tb, tc, td) = (dec_text(a), dec_text(b), dec_text(c), dec_text(d));
    assert forall|i: int| 0 <= i < ta.len() implies ta[i] != '.' by {
        assert(is_dec_digit(ta[i]));
    }
    assert forall|i: int| 0 <= i < tb.len() implies tb[i] != '.' by {
        assert(is_dec_digit(tb[i]));
    }
    assert forall|i: int| 0 <= i < tc.len() implies tc[i] != '.' by {
        assert(is_dec_digit(tc[i]));
    }
    assert forall|i: int| 0 <= i < td.len() implies td[i] != '.' by {
        assert(is_dec_digit(td[i]));
    }
    lemma_fields_single(ta, '.');
    let p1 = ta + seq!['.'] + tb;
    lemma_fields_append(ta, tb, '.');
    let p2 = p1 + seq!['.'] + tc;
    lemma_fields_append(p1, tc, '.');
    lemma_fields_append(p2, td, '.');
    let f = fields(dotted_quad(a, b, c, d), '.');
    assert(f =~= seq![ta, tb, tc, td]);
}

fn is_dec_digit_exec(c: char) -> (r: bool)
    ensures
        r == is_dec_digit(c),
{
    '0' <= c && c <= '9'
}

fn is_hex_digit_exec(c: char) -> (r: bool)
    ensures
        r == is_hex_digit(c),
{
    ('0' <= c && c <= '9') || ('a' <= c && c <= 'f') || ('A' <= c && c <= 'F')
}

fn is_h16_at(s: &Vec<char>, a: usize, b: usize) -> (r: bool)
    requires
        a <= b <= s@.len(),
    ensures
        r == is_h16(s@.subrange(a as int, b as int)),
{
    let ghost t = s@.subrange(a as int, b as int);
    if b - a < 1 || b - a > 4 {
        return false;
    }
    let mut i = a;
    while i < b
        invariant
            a <= i <= b <= s@.len(),
            t == s@.subrange(a as int, b as int),
            forall|j: int| 0 <= j < i - a ==> is_hex_digit(#[trigger] t[j]),
        decreases b - i,
    {
        if !is_hex_digit_exec(s[i]) {
            assert(!is_hex_digit(t[i - a]));
            return false;
        }
        i = i + 1;
    }
    true
}

fn is_dec_octet_at(s: &Vec<char>, a: usize, b: usize) -> (r: bool)
    requires
        a <= b <= s@.len(),
    ensures
        r == is_dec_octet(s@.subrange(a as int, b as int)),
{
    let ghost t = s@.subrange(a as int, b as int);
    if b - a < 1 || b - a > 3 {
        return false;
    }
    let mut value: u32 = 0;
    let mut i = a;
    while i < b
        invariant
            a <= i <= b <= s@.len(),
            b - a <= 3,
            t == s@.subrange(a as int, b as int),
            forall|j: int| 0 <= j < i - a ==> is_dec_digit(#[trigger] t[j]),
            value == dec_value(t.subrange(0, i - a)),
            value < 1000,
            i - a <= 3,
            value < if i - a == 0 { 1int } else if i - a == 1 { 10int } else if i - a == 2 { 100int } else { 1000int },
        decreases b - i,
    {
        let c = s[i];
        if !is_dec_digit_exec(c) {
            assert(!is_dec_digit(t[i - a]));
            return false;
        }
        assert(t.subrange(0, i + 1 - a).drop_last() =~= t.subrange(0, i - a));
        value = value * 10 + (c as u32 - '0' as u32);
        i = i + 1;
    }
    assert(t.subrange(0, b - a) =~= t);
    (b - a == 1 || s[a] != '0') && value <= 255
}

proof fn lemma_fields_step(s: Seq<char>, lo: int, i: int, sep: char)
    requires
        0 <= lo <= i < s.len(),
    ensures
        s.subrange(lo, i + 1).drop_last() =~= s.subrange(lo, i),
        s.subrange(lo, i + 1).last() == s[i],
        fields(s.subrange(lo, i + 1), sep) == ({
            let prev = fields(s.subrange(lo, i), sep);
            if s[i] == sep {
                prev.push(Seq::<char>::empty())
            } else {
                prev.update(prev.len() - 1, prev.last().push(s[i]))
            }
        }),
{
    assert(s.subrange(lo, i + 1).drop_last() =~= s.subrange(lo, i));
}

/// Whether `s[a..b]` is dotted-quad text.
fn is_ipv4_at(s: &Vec<char>, a: usize, b: usize) -> (r: bool)
    requires
        a <= b <= s@.len(),
    ensures
        r == is_ipv4_text(s@.subrange(a as int, b as int)),
{
    let mut ok = true;
    let mut count: usize = 0;
    let mut start = a;
    let mut i = a;
    assert(s@.subrange(a as int, a as int) =~= Seq::<char>::empty());
    while i < b
        invariant
            a <= start <= i <= b <= s@.len(),
            count <= i - a,
            ({
                let f = fields(s@.subrange(a as int, i as int), '.');
                &&& f.len() == count + 1
                &&& f.last() == s@.subrange(start as int, i as int)
                &&& ok == (forall|j: int| 0 <= j < count ==> is_dec_octet(#[trigger] f[j]))
            }),
        decreases b - i,
    {
        let ghost f0 = fields(s@.subrange(a as int, i as int), '.');
        proof {
            lemma_fields_step(s@, a as int, i as int, '.');
        }
        let ghost f1 = fields(s@.subrange(a as int, i + 1), '.');
        if s[i] == '.' {
            let field_ok = is_dec_octet_at(s, start, i);
            assert(f1[count as int] == f0.last());
            assert forall|j: int| 0 <= j < count implies f1[j] == f0[j] by {}
            ok = ok && field_ok;
            count = count + 1;
            start = i + 1;
            assert(s@.subrange(start as int, i + 1) =~= Seq::<char>::empty());
        } else {
            assert(s@.subrange(start as int, i + 1) =~= s@.subrange(start as int, i as int).push(s@[i as int]));
            assert forall|j: int| 0 <= j < count implies f1[j] == f0[j] by {}
        }
        i = i + 1;
    }
    let last_ok = is_dec_octet_at(s, start, b);
    let ghost f = fields(s@.subrange(a as int, b as int), '.');
    let r = ok && count == 3 && last_ok;
    proof {
        if r {
            assert forall|j: int| 0 <= j < 4 implies is_dec_octet(#[trigger] f[j]) by {
                if j == 3 {
                    assert(f[j] == f.last());
                }
            }
        }
        if is_ipv4_text(s@.subrange(a as int, b as int)) {
            assert(count == 3);
            assert(is_dec_octet(f[3]));
            assert(f[3] == f.last());
            assert forall|j: int| 0 <= j < count implies is_dec_octet(#[trigger] f[j]) by {}
        }
    }
    r
}

/// The number of 16-bit groups that `s[a..b]` writes, as `group_count`
/// counts them.
fn group_count_at(s: &Vec<char>, a: usize, b: usize, v4_tail: bool) -> (r: Option<usize>)
    requires
        a <= b <= s@.len(),
    ensures
        match r {
            Some(n) => group_count(colon_fields(s@.subrange(a as int, b as int)), v4_tail) == Some(n as nat),
            None => group_count(colon_fields(s@.subrange(a as int, b as int)), v4_tail) is None,
        },
{
    if a == b {
        assert(colon_fields(s@.subrange(a as int, b as int)) =~= Seq::<Seq<char>>::empty());
        return Some(0);
    }
    let mut ok = true;
    let mut count: usize = 0;
    let mut start = a;
    let mut i = a;
    assert(s@.subrange(a as int, a as int) =~= Seq::<char>::empty());
    while i < b
        invariant
            a <= start <= i <= b <= s@.len(),
            count <= start - a,
            ({
                let f = fields(s@.subrange(a as int, i as int), ':');
                &&& f.len() == count + 1
                &&& f.last() == s@.subrange(start as int, i as int)
                &&& ok == (forall|j: int| 0 <= j < count ==> is_h16(#[trigger] f[j]))
            }),
        decreases b - i,
    {
        let ghost f0 = fields(s@.subrange(a as int, i as int), ':');
        proof {
            lemma_fields_step(s@, a as int, i as int, ':');
        }
        let ghost f1 = fields(s@.subrange(a as int, i + 1), ':');
        if s[i] == ':' {
            let field_ok = is_h16_at(s, start, i);
            assert(f1[count as int] == f0.last());
            assert forall|j: int| 0 <= j < count implies f1[j] == f0[j] by {}
            ok = ok && field_ok;
            count = count + 1;
            start = i + 1;
            assert(s@.subrange(start as int, i + 1) =~= Seq::<char>::empty());
        } else {
            assert(s@.subrange(start as int, i + 1) =~= s@.subrange(start as int, i as int).push(s@[i as int]));
            assert forall|j: int| 0 <= j < count implies f1[j] == f0[j] by {}
        }
        i = i + 1;
    }
    let ghost f = fields(s@.subrange(a as int, b as int), ':');
    assert(colon_fields(s@.subrange(a as int, b as int)) == f);
    let last_h16 = is_h16_at(s, start, b);
    proof {
        assert(f.last() == f[count as int]);
        assert(f.drop_last().len() == count);
        if ok {
            assert(all_h16(f.drop_last()));
        } else {
            let j = choose|j: int| 0 <= j < count && !is_h16(#[trigger] f[j]);
            assert(f.drop_last()[j] == f[j]);
        }
        if ok && last_h16 {
            assert forall|j: int| 0 <= j < f.len() implies is_h16(#[trigger] f[j]) by {}
        }
    }
    if ok && last_h16 {
        return Some(count + 1);
    }
    if ok && v4_tail && is_ipv4_at(s, start, b) {
        proof {
            lemma_fields_len_bound(s@.subrange(start as int, b as int), '.');
        }
        return Some(count + 2);
    }
    None
}

/// Whether `text` is an IPv4 address in dotted-quad notation.
pub fn is_ipv4_address(text: &str) -> (r: bool)
    ensures
        r == is_ipv4_text(text@),
{
    let s = chars_of(text);
    let n = s.len();
    assert(s@.subrange(0, n as int) =~= s@);
    is_ipv4_at(&s, 0, n)
}

/// Whether `text` is an IPv6 address in its textual notation.
pub fn is_ipv6_address(text: &str) -> (r: bool)
    ensures
        r == is_ipv6_text(text@),
{
    let s = chars_of(text);
    let n = s.len();
    assert(s@.subrange(0, n as int) =~= s@);
    let mut p: usize = 0;
    while n >= 2 && p < n - 1
        invariant
            n == s@.len(),
            s@ == text@,
            forall|q: int| 0 <= q < p ==> !double_colon_at(s@, q),
        decreases n - p,
    {
        if s[p] == ':' && s[p + 1] == ':' {
            let head = group_count_at(&s, 0, p, false);
            let tail = group_count_at(&s, p + 2, n, true);
            let r = match (head, tail) {
                (Some(k), Some(w)) => k <= 7 && w <= 7 - k,
                _ => false,
            };
            proof {
                assert(first_double_colon(s@, p as int));
                assert(double_colon_at(s@, p as int));
                if r {
                    assert(compressed_ok(s@, p as int));
                } else {
                    assert forall|q: int| first_double_colon(s@, q) implies !compressed_ok(s@, q) by {
                        assert(q == p);
                    }
                }
            }
            return r;
        }
        p = p + 1;
    }
    proof {
        assert forall|q: int| !double_colon_at(s@, q) by {}
    }
    let all = group_count_at(&s, 0, n, true);
    match all {
        Some(k) => k == 8,
        None => false,
    }
}

} // verus!
