//! Character-level helpers shared by the parsers and message renderers.

use vstd::prelude::*;
use vstd::string::*;
use crate::ascii::{is_digit_char, digit_char as digit_char_exec};

verus! {

/// The ASCII digit character for `d` (`d < 10`).
pub open spec fn digit_char(d: nat) -> char {
    (('0' as u32) + d) as char
}

/// Decimal spelling of a natural number, most significant digit first,
/// without leading zeros (`0` is spelled `"0"`).
pub open spec fn dec(n: nat) -> Seq<char>
    decreases n,
{
    if n < 10 {
        seq![digit_char(n)]
    } else {
        dec(n / 10).push(digit_char(n % 10))
    }
}

/// Builds a `String` holding exactly the given characters.
#[verifier::external_body]
pub fn string_from_chars(chars: &[char]) -> (s: String)
    ensures
        s@ == chars@,
{
    chars.iter().collect()
}

/// The characters of a string slice, in order.
pub fn chars_of(s: &str) -> (v: Vec<char>)
    ensures
        v@ == s@,
{
    broadcast use vstd::string::axiom_spec_iter;
    let mut v: Vec<char> = Vec::new();
    for c in it: s.chars()
        invariant
            v@ == it.seq().take(it.index() as int),
    {
        v.push(c);
    }
    v
}

proof fn lemma_dec_len_pos(n: nat)
    ensures
        dec(n).len() >= 1,
    decreases n,
{
    if n >= 10 {
        lemma_dec_len_pos(n / 10);
    }
}

/// Decimal digits of `n`, as a character vector.
pub fn dec_chars(n: u64) -> (v: Vec<char>)
    ensures
        v@ == dec(n as nat),
    decreases n,
{
    if n < 10 {
        let c = ((('0' as u32) + (n as u32)) as u8) as char;
        assert(c == digit_char(n as nat));
        let mut v = Vec::new();
        v.push(c);
        v
    } else {
        let mut v = dec_chars(n / 10);
        let d = n % 10;
        let c = ((('0' as u32) + (d as u32)) as u8) as char;
        assert(c == digit_char((n % 10) as nat));
        v.push(c);
        v
    }
}

/// Decimal rendering of `n` as an owned string.
pub fn decimal_string(n: u64) -> (s: String)
    ensures
        s@ == dec(n as nat),
{
    let v = dec_chars(n);
    string_from_chars(v.as_slice())
}

/// `c` is white space in the Unicode sense used by `str::trim` and
/// `str::split_whitespace`.
pub open spec fn is_ws(c: char) -> bool {
    ||| ('\u{9}' <= c && c <= '\u{d}')
    ||| c == ' '
    ||| c == '\u{85}'
    ||| c == '\u{a0}'
    ||| c == '\u{1680}'
    ||| ('\u{2000}' <= c && c <= '\u{200a}')
    ||| c == '\u{2028}'
    ||| c == '\u{2029}'
    ||| c == '\u{202f}'
    ||| c == '\u{205f}'
    ||| c == '\u{3000}'
}

/// Leading white space removed.
pub open spec fn trim_start_ws(s: Seq<char>) -> Seq<char>
    decreases s.len(),
{
    if s.len() > 0 && is_ws(s[0]) {
        trim_start_ws(s.drop_first())
    } else {
        s
    }
}

/// Trailing white space removed.
pub open spec fn trim_end_ws(s: Seq<char>) -> Seq<char>
    decreases s.len(),
{
    if s.len() > 0 && is_ws(s.last()) {
        trim_end_ws(s.drop_last())
    } else {
        s
    }
}

/// Leading and trailing white space removed.
pub open spec fn trim_ws(s: Seq<char>) -> Seq<char> {
    trim_end_ws(trim_start_ws(s))
}

pub fn ws_char(c: char) -> (r: bool)
    ensures
        r == is_ws(c),
{
    ('\u{9}' <= c && c <= '\u{d}') || c == ' ' || c == '\u{85}' || c == '\u{a0}' || c == '\u{1680}'
        || ('\u{2000}' <= c && c <= '\u{200a}') || c == '\u{2028}' || c == '\u{2029}'
        || c == '\u{202f}' || c == '\u{205f}' || c == '\u{3000}'
}

/// The characters `v[a..b]`.
pub fn sub_chars(v: &Vec<char>, a: usize, b: usize) -> (r: Vec<char>)
    requires
        a <= b <= v.len(),
    ensures
        r@ == v@.subrange(a as int, b as int),
{
    let mut r: Vec<char> = Vec::new();
    let mut i: usize = a;
    while i < b
        invariant
            a <= i <= b <= v.len(),
            r@ == v@.subrange(a as int, i as int),
        decreases b - i,
    {
        r.push(v[i]);
        i = i + 1;
        assert(r@ =~= v@.subrange(a as int, i as int));
    }
    r
}

/// Positions `(a, b)` with `v[a..b]` the white-space-trimmed characters.
pub fn trim_ws_bounds(v: &Vec<char>) -> (r: (usize, usize))
    ensures
        r.0 <= r.1 <= v@.len(),
        v@.subrange(r.0 as int, r.1 as int) == trim_ws(v@),
{
    let n = v.len();
    let mut a: usize = 0;
    assert(v@.subrange(0, n as int) =~= v@);
    while a < n && ws_char(v[a])
        invariant
            a <= n,
            n == v@.len(),
            trim_start_ws(v@) == trim_start_ws(v@.subrange(a as int, n as int)),
        decreases n - a,
    {
        assert(v@.subrange(a as int, n as int).drop_first() =~= v@.subrange(a + 1, n as int));
        a = a + 1;
    }
    let ghost front = v@.subrange(a as int, n as int);
    let mut e: usize = n;
    assert(front.subrange(0, (e - a) as int) =~= front);
    while e > a && ws_char(v[e - 1])
        invariant
            a <= e <= n,
            n == v@.len(),
            front == v@.subrange(a as int, n as int),
            trim_start_ws(v@) == front,
            trim_end_ws(front) == trim_end_ws(v@.subrange(a as int, e as int)),
        decreases e - a,
    {
        assert(v@.subrange(a as int, e as int).drop_last() =~= v@.subrange(a as int, (e - 1) as int));
        e = e - 1;
    }
    (a, e)
}

/// The white-space-trimmed characters of `v`.
pub fn trim_chars(v: &Vec<char>) -> (r: Vec<char>)
    ensures
        r@ == trim_ws(v@),
{
    let (a, b) = trim_ws_bounds(v);
    sub_chars(v, a, b)
}

/// Character-wise equality of two vectors.
pub fn chars_eq(x: &Vec<char>, y: &Vec<char>) -> (r: bool)
    ensures
        r == (x@ == y@),
{
    if x.len() != y.len() {
        return false;
    }
    let mut i: usize = 0;
    while i < x.len()
        invariant
            i <= x.len(),
            x.len() == y.len(),
            forall|j: int| 0 <= j < i ==> x@[j] == y@[j],
        decreases x.len() - i,
    {
        if x[i] != y[i] {
            return false;
        }
        i = i + 1;
    }
    assert(x@ =~= y@);
    true
}

/// `v` spells exactly the string `s`.
pub fn chars_are(v: &Vec<char>, s: &str) -> (r: bool)
    ensures
        r == (v@ == s@),
{
    let w = chars_of(s);
    chars_eq(v, &w)
}

/// `p` is a prefix of `s`.
pub open spec fn has_prefix(s: Seq<char>, p: Seq<char>) -> bool {
    p.len() <= s.len() && s.subrange(0, p.len() as int) == p
}

/// `v` starts with the characters of `p`.
pub fn starts_with_chars(v: &Vec<char>, p: &Vec<char>) -> (r: bool)
    ensures
        r == has_prefix(v@, p@),
{
    if p.len() > v.len() {
        return false;
    }
    let mut i: usize = 0;
    while i < p.len()
        invariant
            i <= p.len() <= v.len(),
            forall|j: int| 0 <= j < i ==> v@[j] == p@[j],
        decreases p.len() - i,
    {
        if v[i] != p[i] {
            assert(v@.subrange(0, p@.len() as int)[i as int] != p@[i as int]);
            return false;
        }
        i = i + 1;
    }
    assert(v@.subrange(0, p@.len() as int) =~= p@);
    true
}

/// Characters before the first line feed of `s` (all of `s` without one).
pub open spec fn next_nl(s: Seq<char>) -> nat
    decreases s.len(),
{
    if s.len() == 0 || s[0] == '\n' {
        0
    } else {
        1 + next_nl(s.drop_first())
    }
}

/// Characters before the first white space of `s` (all of `s` without any).
pub open spec fn next_ws(s: Seq<char>) -> nat
    decreases s.len(),
{
    if s.len() == 0 || is_ws(s[0]) {
        0
    } else {
        1 + next_ws(s.drop_first())
    }
}

/// A line without the carriage return that ends it.
pub open spec fn strip_cr(l: Seq<char>) -> Seq<char> {
    if l.len() > 0 && l.last() == '\r' {
        l.drop_last()
    } else {
        l
    }
}

/// The lines of a text as `str::lines` gives them: split at each line
/// feed, a carriage return just before a line feed dropped, and no empty
/// line after a final line feed.
pub open spec fn text_lines(s: Seq<char>) -> Seq<Seq<char>>
    decreases s.len(),
{
    if s.len() == 0 {
        Seq::empty()
    } else if next_nl(s) >= s.len() {
        seq![s]
    } else {
        seq![strip_cr(s.take(next_nl(s) as int))] + text_lines(s.skip(next_nl(s) as int + 1))
    }
}

/// The maximal runs of non-white-space characters, in order, as
/// `str::split_whitespace` gives them.
pub open spec fn split_ws(s: Seq<char>) -> Seq<Seq<char>>
    decreases s.len(),
{
    if s.len() == 0 {
        Seq::empty()
    } else if is_ws(s[0]) {
        split_ws(s.drop_first())
    } else if next_ws(s) >= s.len() {
        seq![s]
    } else {
        seq![s.take(next_ws(s) as int)] + split_ws(s.skip(next_ws(s) as int))
    }
}

/// The views of a sequence of character vectors.
pub open spec fn char_views(v: Seq<Vec<char>>) -> Seq<Seq<char>> {
    v.map_values(|x: Vec<char>| x@)
}

proof fn lemma_char_views_push(v: Seq<Vec<char>>, x: Vec<char>)
    ensures
        char_views(v.push(x)) == char_views(v) + seq![x@],
{
    assert(char_views(v.push(x)) =~= char_views(v) + seq![x@]);
}

/// Position of the first line feed at or after `from` (`v.len()` if none).
fn find_nl(v: &Vec<char>, from: usize) -> (r: usize)
    requires
        from <= v.len(),
    ensures
        from <= r <= v.len(),
        r - from == next_nl(v@.skip(from as int)),
{
    let mut i: usize = from;
    assert(v@.skip(from as int) =~= v@.skip(from as int));
    while i < v.len() && v[i] != '\n'
        invariant
            from <= i <= v.len(),
            next_nl(v@.skip(from as int)) == (i - from) + next_nl(v@.skip(i as int)),
        decreases v.len() - i,
    {
        assert(v@.skip(i as int).drop_first() =~= v@.skip(i + 1));
        i = i + 1;
    }
    i
}

/// Position of the first white space at or after `from` (`v.len()` if none).
fn find_ws(v: &Vec<char>, from: usize) -> (r: usize)
    requires
        from <= v.len(),
    ensures
        from <= r <= v.len(),
        r - from == next_ws(v@.skip(from as int)),
{
    let mut i: usize = from;
    while i < v.len() && !ws_char(v[i])
        invariant
            from <= i <= v.len(),
            next_ws(v@.skip(from as int)) == (i - from) + next_ws(v@.skip(i as int)),
        decreases v.len() - i,
    {
        assert(v@.skip(i as int).drop_first() =~= v@.skip(i + 1));
        i = i + 1;
    }
    i
}

/// The lines of a text (see [`text_lines`]).
pub fn lines_of(v: &Vec<char>) -> (r: Vec<Vec<char>>)
    ensures
        char_views(r@) == text_lines(v@),
{
    let mut lines: Vec<Vec<char>> = Vec::new();
    let mut p: usize = 0;
    assert(v@.skip(0) =~= v@);
    assert(char_views(lines@) =~= Seq::<Seq<char>>::empty());
    while p < v.len()
        invariant
            p <= v.len(),
            text_lines(v@) == char_views(lines@) + text_lines(v@.skip(p as int)),
        decreases v.len() - p,
    {
        let q = find_nl(v, p);
        let ghost t = v@.skip(p as int);
        if q == v.len() {
            let l = sub_chars(v, p, q);
            assert(l@ =~= t);
            proof {
                lemma_char_views_push(lines@, l);
                assert(v@.skip(q as int) =~= Seq::<char>::empty());
            }
            lines.push(l);
            p = q;
        } else {
            let mut l = sub_chars(v, p, q);
            assert(l@ =~= t.take(next_nl(t) as int));
            if l.len() > 0 && l[l.len() - 1] == '\r' {
                l.pop();
            }
            assert(l@ == strip_cr(t.take(next_nl(t) as int)));
            proof {
                lemma_char_views_push(lines@, l);
                assert(t.skip(next_nl(t) as int + 1) =~= v@.skip(q + 1));
            }
            lines.push(l);
            p = q + 1;
        }
    }
    assert(v@.skip(p as int) =~= Seq::<char>::empty());
    assert(char_views(lines@) + Seq::<Seq<char>>::empty() =~= char_views(lines@));
    lines
}

/// The white-space separated words of `v` (see [`split_ws`]).
pub fn words_of(v: &Vec<char>) -> (r: Vec<Vec<char>>)
    ensures
        char_views(r@) == split_ws(v@),
{
    let mut words: Vec<Vec<char>> = Vec::new();
    let mut p: usize = 0;
    assert(v@.skip(0) =~= v@);
    assert(char_views(words@) =~= Seq::<Seq<char>>::empty());
    while p < v.len()
        invariant
            p <= v.len(),
            split_ws(v@) == char_views(words@) + split_ws(v@.skip(p as int)),
        decreases v.len() - p,
    {
        let ghost t = v@.skip(p as int);
        if ws_char(v[p]) {
            assert(t.drop_first() =~= v@.skip(p + 1));
            p = p + 1;
        } else {
            let q = find_ws(v, p);
            let w = sub_chars(v, p, q);
            proof {
                lemma_char_views_push(words@, w);
                if q == v.len() {
                    assert(w@ =~= t);
                    assert(v@.skip(q as int) =~= Seq::<char>::empty());
                } else {
                    assert(w@ =~= t.take(next_ws(t) as int));
                    assert(t.skip(next_ws(t) as int) =~= v@.skip(q as int));
                }
            }
            words.push(w);
            p = q;
        }
    }
    assert(v@.skip(p as int) =~= Seq::<char>::empty());
    assert(char_views(words@) + Seq::<Seq<char>>::empty() =~= char_views(words@));
    words
}

/// `p` occurs in `s` as a contiguous run.
pub open spec fn contains_seq(s: Seq<char>, p: Seq<char>) -> bool {
    exists|i: int| 0 <= i && i + p.len() <= s.len() && #[trigger] s.subrange(i, i + p.len()) == p
}

/// Whether the characters of `p` occur contiguously in `v`.
pub fn contains_chars(v: &Vec<char>, p: &Vec<char>) -> (r: bool)
    ensures
        r == contains_seq(v@, p@),
{
    if p.len() > v.len() {
        return false;
    }
    if p.len() == 0 {
        assert(v@.subrange(0int, 0int + p@.len()) =~= p@);
        return true;
    }
    let m = v.len() - p.len();
    let mut i: usize = 0;
    while i <= m
        invariant
            m == v.len() - p.len(),
            1 <= p.len() <= v.len(),
            i <= m + 1,
            forall|j: int| 0 <= j < i ==> #[trigger] v@.subrange(j, j + p@.len()) != p@,
        decreases m + 1 - i,
    {
        let w = sub_chars(v, i, i + p.len());
        if chars_eq(&w, p) {
            return true;
        }
        i = i + 1;
    }
    false
}

/// Append the characters of `w` to `v`.
pub fn append_chars(v: &mut Vec<char>, w: &Vec<char>)
    ensures
        final(v)@ == old(v)@ + w@,
{
    let ghost start = v@;
    let mut i: usize = 0;
    while i < w.len()
        invariant
            i <= w.len(),
            v@ == start + w@.take(i as int),
        decreases w.len() - i,
    {
        v.push(w[i]);
        i = i + 1;
        assert(v@ =~= start + w@.take(i as int));
    }
    assert(w@.take(w@.len() as int) =~= w@);
}

/// Append the characters of `s` to `v`.
pub fn append_str(v: &mut Vec<char>, s: &str)
    ensures
        final(v)@ == old(v)@ + s@,
{
    let w = chars_of(s);
    append_chars(v, &w);
}

/// Append the decimal spelling of `n` to `v`.
pub fn append_dec(v: &mut Vec<char>, n: u64)
    ensures
        final(v)@ == old(v)@ + dec(n as nat),
{
    let w = dec_chars(n);
    append_chars(v, &w);
}

/// Number of leading ASCII digits of `s`.
pub open spec fn digit_run(s: Seq<char>) -> nat
    decreases s.len(),
{
    if s.len() > 0 && is_digit_char(s[0]) {
        1 + digit_run(s.drop_first())
    } else {
        0
    }
}

/// Length of the run of ASCII digits at the start of `v`.
pub fn digit_run_exec(v: &Vec<char>) -> (r: usize)
    ensures
        r == digit_run(v@),
        r <= v.len(),
        forall|i: int| 0 <= i < r ==> is_digit_char(#[trigger] v@[i]),
        r < v.len() ==> !is_digit_char(v@[r as int]),
{
    let mut i: usize = 0;
    assert(v@.skip(0) =~= v@);
    while i < v.len() && digit_char_exec(v[i])
        invariant
            i <= v.len(),
            digit_run(v@) == i + digit_run(v@.skip(i as int)),
            forall|j: int| 0 <= j < i ==> is_digit_char(#[trigger] v@[j]),
        decreases v.len() - i,
    {
        assert(v@.skip(i as int).drop_first() =~= v@.skip(i + 1));
        i = i + 1;
    }
    i
}

/// Decimal value of a string of ASCII digits.
pub open spec fn digits_value(s: Seq<char>) -> nat
    decreases s.len(),
{
    if s.len() == 0 {
        0
    } else {
        digits_value(s.drop_last()) * 10 + ((s.last() as u32) - ('0' as u32)) as nat
    }
}

pub proof fn lemma_digits_value_push(s: Seq<char>, c: char)
    ensures
        digits_value(s.push(c)) == digits_value(s) * 10 + ((c as u32) - ('0' as u32)) as nat,
{
    assert(s.push(c).drop_last() =~= s);
}

/// `min(value of v[0..d], cap)` for a run of ASCII digits.
pub fn digits_value_upto(v: &Vec<char>, d: usize, cap: u128) -> (r: u128)
    requires
        d <= v.len(),
        1 <= cap <= 0x10_0000_0000_0000_0000_0000_0000,
        forall|i: int| 0 <= i < d ==> is_digit_char(#[trigger] v@[i]),
    ensures
        r <= cap,
        r < cap ==> r == digits_value(v@.take(d as int)),
        r == cap ==> digits_value(v@.take(d as int)) >= cap,
{
    let mut acc: u128 = 0;
    let mut i: usize = 0;
    assert(v@.take(0) =~= Seq::<char>::empty());
    while i < d
        invariant
            i <= d <= v.len(),
            1 <= cap <= 0x10_0000_0000_0000_0000_0000_0000,
            forall|j: int| 0 <= j < d ==> is_digit_char(#[trigger] v@[j]),
            acc <= cap,
            acc < cap ==> acc == digits_value(v@.take(i as int)),
            acc == cap ==> digits_value(v@.take(i as int)) >= cap,
        decreases d - i,
    {
        let c = v[i];
        assert(is_digit_char(v@[i as int]));
        let dv: u128 = ((c as u32) - ('0' as u32)) as u128;
        proof {
            assert(v@.take(i + 1) =~= v@.take(i as int).push(c));
            lemma_digits_value_push(v@.take(i as int), c);
        }
        if acc < cap {
            let next = acc * 10 + dv;
            acc = if next >= cap { cap } else { next };
        }
        i = i + 1;
    }
    acc
}

} // verus!
