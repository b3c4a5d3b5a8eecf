//! ASCII character classes on bytes and characters.

use vstd::prelude::*;

verus! {

/// `b` is an ASCII decimal digit.
pub open spec fn is_digit_byte(b: u8) -> bool {
    48 <= b <= 57
}

/// `b` is an ASCII letter.
pub open spec fn is_alpha_byte(b: u8) -> bool {
    (65 <= b <= 90) || (97 <= b <= 122)
}

/// `b` is an ASCII letter or digit.
pub open spec fn is_alnum_byte(b: u8) -> bool {
    is_alpha_byte(b) || is_digit_byte(b)
}

/// `c` is an ASCII decimal digit.
pub open spec fn is_digit_char(c: char) -> bool {
    '0' <= c <= '9'
}

/// `c` is an ASCII upper-case letter.
pub open spec fn is_upper_char(c: char) -> bool {
    'A' <= c <= 'Z'
}

/// `c` is an ASCII lower-case letter.
pub open spec fn is_lower_char(c: char) -> bool {
    'a' <= c <= 'z'
}

/// `c` is an ASCII letter.
pub open spec fn is_alpha_char(c: char) -> bool {
    is_upper_char(c) || is_lower_char(c)
}

/// ASCII lower-casing of one character (other characters unchanged).
pub open spec fn lower_char(c: char) -> char {
    if is_upper_char(c) {
        ((c as u32) + 32) as char
    } else {
        c
    }
}

/// ASCII upper-casing of one character (other characters unchanged).
pub open spec fn upper_char(c: char) -> char {
    if is_lower_char(c) {
        ((c as u32) - 32) as char
    } else {
        c
    }
}

/// ASCII lower-casing of a character sequence.
pub open spec fn lower_seq(s: Seq<char>) -> Seq<char> {
    s.map_values(|c: char| lower_char(c))
}

/// ASCII upper-casing of a character sequence.
pub open spec fn upper_seq(s: Seq<char>) -> Seq<char> {
    s.map_values(|c: char| upper_char(c))
}

pub fn digit_byte(b: u8) -> (r: bool)
    ensures
        r == is_digit_byte(b),
{
    48 <= b && b <= 57
}

pub fn alpha_byte(b: u8) -> (r: bool)
    ensures
        r == is_alpha_byte(b),
{
    (65 <= b && b <= 90) || (97 <= b && b <= 122)
}

pub fn digit_char(c: char) -> (r: bool)
    ensures
        r == is_digit_char(c),
{
    '0' <= c && c <= '9'
}

pub fn alpha_char(c: char) -> (r: bool)
    ensures
        r == is_alpha_char(c),
{
    ('A' <= c && c <= 'Z') || ('a' <= c && c <= 'z')
}

pub fn upper_ascii_char(c: char) -> (r: bool)
    ensures
        r == is_upper_char(c),
{
    'A' <= c && c <= 'Z'
}

pub fn to_lower_char(c: char) -> (r: char)
    ensures
        r == lower_char(c),
{
    if 'A' <= c && c <= 'Z' {
        ((c as u8) + 32) as char
    } else {
        c
    }
}

pub fn to_upper_char(c: char) -> (r: char)
    ensures
        r == upper_char(c),
{
    if 'a' <= c && c <= 'z' {
        ((c as u8) - 32) as char
    } else {
        c
    }
}

/// ASCII lower-casing of a character vector.
pub fn to_lower_vec(s: &Vec<char>) -> (r: Vec<char>)
    ensures
        r@ == lower_seq(s@),
{
    let mut r: Vec<char> = Vec::new();
    let mut i: usize = 0;
    while i < s.len()
        invariant
            i <= s.len(),
            r@ == lower_seq(s@.subrange(0, i as int)),
        decreases s.len() - i,
    {
        let c = to_lower_char(s[i]);
        r.push(c);
        i = i + 1;
        assert(lower_seq(s@.subrange(0, i as int)) =~= lower_seq(s@.subrange(0, (i - 1) as int)).push(c));
    }
    assert(s@.subrange(0, s@.len() as int) =~= s@);
    r
}

/// ASCII upper-casing of a character vector.
pub fn to_upper_vec(s: &Vec<char>) -> (r: Vec<char>)
    ensures
        r@ == upper_seq(s@),
{
    let mut r: Vec<char> = Vec::new();
    let mut i: usize = 0;
    while i < s.len()
        invariant
            i <= s.len(),
            r@ == upper_seq(s@.subrange(0, i as int)),
        decreases s.len() - i,
    {
        let c = to_upper_char(s[i]);
        r.push(c);
        i = i + 1;
        assert(upper_seq(s@.subrange(0, i as int)) =~= upper_seq(s@.subrange(0, (i - 1) as int)).push(c));
    }
    assert(s@.subrange(0, s@.len() as int) =~= s@);
    r
}

} // verus!
