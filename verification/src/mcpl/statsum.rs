//! Syntax of `stat:sum:<key>:<24-char value>` header comments.

use vstd::prelude::*;
use crate::ascii::{alpha_byte, digit_byte, is_alnum_byte, is_alpha_byte, is_digit_byte};
use vstd::string::*;

verus! {

/// Why a `stat:sum:` comment is rejected (the upstream syntax rules, in the
/// order they are checked).
#[derive(Debug, Clone, Copy, PartialEq, Eq, Structural)]
pub enum StatSumFault {
    MissingPrefix,
    MissingColon,
    EmptyKey,
    KeyTooLong,
    BadKeyName,
    FieldWidth,
    EmptyValue,
    ForbiddenChars,
    Undecodable,
    NonFinite,
    NegativeValue,
}

/// How the trimmed value field of a syntactically valid comment reads as a
/// double: accepted (finite and `>= 0` or exactly `-1`), not decodable,
/// decodable but not finite, or finite but negative and not `-1`.
#[derive(Debug, Clone, Copy, PartialEq, Eq, Structural)]
pub enum StatSumValue {
    Accepted,
    Undecodable,
    NonFinite,
    Negative,
}

impl StatSumFault {
    /// The upstream wording of the fault.
    pub fn reason(&self) -> (r: &'static str)
        ensures
            r@ == match *self {
                StatSumFault::MissingPrefix => "missing stat:sum: prefix"@,
                StatSumFault::MissingColon => "did not find colon separating key and value"@,
                StatSumFault::EmptyKey => "empty key"@,
                StatSumFault::KeyTooLong => "key length exceeds 64 characters"@,
                StatSumFault::BadKeyName => "key does not adhere to naming [a-zA-Z][a-zA-Z0-9_]*"@,
                StatSumFault::FieldWidth => "value field is not exactly 24 characters wide"@,
                StatSumFault::EmptyValue => "value field missing actual value"@,
                StatSumFault::ForbiddenChars => "value field holds forbidden characters"@,
                StatSumFault::Undecodable => "could not decode contents of value field"@,
                StatSumFault::NonFinite => "value field holds forbidden value (NaN or infinity)"@,
                StatSumFault::NegativeValue => "value field must hold non-negative value or -1"@,
            },
    {
        match self {
            StatSumFault::MissingPrefix => "missing stat:sum: prefix",
            StatSumFault::MissingColon => "did not find colon separating key and value",
            StatSumFault::EmptyKey => "empty key",
            StatSumFault::KeyTooLong => "key length exceeds 64 characters",
            StatSumFault::BadKeyName => "key does not adhere to naming [a-zA-Z][a-zA-Z0-9_]*",
            StatSumFault::FieldWidth => "value field is not exactly 24 characters wide",
            StatSumFault::EmptyValue => "value field missing actual value",
            StatSumFault::ForbiddenChars => "value field holds forbidden characters",
            StatSumFault::Undecodable => "could not decode contents of value field",
            StatSumFault::NonFinite => "value field holds forbidden value (NaN or infinity)",
            StatSumFault::NegativeValue => "value field must hold non-negative value or -1",
        }
    }
}

/// The bytes of `stat:sum:`.
pub open spec fn statsum_prefix() -> Seq<u8> {
    seq![115u8, 116u8, 97u8, 116u8, 58u8, 115u8, 117u8, 109u8, 58u8]
}

/// `k` is the position of the first `:` in `s` (`s.len()` when absent).
pub open spec fn is_first_colon(s: Seq<u8>, k: int) -> bool {
    &&& 0 <= k <= s.len()
    &&& k < s.len() ==> s[k] == 58
    &&& forall|j: int| 0 <= j < k ==> s[j] != 58
}

pub open spec fn first_colon(s: Seq<u8>) -> int {
    choose|k: int| is_first_colon(s, k)
}

/// Leading spaces removed.
pub open spec fn trim_front(s: Seq<u8>) -> Seq<u8>
    decreases s.len(),
{
    if s.len() > 0 && s[0] == 32 {
        trim_front(s.drop_first())
    } else {
        s
    }
}

/// Trailing spaces removed.
pub open spec fn trim_back(s: Seq<u8>) -> Seq<u8>
    decreases s.len(),
{
    if s.len() > 0 && s.last() == 32 {
        trim_back(s.drop_last())
    } else {
        s
    }
}

/// Leading and trailing spaces removed.
pub open spec fn trim_spaces(s: Seq<u8>) -> Seq<u8> {
    trim_back(trim_front(s))
}

/// Characters allowed in a value field: digits, `.`, `-`, `+`, `e`, `E`.
pub open spec fn is_value_byte(b: u8) -> bool {
    is_digit_byte(b) || b == 46 || b == 45 || b == 43 || b == 101 || b == 69
}

/// Key naming rule `[a-zA-Z][a-zA-Z0-9_]*` (non-empty).
pub open spec fn key_name_ok(key: Seq<u8>) -> bool {
    &&& key.len() > 0
    &&& is_alpha_byte(key[0])
    &&& forall|i: int| 1 <= i < key.len() ==> (is_alnum_byte(#[trigger] key[i]) || key[i] == 95)
}

/// Syntax of a `stat:sum:` comment given as its UTF-8 bytes: the key and the
/// trimmed value text, or the first rule it breaks.
pub open spec fn statsum_syntax(b: Seq<u8>) -> Result<(Seq<u8>, Seq<u8>), StatSumFault> {
    if b.len() < 9 || b.subrange(0, 9) != statsum_prefix() {
        Err(StatSumFault::MissingPrefix)
    } else {
        let rest = b.subrange(9, b.len() as int);
        let k = first_colon(rest);
        if k == rest.len() {
            Err(StatSumFault::MissingColon)
        } else {
            let key = rest.subrange(0, k);
            let field = rest.subrange(k + 1, rest.len() as int);
            let value = trim_spaces(field);
            if key.len() == 0 {
                Err(StatSumFault::EmptyKey)
            } else if key.len() > 64 {
                Err(StatSumFault::KeyTooLong)
            } else if !key_name_ok(key) {
                Err(StatSumFault::BadKeyName)
            } else if field.len() != 24 {
                Err(StatSumFault::FieldWidth)
            } else if value.len() == 0 {
                Err(StatSumFault::EmptyValue)
            } else if !(forall|i: int| 0 <= i < value.len() ==> is_value_byte(#[trigger] value[i])) {
                Err(StatSumFault::ForbiddenChars)
            } else {
                Ok((key, value))
            }
        }
    }
}

/// The outcome of checking one `stat:sum:` comment, given how its value
/// field reads as a double.
pub open spec fn statsum_outcome(b: Seq<u8>, judged: StatSumValue) -> Result<Seq<u8>, StatSumFault> {
    match statsum_syntax(b) {
        Err(f) => Err(f),
        Ok((key, _)) => match judged {
            StatSumValue::Accepted => Ok(key),
            StatSumValue::Undecodable => Err(StatSumFault::Undecodable),
            StatSumValue::NonFinite => Err(StatSumFault::NonFinite),
            StatSumValue::Negative => Err(StatSumFault::NegativeValue),
        },
    }
}


/// A `stat:sum:` comment built from a well-named key of at most 64
/// characters and a 24-character value field whose trimmed text is
/// non-empty and holds only number characters is accepted, naming its key,
/// whenever its value reads as a finite non-negative number or `-1`.
pub proof fn lemma_statsum_accepts(key: Seq<u8>, field: Seq<u8>)
    requires
        key_name_ok(key),
        key.len() <= 64,
        field.len() == 24,
        trim_spaces(field).len() > 0,
        forall|i: int| 0 <= i < trim_spaces(field).len() ==> is_value_byte(#[trigger] trim_spaces(field)[i]),
    ensures
        statsum_outcome(statsum_prefix() + key + seq![58u8] + field, StatSumValue::Accepted) == Ok::<Seq<u8>, StatSumFault>(key),
{
    let b = statsum_prefix() + key + seq![58u8] + field;
    assert(b.subrange(0, 9) =~= statsum_prefix());
    let rest = b.subrange(9, b.len() as int);
    assert(rest =~= key + seq![58u8] + field);
    let k = key.len() as int;
    assert(is_first_colon(rest, k)) by {
        assert(rest[k] == 58u8);
        assert forall|j: int| 0 <= j < k implies rest[j] != 58 by {
            assert(rest[j] == key[j]);
            if j > 0 {
                assert(is_alnum_byte(key[j]) || key[j] == 95);
            }
        }
    }
    let c = choose|c: int| is_first_colon(rest, c);
    assert(is_first_colon(rest, c));
    if c < k {
        assert(rest[c] == key[c]);
        if c > 0 {
            assert(is_alnum_byte(key[c]) || key[c] == 95);
        }
    } else if c > k {
        assert(rest[k] == 58);
    }
    assert(first_colon(rest) == k);
    assert(rest.subrange(0, k) =~= key);
    assert(rest.subrange(k + 1, rest.len() as int) =~= field);
}


proof fn lemma_first_colon_exists(s: Seq<u8>, i: int) -> (k: int)
    requires
        0 <= i <= s.len(),
        forall|j: int| 0 <= j < i ==> s[j] != 58,
    ensures
        is_first_colon(s, k),
    decreases s.len() - i,
{
    if i == s.len() || s[i] == 58 {
        i
    } else {
        lemma_first_colon_exists(s, i + 1)
    }
}

/// A `stat:sum:` comment is accepted, naming key `key`, only when it is
/// `stat:sum:`, the key, `:` and a 24-character value field, the key being
/// well named and at most 64 characters, the trimmed field non-empty and
/// made of number characters, and its value read as accepted; with
/// [`lemma_statsum_accepts`] this is the whole rule.
pub proof fn lemma_statsum_rule(b: Seq<u8>, judged: StatSumValue)
    ensures
        statsum_outcome(b, judged) is Ok ==> {
            let key = statsum_outcome(b, judged)->Ok_0;
            let field = b.subrange(10 + key.len() as int, b.len() as int);
            &&& judged == StatSumValue::Accepted
            &&& b == statsum_prefix() + key + seq![58u8] + field
            &&& key_name_ok(key)
            &&& key.len() <= 64
            &&& field.len() == 24
            &&& trim_spaces(field).len() > 0
            &&& forall|i: int| 0 <= i < trim_spaces(field).len() ==> is_value_byte(#[trigger] trim_spaces(field)[i])
        },
{
    if statsum_outcome(b, judged) is Ok {
        let rest = b.subrange(9, b.len() as int);
        let w = lemma_first_colon_exists(rest, 0);
        let k = first_colon(rest);
        assert(is_first_colon(rest, k));
        let key = rest.subrange(0, k);
        let field = rest.subrange(k + 1, rest.len() as int);
        assert(statsum_outcome(b, judged)->Ok_0 == key);
        assert(b.subrange(10 + key.len() as int, b.len() as int) =~= field);
        assert(b =~= statsum_prefix() + key + seq![58u8] + field) by {
            assert(b.subrange(0, 9) == statsum_prefix());
            assert(rest[k] == 58);
        }
    }
}

/// ASCII bytes read as characters.
pub open spec fn bytes_as_chars(b: Seq<u8>) -> Seq<char> {
    b.map_values(|x: u8| x as char)
}

proof fn lemma_trim_front_step(s: Seq<u8>, i: int)
    requires
        0 <= i < s.len(),
        s[i] == 32,
    ensures
        trim_front(s.subrange(i, s.len() as int)) == trim_front(s.subrange(i + 1, s.len() as int)),
{
    let t = s.subrange(i, s.len() as int);
    assert(t.drop_first() =~= s.subrange(i + 1, s.len() as int));
}

/// Bounds `[a, e)` of the space-trimmed part of `s`.
fn trim_bounds(s: &[u8]) -> (r: (usize, usize))
    ensures
        r.0 <= r.1 <= s@.len(),
        s@.subrange(r.0 as int, r.1 as int) == trim_spaces(s@),
{
    let n = s.len();
    let mut a: usize = 0;
    assert(s@.subrange(0, n as int) =~= s@);
    while a < n && s[a] == 32
        invariant
            a <= n,
            n == s@.len(),
            trim_front(s@) == trim_front(s@.subrange(a as int, n as int)),
        decreases n - a,
    {
        proof {
            lemma_trim_front_step(s@, a as int);
        }
        a = a + 1;
    }
    let ghost front = s@.subrange(a as int, n as int);
    assert(trim_front(front) == front);
    let mut e: usize = n;
    assert(front.subrange(0, (e - a) as int) =~= front);
    while e > a && s[e - 1] == 32
        invariant
            a <= e <= n,
            n == s@.len(),
            front == s@.subrange(a as int, n as int),
            trim_back(front) == trim_back(s@.subrange(a as int, e as int)),
        decreases e - a,
    {
        proof {
            let t = s@.subrange(a as int, e as int);
            assert(t.drop_last() =~= s@.subrange(a as int, (e - 1) as int));
        }
        e = e - 1;
    }
    let ghost fin = s@.subrange(a as int, e as int);
    assert(trim_back(fin) == fin);
    (a, e)
}

/// Key and trimmed value text of a comment that passes every syntax rule,
/// or the first rule it breaks (bytes of the comment).
#[verifier::loop_isolation(false)]
fn statsum_syntax_exec(b: &[u8]) -> (r: Result<(Vec<u8>, Vec<u8>), StatSumFault>)
    ensures
        match (r, statsum_syntax(b@)) {
            (Ok((k, v)), Ok((ks, vs))) => k@ == ks && v@ == vs,
            (Err(f), Err(g)) => f == g,
            _ => false,
        },
{
    let n = b.len();
    if n < 9 {
        return Err(StatSumFault::MissingPrefix);
    }
    let pre: [u8; 9] = [115u8, 116u8, 97u8, 116u8, 58u8, 115u8, 117u8, 109u8, 58u8];
    let mut i: usize = 0;
    while i < 9
        invariant
            i <= 9,
            n == b@.len(),
            n >= 9,
            pre@ == statsum_prefix(),
            forall|j: int| 0 <= j < i ==> b@[j] == statsum_prefix()[j],
        decreases 9 - i,
    {
        if b[i] != pre[i] {
            assert(b@.subrange(0, 9)[i as int] != statsum_prefix()[i as int]);
            return Err(StatSumFault::MissingPrefix);
        }
        i = i + 1;
    }
    assert(b@.subrange(0, 9) =~= statsum_prefix());
    let rest = vstd::slice::slice_subrange(b, 9, n);
    let rn = rest.len();
    let mut k: usize = 0;
    while k < rn && rest[k] != 58
        invariant
            k <= rn,
            rn == rest@.len(),
            forall|j: int| 0 <= j < k ==> rest@[j] != 58,
        decreases rn - k,
    {
        k = k + 1;
    }
    proof {
        assert(is_first_colon(rest@, k as int));
        let c = first_colon(rest@);
        assert(is_first_colon(rest@, c));
        if c < k as int {
            assert(rest@[c] == 58);
        } else if c > k as int {
            assert(rest@[k as int] == 58);
        }
        assert(c == k as int);
    }
    if k == rn {
        return Err(StatSumFault::MissingColon);
    }
    let key = vstd::slice::slice_subrange(rest, 0, k);
    let field = vstd::slice::slice_subrange(rest, k + 1, rn);
    let (a, e) = trim_bounds(field);
    let value = vstd::slice::slice_subrange(field, a, e);
    if k == 0 {
        return Err(StatSumFault::EmptyKey);
    }
    if k > 64 {
        return Err(StatSumFault::KeyTooLong);
    }
    if !alpha_byte(key[0]) {
        return Err(StatSumFault::BadKeyName);
    }
    let mut j: usize = 1;
    while j < k
        invariant
            1 <= j <= k,
            k == key@.len(),
            is_alpha_byte(key@[0]),
            forall|t: int| 1 <= t < j ==> (is_alnum_byte(#[trigger] key@[t]) || key@[t] == 95),
        decreases k - j,
    {
        let c = key[j];
        if !(alpha_byte(c) || digit_byte(c) || c == 95) {
            assert(!key_name_ok(key@));
            return Err(StatSumFault::BadKeyName);
        }
        j = j + 1;
    }
    if field.len() != 24 {
        return Err(StatSumFault::FieldWidth);
    }
    let vn = value.len();
    if vn == 0 {
        return Err(StatSumFault::EmptyValue);
    }
    let mut t: usize = 0;
    while t < vn
        invariant
            t <= vn,
            vn == value@.len(),
            forall|q: int| 0 <= q < t ==> is_value_byte(#[trigger] value@[q]),
        decreases vn - t,
    {
        let c = value[t];
        if !(digit_byte(c) || c == 46 || c == 45 || c == 43 || c == 101 || c == 69) {
            assert(!is_value_byte(value@[t as int]));
            return Err(StatSumFault::ForbiddenChars);
        }
        t = t + 1;
    }
    Ok((vstd::slice::slice_to_vec(key), vstd::slice::slice_to_vec(value)))
}

/// ASCII bytes as a string of the same characters.
pub(crate) fn ascii_string(b: &Vec<u8>) -> (s: String)
    ensures
        s@ == bytes_as_chars(b@),
{
    let mut v: Vec<char> = Vec::new();
    let mut i: usize = 0;
    while i < b.len()
        invariant
            i <= b.len(),
            v@ == bytes_as_chars(b@.subrange(0, i as int)),
        decreases b.len() - i,
    {
        v.push(b[i] as char);
        i = i + 1;
        assert(bytes_as_chars(b@.subrange(0, i as int)) =~= bytes_as_chars(b@.subrange(0, (i - 1) as int)).push(b@[i - 1] as char));
    }
    assert(b@.subrange(0, b@.len() as int) =~= b@);
    crate::text::string_from_chars(v.as_slice())
}

/// The trimmed value text of a `stat:sum:` comment whose key and field
/// widths obey the upstream syntax; `None` when a syntax rule fails. This is
/// the text whose reading as a double decides the comment's fate.
pub fn statsum_value_text(comment: &str) -> (r: Option<String>)
    ensures
        match (r, statsum_syntax(comment.spec_bytes())) {
            (Some(t), Ok((_, v))) => t@ == bytes_as_chars(v),
            (None, Err(_)) => true,
            _ => false,
        },
{
    match statsum_syntax_exec(comment.as_bytes()) {
        Ok((_, v)) => Some(ascii_string(&v)),
        Err(_) => None,
    }
}

/// Check one `stat:sum:<key>:<24-char value>` comment against the upstream
/// syntax (key `[a-zA-Z][a-zA-Z0-9_]*` of 1 to 64 bytes; value field exactly
/// 24 bytes holding, once spaces are trimmed, only `[0-9.+-eE]`), with
/// `judged` saying how the trimmed value reads as a double. Returns the key.
pub fn statsum_validate(comment: &str, judged: StatSumValue) -> (r: Result<String, StatSumFault>)
    ensures
        match (r, statsum_outcome(comment.spec_bytes(), judged)) {
            (Ok(k), Ok(ks)) => k@ == bytes_as_chars(ks),
            (Err(f), Err(g)) => f == g,
            _ => false,
        },
{
    match statsum_syntax_exec(comment.as_bytes()) {
        Err(f) => Err(f),
        Ok((k, _)) => match judged {
            StatSumValue::Accepted => Ok(ascii_string(&k)),
            StatSumValue::Undecodable => Err(StatSumFault::Undecodable),
            StatSumValue::NonFinite => Err(StatSumFault::NonFinite),
            StatSumValue::Negative => Err(StatSumFault::NegativeValue),
        },
    }
}

/// The bytes start with `stat:sum:`.
pub(crate) fn has_statsum_prefix(b: &[u8]) -> (r: bool)
    ensures
        r == (b@.len() >= 9 && b@.subrange(0, 9) == statsum_prefix()),
{
    if b.len() < 9 {
        return false;
    }
    let pre: [u8; 9] = [115u8, 116u8, 97u8, 116u8, 58u8, 115u8, 117u8, 109u8, 58u8];
    let mut i: usize = 0;
    while i < 9
        invariant
            i <= 9,
            b@.len() >= 9,
            pre@ == statsum_prefix(),
            forall|j: int| 0 <= j < i ==> b@[j] == statsum_prefix()[j],
        decreases 9 - i,
    {
        if b[i] != pre[i] {
            assert(b@.subrange(0, 9)[i as int] != statsum_prefix()[i as int]);
            return false;
        }
        i = i + 1;
    }
    assert(b@.subrange(0, 9) =~= statsum_prefix());
    true
}

/// Key bytes of an accepted comment, or the fault (bytes of the comment).
pub(crate) fn statsum_key(b: &[u8], judged: StatSumValue) -> (r: Result<Vec<u8>, StatSumFault>)
    ensures
        match (r, statsum_outcome(b@, judged)) {
            (Ok(k), Ok(ks)) => k@ == ks,
            (Err(f), Err(g)) => f == g,
            _ => false,
        },
{
    match statsum_syntax_exec(b) {
        Err(f) => Err(f),
        Ok((k, _)) => match judged {
            StatSumValue::Accepted => Ok(k),
            StatSumValue::Undecodable => Err(StatSumFault::Undecodable),
            StatSumValue::NonFinite => Err(StatSumFault::NonFinite),
            StatSumValue::Negative => Err(StatSumFault::NegativeValue),
        },
    }
}

/// Byte-sequence equality.
pub(crate) fn bytes_eq(a: &[u8], b: &[u8]) -> (r: bool)
    ensures
        r == (a@ == b@),
{
    if a.len() != b.len() {
        return false;
    }
    let mut i: usize = 0;
    while i < a.len()
        invariant
            i <= a@.len(),
            a@.len() == b@.len(),
            forall|j: int| 0 <= j < i ==> a@[j] == b@[j],
        decreases a.len() - i,
    {
        if a[i] != b[i] {
            return false;
        }
        i = i + 1;
    }
    assert(a@ =~= b@);
    true
}

} // verus!
