//! FISPACT-II clearance listings: the line rules of the wide inventory
//! table printed with the `HAZARDS` + `CLEAR` keywords, its time-step
//! headers, and its data-row layout.

use vstd::prelude::*;
use vstd::string::*;
use crate::ascii::{is_alpha_char, lower_seq, to_lower_vec, alpha_char};
use crate::fgr15::{all_alpha};
use crate::text::{trim_ws, split_ws, char_views, chars_of, trim_chars, words_of, chars_are, append_str, append_chars, string_from_chars, digit_run, digits_value, digit_run_exec, digits_value_upto, sub_chars};

verus! {

/// Errors from reading a clearance listing.
#[derive(Debug, Clone, PartialEq)]
pub enum Error {
    /// A malformed line: 1-based line number and message.
    Parse { line: usize, msg: String },
}

/// An [`Error`] with its message as characters.
pub enum ErrorView {
    Parse { line: int, msg: Seq<char> },
}

impl View for Error {
    type V = ErrorView;

    open spec fn view(&self) -> ErrorView {
        match self {
            Error::Parse { line, msg } => ErrorView::Parse { line: *line as int, msg: msg@ },
        }
    }
}

/// `w` is one of the words of `toks`.
pub open spec fn has_word(toks: Seq<Seq<char>>, w: Seq<char>) -> bool {
    exists|i: int| 0 <= i < toks.len() && toks[i] == w
}

fn words_have(words: &Vec<Vec<char>>, w: &str) -> (r: bool)
    ensures
        r == has_word(char_views(words@), w@),
{
    let mut i: usize = 0;
    while i < words.len()
        invariant
            i <= words.len(),
            forall|j: int| 0 <= j < i ==> char_views(words@)[j] != w@,
        decreases words.len() - i,
    {
        if chars_are(&words[i], w) {
            assert(char_views(words@)[i as int] == w@);
            return true;
        }
        i = i + 1;
    }
    false
}

/// The line opens a `* * * TIME INTERVAL n * * *` header: its words
/// include both `TIME` and `INTERVAL`.
pub open spec fn time_header_line(line: Seq<char>) -> bool {
    has_word(split_ws(line), "INTERVAL"@) && has_word(split_ws(line), "TIME"@)
}

/// True when `line` opens a `* * * TIME INTERVAL n * * *` header.
pub fn is_time_header(line: &str) -> (r: bool)
    ensures
        r == time_header_line(line@),
{
    let v = chars_of(line);
    let w = words_of(&v);
    words_have(&w, "INTERVAL") && words_have(&w, "TIME")
}

/// The wide inventory column header carrying the clearance column: first
/// word `NUCLIDE`, with `CLEARANCE` and `HALF` among the words.
pub open spec fn column_header_line(line: Seq<char>) -> bool {
    let toks = split_ws(line);
    toks.len() > 0 && toks[0] == "NUCLIDE"@ && has_word(toks, "CLEARANCE"@) && has_word(toks, "HALF"@)
}

/// True for the wide inventory column header carrying the clearance column.
pub fn is_column_header(line: &str) -> (r: bool)
    ensures
        r == column_header_line(line@),
{
    let v = chars_of(line);
    let w = words_of(&v);
    if w.len() == 0 {
        return false;
    }
    assert(char_views(w@)[0] == w@[0]@);
    chars_are(&w[0], "NUCLIDE") && words_have(&w, "CLEARANCE") && words_have(&w, "HALF")
}

/// The mass word of a data row: a run of digits, then (after the first
/// character that ends the run) only ASCII letters.
pub open spec fn mass_word(mass: Seq<char>) -> bool {
    let d = digit_run(mass) as int;
    d > 0 && (d >= mass.len() || all_alpha(mass.skip(d + 1)))
}

/// The line looks like a nuclide data-row attempt: a symbol word of at
/// most two ASCII letters, then a mass word.
pub open spec fn data_row_line(line: Seq<char>) -> bool {
    let toks = split_ws(line);
    toks.len() >= 2 && toks[0].len() <= 2 && all_alpha(toks[0]) && mass_word(toks[1])
}

fn all_alpha_from(v: &Vec<char>, from: usize) -> (r: bool)
    requires
        from <= v.len(),
    ensures
        r == all_alpha(v@.skip(from as int)),
{
    let mut i: usize = from;
    while i < v.len()
        invariant
            from <= i <= v.len(),
            forall|j: int| from <= j < i ==> is_alpha_char(#[trigger] v@[j]),
        decreases v.len() - i,
    {
        if !alpha_char(v[i]) {
            assert(v@.skip(from as int)[i - from] == v@[i as int]);
            return false;
        }
        i = i + 1;
    }
    assert forall|k: int| 0 <= k < v@.skip(from as int).len() implies is_alpha_char(#[trigger] v@.skip(from as int)[k]) by {
        assert(v@.skip(from as int)[k] == v@[from + k]);
    }
    true
}

fn data_row_words(w: &Vec<Vec<char>>) -> (r: bool)
    ensures
        r == (char_views(w@).len() >= 2 && char_views(w@)[0].len() <= 2 && all_alpha(char_views(w@)[0])
            && mass_word(char_views(w@)[1])),
{
    if w.len() < 2 {
        return false;
    }
    assert(char_views(w@)[0] == w@[0]@ && char_views(w@)[1] == w@[1]@);
    let sym = &w[0];
    let mass = &w[1];
    if sym.len() > 2 || !all_alpha_from(sym, 0) {
        assert(sym@.skip(0) =~= sym@);
        return false;
    }
    assert(sym@.skip(0) =~= sym@);
    let d = digit_run_exec(mass);
    if d == 0 {
        return false;
    }
    if d >= mass.len() {
        return true;
    }
    all_alpha_from(mass, d + 1)
}

/// True when `line` looks like a nuclide data-row attempt (element symbol
/// plus mass-like word), as opposed to structural prose.
pub fn looks_like_data_row(line: &str) -> (r: bool)
    ensures
        r == data_row_line(line@),
{
    let v = chars_of(line);
    let w = words_of(&v);
    data_row_words(&w)
}

/// A flag word: non-empty, made only of `#`, `>`, `?`, `&`.
pub open spec fn flags_word(t: Seq<char>) -> bool {
    t.len() > 0 && forall|i: int| 0 <= i < t.len() ==> (#[trigger] t[i] == '#' || t[i] == '>' || t[i] == '?' || t[i] == '&')
}

fn flags_chars(t: &Vec<char>) -> (r: bool)
    ensures
        r == flags_word(t@),
{
    if t.len() == 0 {
        return false;
    }
    let mut i: usize = 0;
    while i < t.len()
        invariant
            i <= t.len(),
            forall|j: int| 0 <= j < i ==> (#[trigger] t@[j] == '#' || t@[j] == '>' || t@[j] == '?' || t@[j] == '&'),
        decreases t.len() - i,
    {
        let c = t[i];
        if !(c == '#' || c == '>' || c == '?' || c == '&') {
            return false;
        }
        i = i + 1;
    }
    true
}

/// True for flag tokens made only of `#>?&` characters.
pub fn is_flags_token(token: &str) -> (r: bool)
    ensures
        r == flags_word(token@),
{
    let v = chars_of(token);
    flags_chars(&v)
}

/// Seconds in one step-time unit, by name (case-insensitive, surrounding
/// white space ignored): `s m h d w y` and their long forms, with
/// `w = 7 d` and `y = 365 d`.
pub open spec fn unit_seconds(unit: Seq<char>) -> Option<u32> {
    let u = lower_seq(trim_ws(unit));
    if u == "s"@ || u == "sec"@ || u == "secs"@ || u == "second"@ || u == "seconds"@ {
        Some(1)
    } else if u == "m"@ || u == "min"@ || u == "mins"@ || u == "minute"@ || u == "minutes"@ {
        Some(60)
    } else if u == "h"@ || u == "hr"@ || u == "hrs"@ || u == "hour"@ || u == "hours"@ {
        Some(3_600)
    } else if u == "d"@ || u == "day"@ || u == "days"@ {
        Some(86_400)
    } else if u == "w"@ || u == "week"@ || u == "weeks"@ {
        Some(604_800)
    } else if u == "y"@ || u == "yr"@ || u == "yrs"@ || u == "year"@ || u == "years"@ {
        Some(31_536_000)
    } else {
        None
    }
}

/// Conversion factor to seconds for a step-time unit.
pub fn time_unit_to_seconds(unit: &str) -> (r: Option<u32>)
    ensures
        r == unit_seconds(unit@),
{
    let raw = chars_of(unit);
    let t = trim_chars(&raw);
    let u = to_lower_vec(&t);
    if chars_are(&u, "s") || chars_are(&u, "sec") || chars_are(&u, "secs") || chars_are(&u, "second")
        || chars_are(&u, "seconds") {
        Some(1)
    } else if chars_are(&u, "m") || chars_are(&u, "min") || chars_are(&u, "mins") || chars_are(&u, "minute")
        || chars_are(&u, "minutes") {
        Some(60)
    } else if chars_are(&u, "h") || chars_are(&u, "hr") || chars_are(&u, "hrs") || chars_are(&u, "hour")
        || chars_are(&u, "hours") {
        Some(3_600)
    } else if chars_are(&u, "d") || chars_are(&u, "day") || chars_are(&u, "days") {
        Some(86_400)
    } else if chars_are(&u, "w") || chars_are(&u, "week") || chars_are(&u, "weeks") {
        Some(604_800)
    } else if chars_are(&u, "y") || chars_are(&u, "yr") || chars_are(&u, "yrs") || chars_are(&u, "year")
        || chars_are(&u, "years") {
        Some(31_536_000)
    } else {
        None
    }
}

/// The value of a decimal integer word as `i64` parsing reads it: an
/// optional `+` or `-`, then one or more ASCII digits, in range.
pub open spec fn int_value(t: Seq<char>) -> Option<i64> {
    let neg = t.len() > 0 && t[0] == '-';
    let signed = t.len() > 0 && (t[0] == '-' || t[0] == '+');
    let body = if signed { t.drop_first() } else { t };
    let v = digits_value(body);
    if body.len() == 0 || digit_run(body) != body.len() {
        None
    } else if neg {
        if v <= 0x8000_0000_0000_0000 {
            Some((0 - v) as i64)
        } else {
            None
        }
    } else if v <= 0x7fff_ffff_ffff_ffff {
        Some(v as i64)
    } else {
        None
    }
}

/// Read a decimal integer word (see [`int_value`]).
pub fn parse_int(t: &Vec<char>) -> (r: Option<i64>)
    ensures
        r == int_value(t@),
{
    let signed = t.len() > 0 && (t[0] == '-' || t[0] == '+');
    let neg = t.len() > 0 && t[0] == '-';
    let body = if signed { sub_chars(t, 1, t.len()) } else { sub_chars(t, 0, t.len()) };
    assert(signed ==> body@ =~= t@.drop_first());
    assert(!signed ==> body@ =~= t@);
    let d = digit_run_exec(&body);
    if body.len() == 0 || d != body.len() {
        return None;
    }
    assert(body@.take(d as int) =~= body@);
    let v = digits_value_upto(&body, d, 0x8000_0000_0000_0001);
    if neg {
        if v <= 0x8000_0000_0000_0000 {
            if v == 0x8000_0000_0000_0000 {
                Some(i64::MIN)
            } else {
                let x = v as i64;
                Some(-x)
            }
        } else {
            None
        }
    } else if v <= 0x7fff_ffff_ffff_ffff {
        Some(v as i64)
    } else {
        None
    }
}

/// `k` is the first index at or after `from` of word `w` in `toks`
/// (`toks.len()` when there is none).
pub open spec fn is_first_word(toks: Seq<Seq<char>>, w: Seq<char>, from: int, k: int) -> bool {
    &&& from <= k <= toks.len()
    &&& k < toks.len() ==> toks[k] == w
    &&& forall|j: int| from <= j < k ==> toks[j] != w
}

pub open spec fn first_word(toks: Seq<Seq<char>>, w: Seq<char>, from: int) -> int {
    choose|k: int| is_first_word(toks, w, from, k)
}

fn find_word(words: &Vec<Vec<char>>, w: &str, from: usize) -> (r: usize)
    requires
        from <= words.len(),
    ensures
        r as int == first_word(char_views(words@), w@, from as int),
        from <= r <= words.len(),
{
    let ghost ws = char_views(words@);
    let mut i: usize = from;
    while i < words.len() && !chars_are(&words[i], w)
        invariant
            from <= i <= words.len(),
            ws == char_views(words@),
            forall|j: int| from <= j < i ==> ws[j] != w@,
        decreases words.len() - i,
    {
        assert(ws[i as int] == words@[i as int]@);
        i = i + 1;
    }
    if i < words.len() {
        assert(ws[i as int] == words@[i as int]@);
    }
    proof {
        assert(is_first_word(ws, w@, from as int, i as int));
        let m = choose|m: int| is_first_word(ws, w@, from as int, m);
        if m < i {
            assert(ws[m] == w@);
        } else if i < m {
            assert(ws[i as int] == w@);
        }
    }
    i
}

/// Last word index of a step-time tag that starts its value at `end - 1`:
/// each `OR <value> <unit>` alternative that follows extends it.
pub open spec fn label_end(toks: Seq<Seq<char>>, end: int) -> int
    decreases toks.len() - end,
{
    if end >= 0 && end + 2 < toks.len() && toks[end + 1] == "OR"@ {
        label_end(toks, end + 3)
    } else {
        end
    }
}

/// Words joined with single spaces.
pub open spec fn join_words(s: Seq<Seq<char>>) -> Seq<char>
    decreases s.len(),
{
    if s.len() == 0 {
        Seq::empty()
    } else if s.len() == 1 {
        s[0]
    } else {
        join_words(s.drop_last()) + seq![' '] + s.last()
    }
}

/// Words joined with nothing between them.
pub open spec fn concat_words(s: Seq<Seq<char>>) -> Seq<char>
    decreases s.len(),
{
    if s.len() == 0 {
        Seq::empty()
    } else {
        concat_words(s.drop_last()) + s.last()
    }
}

/// `prefix` + `` `line` `` + nothing else: the shape of every message that
/// quotes a line or word.
pub open spec fn quoted(prefix: Seq<char>, text: Seq<char>) -> Seq<char> {
    prefix + text + "`"@
}

fn quoted_msg(prefix: &str, text: &Vec<char>) -> (r: String)
    ensures
        r@ == quoted(prefix@, text@),
{
    let mut v: Vec<char> = Vec::new();
    append_str(&mut v, prefix);
    append_chars(&mut v, text);
    append_str(&mut v, "`");
    assert(v@ =~= quoted(prefix@, text@));
    string_from_chars(v.as_slice())
}

/// The fields of a time-step header, before its value is read as a number.
pub struct TimeFields {
    /// `TIME INTERVAL` number.
    pub interval: i64,
    /// The step-time value word (first word after the `IS` tag).
    pub value: String,
    /// The step-time unit word.
    pub unit: String,
    /// The tag payload from `TIME` or `COOLING TIME` through the last
    /// `OR <value> <unit>` alternative.
    pub label: String,
    /// True for `COOLING TIME IS` steps.
    pub cooling: bool,
}

pub struct TimeFieldsView {
    pub interval: i64,
    pub value: Seq<char>,
    pub unit: Seq<char>,
    pub label: Seq<char>,
    pub cooling: bool,
}

impl View for TimeFields {
    type V = TimeFieldsView;

    open spec fn view(&self) -> TimeFieldsView {
        TimeFieldsView {
            interval: self.interval,
            value: self.value@,
            unit: self.unit@,
            label: self.label@,
            cooling: self.cooling,
        }
    }
}

/// The fields of time-step header `line` (trimmed) at line `line_no`, or
/// the error it raises before its value is read.
pub open spec fn time_fields(line: Seq<char>, line_no: int) -> Result<TimeFieldsView, ErrorView> {
    let toks = split_ws(line);
    let ip = first_word(toks, "INTERVAL"@, 0);
    let isp = first_word(toks, "IS"@, ip);
    let cooling = has_word(toks.subrange(ip, isp), "COOLING"@);
    let tag_start = if cooling {
        if isp >= 2 { isp - 2 } else { 0 }
    } else {
        if isp >= 1 { isp - 1 } else { 0 }
    };
    let end = label_end(toks, isp + 2);
    if ip >= toks.len() {
        Err(ErrorView::Parse { line: line_no, msg: quoted("expected `TIME INTERVAL n`, found `"@, line) })
    } else if ip + 1 >= toks.len() || int_value(toks[ip + 1]) is None {
        Err(ErrorView::Parse {
            line: line_no,
            msg: quoted("expected interval number after `TIME INTERVAL`, found `"@, line),
        })
    } else if isp >= toks.len() {
        Err(ErrorView::Parse {
            line: line_no,
            msg: quoted("expected `TIME IS` / `COOLING TIME IS` tag, found `"@, line),
        })
    } else if isp + 2 >= toks.len() {
        Err(ErrorView::Parse {
            line: line_no,
            msg: quoted("expected `<value> <unit>` after `IS` tag, found `"@, line),
        })
    } else {
        Ok(TimeFieldsView {
            interval: int_value(toks[ip + 1])->0,
            value: toks[isp + 1],
            unit: toks[isp + 2],
            label: join_words(toks.subrange(tag_start, end + 1)),
            cooling,
        })
    }
}

fn join_range(words: &Vec<Vec<char>>, a: usize, b: usize) -> (r: Vec<char>)
    requires
        a < b <= words.len(),
    ensures
        r@ == join_words(char_views(words@).subrange(a as int, b as int)),
{
    let ghost ws = char_views(words@);
    let mut v: Vec<char> = Vec::new();
    append_chars(&mut v, &words[a]);
    let mut i: usize = a + 1;
    assert(ws.subrange(a as int, a + 1).len() == 1);
    assert(v@ =~= join_words(ws.subrange(a as int, i as int)));
    while i < b
        invariant
            a < i <= b <= words.len(),
            ws == char_views(words@),
            v@ == join_words(ws.subrange(a as int, i as int)),
        decreases b - i,
    {
        v.push(' ');
        append_chars(&mut v, &words[i]);
        proof {
            let s = ws.subrange(a as int, i + 1);
            assert(s.drop_last() =~= ws.subrange(a as int, i as int));
            assert(s.last() == words@[i as int]@);
        }
        i = i + 1;
    }
    v
}

fn label_end_exec(words: &Vec<Vec<char>>, start: usize) -> (r: usize)
    requires
        start <= words.len(),
    ensures
        r as int == label_end(char_views(words@), start as int),
        start <= r <= words.len(),
{
    let ghost ws = char_views(words@);
    let mut end: usize = start;
    while words.len() - end > 2 && chars_are(&words[end + 1], "OR")
        invariant
            start <= end <= words.len(),
            ws == char_views(words@),
            label_end(ws, start as int) == label_end(ws, end as int),
        decreases words.len() - end,
    {
        assert(ws[end + 1] == words@[end + 1]@);
        end = end + 3;
    }
    proof {
        if end + 2 < words.len() {
            assert(ws[end + 1] == words@[end + 1]@);
        }
    }
    end
}

/// The step-time tag of header `line` would run past its last word: an
/// `OR` alternative is missing its unit. Reading such a header is refused.
pub open spec fn label_overruns(line: Seq<char>) -> bool {
    let toks = split_ws(line);
    let ip = first_word(toks, "INTERVAL"@, 0);
    let isp = first_word(toks, "IS"@, ip);
    &&& ip + 1 < toks.len()
    &&& int_value(toks[ip + 1]) is Some
    &&& isp + 2 < toks.len()
    &&& label_end(toks, isp + 2) >= toks.len()
}

/// Whether the step-time tag of header `line` runs past its last word.
pub fn header_label_overruns(line: &Vec<char>) -> (r: bool)
    ensures
        r == label_overruns(line@),
{
    let words = words_of(line);
    let ghost ws = char_views(words@);
    let ip = find_word(&words, "INTERVAL", 0);
    if words.len() - ip <= 1 {
        return false;
    }
    assert(ws[ip + 1] == words@[ip + 1]@);
    if parse_int(&words[ip + 1]).is_none() {
        return false;
    }
    let isp = find_word(&words, "IS", ip);
    if words.len() - isp <= 2 {
        return false;
    }
    let end = label_end_exec(&words, isp + 2);
    end >= words.len()
}

/// Read the fields of a `TIME INTERVAL` header line (trimmed) at line
/// `line_no`, up to but not including reading its value as a number.
pub fn time_header_fields(line: &Vec<char>, line_no: usize) -> (r: Result<TimeFields, Error>)
    requires
        !label_overruns(line@),
    ensures
        match (r, time_fields(line@, line_no as int)) {
            (Ok(a), Ok(b)) => a@ == b,
            (Err(e), Err(f)) => e@ == f,
            _ => false,
        },
{
    let words = words_of(line);
    let ghost ws = char_views(words@);
    let ip = find_word(&words, "INTERVAL", 0);
    if ip >= words.len() {
        return Err(Error::Parse { line: line_no, msg: quoted_msg("expected `TIME INTERVAL n`, found `", line) });
    }
    if words.len() - ip <= 1 {
        return Err(Error::Parse {
            line: line_no,
            msg: quoted_msg("expected interval number after `TIME INTERVAL`, found `", line),
        });
    }
    assert(ws[ip + 1] == words@[ip + 1]@);
    let interval = match parse_int(&words[ip + 1]) {
        Some(n) => n,
        None => {
            return Err(Error::Parse {
                line: line_no,
                msg: quoted_msg("expected interval number after `TIME INTERVAL`, found `", line),
            });
        },
    };
    let isp = find_word(&words, "IS", ip);
    if isp >= words.len() {
        return Err(Error::Parse {
            line: line_no,
            msg: quoted_msg("expected `TIME IS` / `COOLING TIME IS` tag, found `", line),
        });
    }
    if words.len() - isp <= 2 {
        return Err(Error::Parse {
            line: line_no,
            msg: quoted_msg("expected `<value> <unit>` after `IS` tag, found `", line),
        });
    }
    let mut cooling = false;
    let mut j: usize = ip;
    while j < isp
        invariant
            ip <= j <= isp < words.len(),
            ws == char_views(words@),
            cooling == has_word(ws.subrange(ip as int, j as int), "COOLING"@),
        decreases isp - j,
    {
        proof {
            let s = ws.subrange(ip as int, j + 1);
            assert(s[j - ip] == ws[j as int]);
            assert(ws[j as int] == words@[j as int]@);
            if has_word(ws.subrange(ip as int, j as int), "COOLING"@) {
                let k = choose|k: int| 0 <= k < j - ip && ws.subrange(ip as int, j as int)[k] == "COOLING"@;
                assert(s[k] == "COOLING"@);
            }
            if has_word(s, "COOLING"@) {
                let k = choose|k: int| 0 <= k < s.len() && s[k] == "COOLING"@;
                if k < j - ip {
                    assert(ws.subrange(ip as int, j as int)[k] == "COOLING"@);
                }
            }
        }
        if chars_are(&words[j], "COOLING") {
            cooling = true;
        }
        j = j + 1;
    }
    let tag_start: usize = if cooling {
        if isp >= 2 { isp - 2 } else { 0 }
    } else {
        if isp >= 1 { isp - 1 } else { 0 }
    };
    let end = label_end_exec(&words, isp + 2);
    let label = join_range(&words, tag_start, end + 1);
    assert(ws[isp + 1] == words@[isp + 1]@ && ws[isp + 2] == words@[isp + 2]@);
    let value = string_from_chars(words[isp + 1].as_slice());
    let unit = string_from_chars(words[isp + 2].as_slice());
    let label = string_from_chars(label.as_slice());
    Ok(TimeFields { interval, value, unit, label, cooling })
}

/// The step time factor for a header's unit word, or the error naming it.
pub fn step_unit_seconds(unit: &str, line_no: usize) -> (r: Result<u32, Error>)
    ensures
        match unit_seconds(unit@) {
            Some(f) => r matches Ok(g) && g == f,
            None => r matches Err(e) && e@ == (ErrorView::Parse {
                line: line_no as int,
                msg: quoted("unknown step-time unit `"@, unit@),
            }),
        },
{
    match time_unit_to_seconds(unit) {
        Some(f) => Ok(f),
        None => {
            let u = chars_of(unit);
            Err(Error::Parse { line: line_no, msg: quoted_msg("unknown step-time unit `", &u) })
        },
    }
}

/// Index of the first word at or after `idx` that is not a flag word.
pub open spec fn flag_run(toks: Seq<Seq<char>>, idx: int) -> int
    decreases toks.len() - idx,
{
    if 0 <= idx < toks.len() && flags_word(toks[idx]) {
        flag_run(toks, idx + 1)
    } else {
        idx
    }
}

/// The words of a data row, before its numbers are read.
pub struct RowFields {
    /// `symbol-mass`, as written.
    pub nuclide: String,
    /// The flag characters, verbatim and in order.
    pub flags: String,
    /// The eleven number words (ATOMS through Bq/A2).
    pub values: Vec<String>,
    /// The half-life word (seconds or `Stable`).
    pub half_life: String,
}

pub struct RowFieldsView {
    pub nuclide: Seq<char>,
    pub flags: Seq<char>,
    pub values: Seq<Seq<char>>,
    pub half_life: Seq<char>,
}

impl View for RowFields {
    type V = RowFieldsView;

    open spec fn view(&self) -> RowFieldsView {
        RowFieldsView {
            nuclide: self.nuclide@,
            flags: self.flags@,
            values: self.values@.map_values(|v: String| v@),
            half_life: self.half_life@,
        }
    }
}

/// The words of data row `line` (trimmed) at line `line_no`: symbol and
/// mass, flag words, then exactly eleven numbers and a half-life.
pub open spec fn row_fields(line: Seq<char>, line_no: int) -> Result<RowFieldsView, ErrorView> {
    let toks = split_ws(line);
    let idx = flag_run(toks, 2);
    if toks.len() != idx + 12 {
        Err(ErrorView::Parse {
            line: line_no,
            msg: quoted("expected `nuclide flags? 11 floats halflife|Stable`, found `"@, line),
        })
    } else {
        Ok(RowFieldsView {
            nuclide: toks[0] + "-"@ + toks[1],
            flags: concat_words(toks.subrange(2, idx)),
            values: toks.subrange(idx, idx + 11),
            half_life: toks[idx + 11],
        })
    }
}

/// Read the words of a data row (trimmed) at line `line_no`.
pub fn data_row_fields(line: &Vec<char>, line_no: usize) -> (r: Result<RowFields, Error>)
    requires
        data_row_line(line@),
    ensures
        match (r, row_fields(line@, line_no as int)) {
            (Ok(a), Ok(b)) => a@ == b,
            (Err(e), Err(f)) => e@ == f,
            _ => false,
        },
{
    let words = words_of(line);
    let ghost ws = char_views(words@);
    let mut flags: Vec<char> = Vec::new();
    let mut idx: usize = 2;
    assert(ws.subrange(2, 2) =~= Seq::<Seq<char>>::empty());
    while idx < words.len() && flags_chars(&words[idx])
        invariant
            2 <= idx <= words.len(),
            ws == char_views(words@),
            flag_run(ws, 2) == flag_run(ws, idx as int),
            flags@ == concat_words(ws.subrange(2, idx as int)),
        decreases words.len() - idx,
    {
        assert(ws[idx as int] == words@[idx as int]@);
        append_chars(&mut flags, &words[idx]);
        proof {
            let s = ws.subrange(2, idx + 1);
            assert(s.drop_last() =~= ws.subrange(2, idx as int));
        }
        idx = idx + 1;
    }
    if idx < words.len() {
        assert(ws[idx as int] == words@[idx as int]@);
    }
    if words.len() < 12 || idx != words.len() - 12 {
        return Err(Error::Parse {
            line: line_no,
            msg: quoted_msg("expected `nuclide flags? 11 floats halflife|Stable`, found `", line),
        });
    }
    let mut nuclide: Vec<char> = Vec::new();
    assert(ws[0] == words@[0]@ && ws[1] == words@[1]@);
    append_chars(&mut nuclide, &words[0]);
    nuclide.push('-');
    append_chars(&mut nuclide, &words[1]);
    proof {
        reveal_strlit("-");
        assert(nuclide@ =~= ws[0] + "-"@ + ws[1]);
    }
    let mut values: Vec<String> = Vec::new();
    let mut k: usize = idx;
    while k < idx + 11
        invariant
            idx <= k <= idx + 11,
            idx + 12 == words.len(),
            ws == char_views(words@),
            values@.map_values(|v: String| v@) == ws.subrange(idx as int, k as int),
        decreases idx + 11 - k,
    {
        let w = string_from_chars(words[k].as_slice());
        assert(w@ == ws[k as int]);
        let ghost before = values@.map_values(|v: String| v@);
        values.push(w);
        assert(values@.map_values(|v: String| v@) =~= before.push(w@));
        assert(ws.subrange(idx as int, k + 1) =~= ws.subrange(idx as int, k as int).push(ws[k as int]));
        k = k + 1;
    }
    assert(ws[idx + 11] == words@[idx + 11]@);
    let half_life = string_from_chars(words[idx + 11].as_slice());
    Ok(RowFields {
        nuclide: string_from_chars(nuclide.as_slice()),
        flags: string_from_chars(flags.as_slice()),
        values,
        half_life,
    })
}

/// Where a reader stands in a listing: whether a time-step header has
/// been read, whether it is inside a clearance table, and whether the
/// units line after a column header is still to be skipped.
#[derive(Debug, Clone, Copy, PartialEq, Eq, Structural)]
pub struct ReaderState {
    pub has_step: bool,
    pub in_table: bool,
    pub skip_units: bool,
}

/// What a listing line is to the reader.
#[derive(Debug, Clone, Copy, PartialEq, Eq, Structural)]
pub enum LineKind {
    /// Nothing to read.
    Skip,
    /// A time-step header.
    TimeHeader,
    /// A data row of the current table.
    Row,
}

/// The reader's next state and what it makes of line `raw`.
pub open spec fn reader_step(st: ReaderState, raw: Seq<char>) -> (ReaderState, LineKind) {
    let line = trim_ws(raw);
    if line.len() == 0 || line[0] == '#' {
        (st, LineKind::Skip)
    } else if time_header_line(line) {
        (ReaderState { has_step: true, in_table: false, skip_units: false }, LineKind::TimeHeader)
    } else if column_header_line(line) {
        (ReaderState { has_step: st.has_step, in_table: st.has_step, skip_units: st.has_step }, LineKind::Skip)
    } else if st.skip_units {
        (ReaderState { skip_units: false, ..st }, LineKind::Skip)
    } else if !st.in_table {
        (st, LineKind::Skip)
    } else if data_row_line(line) {
        if st.has_step {
            (st, LineKind::Row)
        } else {
            (st, LineKind::Skip)
        }
    } else {
        (ReaderState { in_table: false, ..st }, LineKind::Skip)
    }
}

/// What the reader read off one line.
pub enum LineAction {
    Skip,
    /// A time-step header's fields (or its error).
    TimeHeader(Result<TimeFields, Error>),
    /// A data row's words (or its error).
    Row(Result<RowFields, Error>),
}

impl ReaderState {
    /// The state before the first line.
    pub fn new() -> (r: ReaderState)
        ensures
            r == (ReaderState { has_step: false, in_table: false, skip_units: false }),
    {
        ReaderState { has_step: false, in_table: false, skip_units: false }
    }
}

/// A line the reader refuses: a time-step header whose tag runs past its
/// last word.
pub open spec fn refused_line(raw: Seq<char>) -> bool {
    let line = trim_ws(raw);
    line.len() > 0 && line[0] != '#' && time_header_line(line) && label_overruns(line)
}

/// Whether the reader refuses line `raw` (see [`refused_line`]).
pub fn is_refused_line(raw: &str) -> (r: bool)
    ensures
        r == refused_line(raw@),
{
    let v = chars_of(raw);
    let line = trim_chars(&v);
    if line.len() == 0 || line[0] == '#' {
        return false;
    }
    let s = string_from_chars(line.as_slice());
    is_time_header(s.as_str()) && header_label_overruns(&line)
}

/// Read line number `line_no` (1-based) of a listing in state `st`.
pub fn read_line(st: ReaderState, raw: &str, line_no: usize) -> (r: (ReaderState, LineAction))
    requires
        !refused_line(raw@),
    ensures
        r.0 == reader_step(st, raw@).0,
        match r.1 {
            LineAction::Skip => reader_step(st, raw@).1 == LineKind::Skip,
            LineAction::TimeHeader(res) => reader_step(st, raw@).1 == LineKind::TimeHeader
                && match (res, time_fields(trim_ws(raw@), line_no as int)) {
                    (Ok(a), Ok(b)) => a@ == b,
                    (Err(e), Err(f)) => e@ == f,
                    _ => false,
                },
            LineAction::Row(res) => reader_step(st, raw@).1 == LineKind::Row
                && match (res, row_fields(trim_ws(raw@), line_no as int)) {
                    (Ok(a), Ok(b)) => a@ == b,
                    (Err(e), Err(f)) => e@ == f,
                    _ => false,
                },
        },
{
    let v = chars_of(raw);
    let line = trim_chars(&v);
    if line.len() == 0 || line[0] == '#' {
        return (st, LineAction::Skip);
    }
    let s = string_from_chars(line.as_slice());
    if is_time_header(s.as_str()) {
        let fields = time_header_fields(&line, line_no);
        return (ReaderState { has_step: true, in_table: false, skip_units: false }, LineAction::TimeHeader(fields));
    }
    if is_column_header(s.as_str()) {
        return (
            ReaderState { has_step: st.has_step, in_table: st.has_step, skip_units: st.has_step },
            LineAction::Skip,
        );
    }
    if st.skip_units {
        return (ReaderState { skip_units: false, ..st }, LineAction::Skip);
    }
    if !st.in_table {
        return (st, LineAction::Skip);
    }
    if looks_like_data_row(s.as_str()) {
        if st.has_step {
            (st, LineAction::Row(data_row_fields(&line, line_no)))
        } else {
            (st, LineAction::Skip)
        }
    } else {
        (ReaderState { in_table: false, ..st }, LineAction::Skip)
    }
}

/// A listing with no visible content is refused at line 1.
pub fn check_not_blank(text: &str) -> (r: Result<(), Error>)
    ensures
        trim_ws(text@).len() == 0 <==> r is Err,
        r matches Err(e) ==> e@ == (ErrorView::Parse { line: 1, msg: "empty FISPACT-II output"@ }),
{
    let v = chars_of(text);
    let t = trim_chars(&v);
    if t.len() == 0 {
        let m = chars_of("empty FISPACT-II output");
        Err(Error::Parse { line: 1, msg: string_from_chars(m.as_slice()) })
    } else {
        Ok(())
    }
}

} // verus!
