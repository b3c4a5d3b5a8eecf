//! EPA FGR 15 external-dose tables: scenario and age keys, the
//! `Sym-A[letter]` nuclide spelling, and the line-level layout rules of a
//! `Table_4_*.DAT` member.

use vstd::prelude::*;
use vstd::string::*;
use crate::ascii::{is_alpha_char, is_digit_char, is_upper_char, lower_seq, upper_char, alpha_char, to_lower_vec};
use crate::nuclide::{valid_nuclide, lemma_symbol_of_z, lemma_isomer_letter_state, NuclideId, element_symbol, element_z, element_z_exec, element_symbol_exec, isomer_state, isomer_letter, isomer_state_exec, ISOMER_LETTERS};
use crate::ascii::{to_upper_char, upper_ascii_char};
use crate::text::{trim_start_ws, trim_end_ws};
use crate::text::{append_str, append_dec, digit_run, digit_run_exec, digits_value, lemma_digits_value_push, digits_value_upto, char_views, split_ws, text_lines, contains_seq, words_of, lines_of, contains_chars, digit_char as digit_char_of, dec, dec_chars, string_from_chars, is_ws, trim_ws, chars_of, trim_chars, chars_are, has_prefix, sub_chars};

verus! {

/// FGR 15 exposure scenario: the seven coefficient tables 4.1 to 4.7.
#[derive(Debug, Clone, Copy, PartialEq, Eq, Hash, PartialOrd, Ord, Structural)]
pub enum Fgr15Scenario {
    /// Table 4.1: ground surface (3 mm).
    GroundSurface,
    /// Table 4.2: soil to 1 cm depth.
    Soil1cm,
    /// Table 4.3: soil to 5 cm depth.
    Soil5cm,
    /// Table 4.4: soil to 15 cm depth.
    Soil15cm,
    /// Table 4.5: soil to infinite depth.
    SoilInfinite,
    /// Table 4.6: air submersion.
    AirSubmersion,
    /// Table 4.7: water immersion.
    WaterImmersion,
}

/// Canonical snake-case name of a scenario.
pub open spec fn scenario_name(sc: Fgr15Scenario) -> Seq<char> {
    match sc {
        Fgr15Scenario::GroundSurface => "ground_surface"@,
        Fgr15Scenario::Soil1cm => "soil_1cm"@,
        Fgr15Scenario::Soil5cm => "soil_5cm"@,
        Fgr15Scenario::Soil15cm => "soil_15cm"@,
        Fgr15Scenario::SoilInfinite => "soil_infinite"@,
        Fgr15Scenario::AirSubmersion => "air_submersion"@,
        Fgr15Scenario::WaterImmersion => "water_immersion"@,
    }
}

/// EPA table number of a scenario as spelled in a member title.
pub open spec fn scenario_table(sc: Fgr15Scenario) -> Seq<char> {
    match sc {
        Fgr15Scenario::GroundSurface => "4.1"@,
        Fgr15Scenario::Soil1cm => "4.2"@,
        Fgr15Scenario::Soil5cm => "4.3"@,
        Fgr15Scenario::Soil15cm => "4.4"@,
        Fgr15Scenario::SoilInfinite => "4.5"@,
        Fgr15Scenario::AirSubmersion => "4.6"@,
        Fgr15Scenario::WaterImmersion => "4.7"@,
    }
}

/// EPA title of a scenario as printed in its table heading.
pub open spec fn scenario_title(sc: Fgr15Scenario) -> Seq<char> {
    match sc {
        Fgr15Scenario::GroundSurface => "Ground Surface (3 mm)"@,
        Fgr15Scenario::Soil1cm => "Soil to 1 cm Depth"@,
        Fgr15Scenario::Soil5cm => "Soil to 5 cm Depth"@,
        Fgr15Scenario::Soil15cm => "Soil to 15 cm Depth"@,
        Fgr15Scenario::SoilInfinite => "Soil to Infinite Depth"@,
        Fgr15Scenario::AirSubmersion => "Air Submersion"@,
        Fgr15Scenario::WaterImmersion => "Water Immersion"@,
    }
}

/// The heading of EPA FGR 15 table 4.`n`, in the report's order.
pub open spec fn epa_table_title(n: int) -> Seq<char> {
    if n == 1 {
        "Ground Surface (3 mm)"@
    } else if n == 2 {
        "Soil to 1 cm Depth"@
    } else if n == 3 {
        "Soil to 5 cm Depth"@
    } else if n == 4 {
        "Soil to 15 cm Depth"@
    } else if n == 5 {
        "Soil to Infinite Depth"@
    } else if n == 6 {
        "Air Submersion"@
    } else {
        "Water Immersion"@
    }
}

/// Scenario of a table number `1..=7`.
pub open spec fn scenario_of_ordinal(n: u32) -> Option<Fgr15Scenario> {
    if n == 1 {
        Some(Fgr15Scenario::GroundSurface)
    } else if n == 2 {
        Some(Fgr15Scenario::Soil1cm)
    } else if n == 3 {
        Some(Fgr15Scenario::Soil5cm)
    } else if n == 4 {
        Some(Fgr15Scenario::Soil15cm)
    } else if n == 5 {
        Some(Fgr15Scenario::SoilInfinite)
    } else if n == 6 {
        Some(Fgr15Scenario::AirSubmersion)
    } else if n == 7 {
        Some(Fgr15Scenario::WaterImmersion)
    } else {
        None
    }
}

/// Scenario whose canonical name is exactly `k`.
pub open spec fn scenario_by_name(k: Seq<char>) -> Option<Fgr15Scenario> {
    if k == "ground_surface"@ {
        Some(Fgr15Scenario::GroundSurface)
    } else if k == "soil_1cm"@ {
        Some(Fgr15Scenario::Soil1cm)
    } else if k == "soil_5cm"@ {
        Some(Fgr15Scenario::Soil5cm)
    } else if k == "soil_15cm"@ {
        Some(Fgr15Scenario::Soil15cm)
    } else if k == "soil_infinite"@ {
        Some(Fgr15Scenario::SoilInfinite)
    } else if k == "air_submersion"@ {
        Some(Fgr15Scenario::AirSubmersion)
    } else if k == "water_immersion"@ {
        Some(Fgr15Scenario::WaterImmersion)
    } else {
        None
    }
}

/// Scenario whose table number is exactly `k`.
pub open spec fn scenario_by_table(k: Seq<char>) -> Option<Fgr15Scenario> {
    if k == "4.1"@ {
        Some(Fgr15Scenario::GroundSurface)
    } else if k == "4.2"@ {
        Some(Fgr15Scenario::Soil1cm)
    } else if k == "4.3"@ {
        Some(Fgr15Scenario::Soil5cm)
    } else if k == "4.4"@ {
        Some(Fgr15Scenario::Soil15cm)
    } else if k == "4.5"@ {
        Some(Fgr15Scenario::SoilInfinite)
    } else if k == "4.6"@ {
        Some(Fgr15Scenario::AirSubmersion)
    } else if k == "4.7"@ {
        Some(Fgr15Scenario::WaterImmersion)
    } else {
        None
    }
}

/// `-` replaced by `_` throughout.
pub open spec fn dash_to_underscore(s: Seq<char>) -> Seq<char> {
    s.map_values(|c: char| if c == '-' { '_' } else { c })
}

/// The words `table ` that a scenario key may start with.
pub open spec fn table_word() -> Seq<char> {
    seq!['t', 'a', 'b', 'l', 'e', ' ']
}

/// Every leading repetition of `table ` removed.
pub open spec fn strip_table_words(k: Seq<char>) -> Seq<char>
    decreases k.len(),
{
    if has_prefix(k, table_word()) {
        strip_table_words(k.skip(6))
    } else {
        k
    }
}

/// The scenario named by a key: its canonical name or its table number
/// (optionally after `table `), ignoring surrounding white space and ASCII
/// case, with `-` accepted for `_`.
pub open spec fn scenario_key(s: Seq<char>) -> Option<Fgr15Scenario> {
    let key = dash_to_underscore(lower_seq(trim_ws(s)));
    match scenario_by_name(key) {
        Some(sc) => Some(sc),
        None => scenario_by_table(trim_ws(strip_table_words(key))),
    }
}

fn dashes_to_underscores(v: &Vec<char>) -> (r: Vec<char>)
    ensures
        r@ == dash_to_underscore(v@),
{
    let mut r: Vec<char> = Vec::new();
    let mut i: usize = 0;
    while i < v.len()
        invariant
            i <= v.len(),
            r@ == dash_to_underscore(v@.subrange(0, i as int)),
        decreases v.len() - i,
    {
        let c = if v[i] == '-' { '_' } else { v[i] };
        r.push(c);
        i = i + 1;
        assert(dash_to_underscore(v@.subrange(0, i as int)) =~= dash_to_underscore(v@.subrange(0, (i - 1) as int)).push(c));
    }
    assert(v@.subrange(0, v@.len() as int) =~= v@);
    r
}

fn strip_table_words_exec(k: &Vec<char>) -> (r: Vec<char>)
    ensures
        r@ == strip_table_words(k@),
{
    let w = chars_of("table ");
    proof {
        reveal_strlit("table ");
        assert(w@ =~= table_word());
    }
    let mut start: usize = 0;
    assert(k@.skip(0) =~= k@);
    while k.len() - start >= 6 && crate::text::starts_with_chars(&sub_chars(k, start, k.len()), &w)
        invariant
            start <= k.len(),
            w@ == table_word(),
            strip_table_words(k@) == strip_table_words(k@.skip(start as int)),
        decreases k.len() - start,
    {
        assert(k@.subrange(start as int, k@.len() as int) =~= k@.skip(start as int));
        assert(k@.skip(start as int).skip(6) =~= k@.skip(start + 6));
        start = start + 6;
    }
    proof {
        let t = k@.skip(start as int);
        assert(k@.subrange(start as int, k@.len() as int) =~= t);
        if has_prefix(t, table_word()) {
            assert(start + 6 <= k.len());
        }
    }
    sub_chars(k, start, k.len())
}

impl Fgr15Scenario {
    /// Canonical snake-case name (`ground_surface`, `soil_1cm`, ...).
    pub fn as_str(self) -> (r: &'static str)
        ensures
            r@ == scenario_name(self),
    {
        match self {
            Fgr15Scenario::GroundSurface => "ground_surface",
            Fgr15Scenario::Soil1cm => "soil_1cm",
            Fgr15Scenario::Soil5cm => "soil_5cm",
            Fgr15Scenario::Soil15cm => "soil_15cm",
            Fgr15Scenario::SoilInfinite => "soil_infinite",
            Fgr15Scenario::AirSubmersion => "air_submersion",
            Fgr15Scenario::WaterImmersion => "water_immersion",
        }
    }

    /// EPA table number (`4.1`, `4.2`, ...), as spelled in the member title.
    pub fn table_number(self) -> (r: &'static str)
        ensures
            r@ == scenario_table(self),
    {
        match self {
            Fgr15Scenario::GroundSurface => "4.1",
            Fgr15Scenario::Soil1cm => "4.2",
            Fgr15Scenario::Soil5cm => "4.3",
            Fgr15Scenario::Soil15cm => "4.4",
            Fgr15Scenario::SoilInfinite => "4.5",
            Fgr15Scenario::AirSubmersion => "4.6",
            Fgr15Scenario::WaterImmersion => "4.7",
        }
    }

    /// EPA scenario title as printed in the table heading.
    pub fn title(self) -> (r: &'static str)
        ensures
            r@ == scenario_title(self),
    {
        match self {
            Fgr15Scenario::GroundSurface => "Ground Surface (3 mm)",
            Fgr15Scenario::Soil1cm => "Soil to 1 cm Depth",
            Fgr15Scenario::Soil5cm => "Soil to 5 cm Depth",
            Fgr15Scenario::Soil15cm => "Soil to 15 cm Depth",
            Fgr15Scenario::SoilInfinite => "Soil to Infinite Depth",
            Fgr15Scenario::AirSubmersion => "Air Submersion",
            Fgr15Scenario::WaterImmersion => "Water Immersion",
        }
    }

    /// All seven scenarios in table order.
    pub const ALL: [Fgr15Scenario; 7] = [
        Fgr15Scenario::GroundSurface,
        Fgr15Scenario::Soil1cm,
        Fgr15Scenario::Soil5cm,
        Fgr15Scenario::Soil15cm,
        Fgr15Scenario::SoilInfinite,
        Fgr15Scenario::AirSubmersion,
        Fgr15Scenario::WaterImmersion,
    ];

    /// Parse a scenario key: the EPA table number (`4.1`..`4.7`, optionally
    /// after `table `) or the canonical snake-case name (case-insensitive;
    /// `-` accepted for `_`).
    pub fn parse(s: &str) -> (r: Option<Fgr15Scenario>)
        ensures
            r == scenario_key(s@),
    {
        let raw = chars_of(s);
        let t = trim_chars(&raw);
        let l = to_lower_vec(&t);
        let key = dashes_to_underscores(&l);
        if chars_are(&key, "ground_surface") {
            return Some(Fgr15Scenario::GroundSurface);
        }
        if chars_are(&key, "soil_1cm") {
            return Some(Fgr15Scenario::Soil1cm);
        }
        if chars_are(&key, "soil_5cm") {
            return Some(Fgr15Scenario::Soil5cm);
        }
        if chars_are(&key, "soil_15cm") {
            return Some(Fgr15Scenario::Soil15cm);
        }
        if chars_are(&key, "soil_infinite") {
            return Some(Fgr15Scenario::SoilInfinite);
        }
        if chars_are(&key, "air_submersion") {
            return Some(Fgr15Scenario::AirSubmersion);
        }
        if chars_are(&key, "water_immersion") {
            return Some(Fgr15Scenario::WaterImmersion);
        }
        let stripped = strip_table_words_exec(&key);
        let num = trim_chars(&stripped);
        if chars_are(&num, "4.1") {
            Some(Fgr15Scenario::GroundSurface)
        } else if chars_are(&num, "4.2") {
            Some(Fgr15Scenario::Soil1cm)
        } else if chars_are(&num, "4.3") {
            Some(Fgr15Scenario::Soil5cm)
        } else if chars_are(&num, "4.4") {
            Some(Fgr15Scenario::Soil15cm)
        } else if chars_are(&num, "4.5") {
            Some(Fgr15Scenario::SoilInfinite)
        } else if chars_are(&num, "4.6") {
            Some(Fgr15Scenario::AirSubmersion)
        } else if chars_are(&num, "4.7") {
            Some(Fgr15Scenario::WaterImmersion)
        } else {
            None
        }
    }

    /// Scenario of table number `4.n`, for `n` in `1..=7`.
    pub fn from_table_number(n: u32) -> (r: Option<Fgr15Scenario>)
        ensures
            r == scenario_of_ordinal(n),
    {
        match n {
            1 => Some(Fgr15Scenario::GroundSurface),
            2 => Some(Fgr15Scenario::Soil1cm),
            3 => Some(Fgr15Scenario::Soil5cm),
            4 => Some(Fgr15Scenario::Soil15cm),
            5 => Some(Fgr15Scenario::SoilInfinite),
            6 => Some(Fgr15Scenario::AirSubmersion),
            7 => Some(Fgr15Scenario::WaterImmersion),
            _ => None,
        }
    }
}

/// Reference-person age group: the six coefficient columns of every table,
/// in column order.
#[derive(Debug, Clone, Copy, PartialEq, Eq, Hash, PartialOrd, Ord, Structural)]
pub enum Fgr15Age {
    /// Newborn.
    Newborn,
    /// 1-year-old.
    Year1,
    /// 5-year-old.
    Year5,
    /// 10-year-old.
    Year10,
    /// 15-year-old.
    Year15,
    /// Adult (reference person).
    Adult,
}

/// Canonical short name of an age group.
pub open spec fn age_name(a: Fgr15Age) -> Seq<char> {
    match a {
        Fgr15Age::Newborn => "newborn"@,
        Fgr15Age::Year1 => "1-yr"@,
        Fgr15Age::Year5 => "5-yr"@,
        Fgr15Age::Year10 => "10-yr"@,
        Fgr15Age::Year15 => "15-yr"@,
        Fgr15Age::Adult => "adult"@,
    }
}

/// Column of an age group in a coefficient row.
pub open spec fn age_column(a: Fgr15Age) -> usize {
    match a {
        Fgr15Age::Newborn => 0,
        Fgr15Age::Year1 => 1,
        Fgr15Age::Year5 => 2,
        Fgr15Age::Year10 => 3,
        Fgr15Age::Year15 => 4,
        Fgr15Age::Adult => 5,
    }
}

/// Spellings allowed after the year of an age key.
pub open spec fn is_age_suffix(r: Seq<char>) -> bool {
    ||| r.len() == 0
    ||| r == "-yr"@
    ||| r == "-y"@
    ||| r == "-yr-old"@
    ||| r == "-y-old"@
    ||| r == "yr"@
    ||| r == "y"@
}

/// The age group named by a key: `newborn`, `adult`, or a year `1`, `5`,
/// `10`, `15` followed by one of the suffixes `-yr`, `-y`, `-yr-old`,
/// `-y-old`, `yr`, `y` or nothing; surrounding white space and ASCII case
/// ignored.
pub open spec fn age_key(s: Seq<char>) -> Option<Fgr15Age> {
    let key = lower_seq(trim_ws(s));
    let d = digit_run(key);
    if key == "newborn"@ {
        Some(Fgr15Age::Newborn)
    } else if key == "adult"@ {
        Some(Fgr15Age::Adult)
    } else if d == 0 || !is_age_suffix(key.skip(d as int)) {
        None
    } else if key.take(d as int) == "1"@ {
        Some(Fgr15Age::Year1)
    } else if key.take(d as int) == "5"@ {
        Some(Fgr15Age::Year5)
    } else if key.take(d as int) == "10"@ {
        Some(Fgr15Age::Year10)
    } else if key.take(d as int) == "15"@ {
        Some(Fgr15Age::Year15)
    } else {
        None
    }
}

impl Fgr15Age {
    /// All six age groups in column order.
    pub const ALL: [Fgr15Age; 6] = [
        Fgr15Age::Newborn,
        Fgr15Age::Year1,
        Fgr15Age::Year5,
        Fgr15Age::Year10,
        Fgr15Age::Year15,
        Fgr15Age::Adult,
    ];

    /// Canonical short name (`newborn`, `1-yr`, `5-yr`, `10-yr`, `15-yr`,
    /// `adult`).
    pub fn as_str(self) -> (r: &'static str)
        ensures
            r@ == age_name(self),
    {
        match self {
            Fgr15Age::Newborn => "newborn",
            Fgr15Age::Year1 => "1-yr",
            Fgr15Age::Year5 => "5-yr",
            Fgr15Age::Year10 => "10-yr",
            Fgr15Age::Year15 => "15-yr",
            Fgr15Age::Adult => "adult",
        }
    }

    /// Column index of this age group in a coefficient row (0 to 5).
    pub fn index(self) -> (r: usize)
        ensures
            r == age_column(self),
    {
        match self {
            Fgr15Age::Newborn => 0,
            Fgr15Age::Year1 => 1,
            Fgr15Age::Year5 => 2,
            Fgr15Age::Year10 => 3,
            Fgr15Age::Year15 => 4,
            Fgr15Age::Adult => 5,
        }
    }

    /// Parse an age-group key: `newborn`/`adult`, a bare year (`1`, `5`,
    /// `10`, `15`), or a spelled variant (`1yr`, `1-yr`, `1-yr-old`, ...;
    /// case-insensitive).
    pub fn parse(s: &str) -> (r: Option<Fgr15Age>)
        ensures
            r == age_key(s@),
    {
        let raw = chars_of(s);
        let t = trim_chars(&raw);
        let key = to_lower_vec(&t);
        if chars_are(&key, "newborn") {
            return Some(Fgr15Age::Newborn);
        }
        if chars_are(&key, "adult") {
            return Some(Fgr15Age::Adult);
        }
        let d = digit_run_exec(&key);
        if d == 0 {
            return None;
        }
        let rest = sub_chars(&key, d, key.len());
        assert(rest@ =~= key@.skip(d as int));
        let suffix_ok = rest.len() == 0 || chars_are(&rest, "-yr") || chars_are(&rest, "-y")
            || chars_are(&rest, "-yr-old") || chars_are(&rest, "-y-old") || chars_are(&rest, "yr")
            || chars_are(&rest, "y");
        if !suffix_ok {
            return None;
        }
        let num = sub_chars(&key, 0, d);
        assert(num@ =~= key@.take(d as int));
        if chars_are(&num, "1") {
            Some(Fgr15Age::Year1)
        } else if chars_are(&num, "5") {
            Some(Fgr15Age::Year5)
        } else if chars_are(&num, "10") {
            Some(Fgr15Age::Year10)
        } else if chars_are(&num, "15") {
            Some(Fgr15Age::Year15)
        } else {
            None
        }
    }
}

proof fn lemma_trim_plain(s: Seq<char>)
    requires
        s.len() > 0,
        !is_ws(s[0]),
        !is_ws(s.last()),
    ensures
        trim_ws(s) == s,
{
}

proof fn lemma_lower_plain(s: Seq<char>)
    requires
        forall|i: int| 0 <= i < s.len() ==> !is_upper_char(#[trigger] s[i]),
    ensures
        lower_seq(s) == s,
        dash_to_underscore(lower_seq(s)) == dash_to_underscore(s),
{
    assert(lower_seq(s) =~= s);
}

proof fn lemma_no_dash(s: Seq<char>)
    requires
        forall|i: int| 0 <= i < s.len() ==> #[trigger] s[i] != '-',
    ensures
        dash_to_underscore(s) == s,
{
    assert(dash_to_underscore(s) =~= s);
}

/// Every scenario's canonical name and its table number parse back to that
/// scenario.
pub proof fn lemma_scenario_keys_round_trip(sc: Fgr15Scenario)
    ensures
        scenario_key(scenario_name(sc)) == Some(sc),
        scenario_key(scenario_table(sc)) == Some(sc),
{
    reveal_strlit("ground_surface");
    reveal_strlit("soil_1cm");
    reveal_strlit("soil_5cm");
    reveal_strlit("soil_15cm");
    reveal_strlit("soil_infinite");
    reveal_strlit("air_submersion");
    reveal_strlit("water_immersion");
    reveal_strlit("4.1");
    reveal_strlit("4.2");
    reveal_strlit("4.3");
    reveal_strlit("4.4");
    reveal_strlit("4.5");
    reveal_strlit("4.6");
    reveal_strlit("4.7");
    let n = scenario_name(sc);
    let t = scenario_table(sc);
    lemma_trim_plain(n);
    lemma_lower_plain(n);
    lemma_no_dash(n);
    lemma_trim_plain(t);
    lemma_lower_plain(t);
    lemma_no_dash(t);
    assert(!has_prefix(t, table_word()));
    assert(strip_table_words(t) == t);
    assert("soil_1cm"@[5] != "soil_5cm"@[5]);
    assert("ground_surface"@[0] != "air_submersion"@[0]);
    assert("4.1"@[2] != "4.2"@[2] && "4.1"@[2] != "4.3"@[2] && "4.1"@[2] != "4.4"@[2]);
    assert("4.1"@[2] != "4.5"@[2] && "4.1"@[2] != "4.6"@[2] && "4.1"@[2] != "4.7"@[2]);
    assert("4.2"@[2] != "4.3"@[2] && "4.2"@[2] != "4.4"@[2] && "4.2"@[2] != "4.5"@[2]);
    assert("4.2"@[2] != "4.6"@[2] && "4.2"@[2] != "4.7"@[2] && "4.3"@[2] != "4.4"@[2]);
    assert("4.3"@[2] != "4.5"@[2] && "4.3"@[2] != "4.6"@[2] && "4.3"@[2] != "4.7"@[2]);
    assert("4.4"@[2] != "4.5"@[2] && "4.4"@[2] != "4.6"@[2] && "4.4"@[2] != "4.7"@[2]);
    assert("4.5"@[2] != "4.6"@[2] && "4.5"@[2] != "4.7"@[2] && "4.6"@[2] != "4.7"@[2]);
}


/// `_` replaced by `-` throughout.
pub open spec fn underscore_to_dash(s: Seq<char>) -> Seq<char> {
    s.map_values(|c: char| if c == '_' { '-' } else { c })
}

proof fn lemma_trim_start_map(s: Seq<char>, t: Seq<char>, f: spec_fn(char) -> char)
    requires
        t.len() == s.len(),
        forall|i: int| 0 <= i < s.len() ==> #[trigger] t[i] == f(s[i]),
        forall|c: char| #[trigger] is_ws(f(c)) == is_ws(c),
    ensures
        trim_start_ws(t).len() == trim_start_ws(s).len(),
        forall|i: int| 0 <= i < trim_start_ws(s).len() ==> #[trigger] trim_start_ws(t)[i] == f(trim_start_ws(s)[i]),
    decreases s.len(),
{
    if s.len() > 0 {
        assert(is_ws(t[0]) == is_ws(f(s[0])));
        if is_ws(s[0]) {
            lemma_trim_start_map(s.drop_first(), t.drop_first(), f);
        }
    }
}

proof fn lemma_trim_end_map(s: Seq<char>, t: Seq<char>, f: spec_fn(char) -> char)
    requires
        t.len() == s.len(),
        forall|i: int| 0 <= i < s.len() ==> #[trigger] t[i] == f(s[i]),
        forall|c: char| #[trigger] is_ws(f(c)) == is_ws(c),
    ensures
        trim_end_ws(t).len() == trim_end_ws(s).len(),
        forall|i: int| 0 <= i < trim_end_ws(s).len() ==> #[trigger] trim_end_ws(t)[i] == f(trim_end_ws(s)[i]),
    decreases s.len(),
{
    if s.len() > 0 {
        assert(is_ws(t.last()) == is_ws(f(s.last())));
        if is_ws(s.last()) {
            lemma_trim_end_map(s.drop_last(), t.drop_last(), f);
        }
    }
}

/// Trimming commutes with a character map that keeps white space.
proof fn lemma_trim_map(s: Seq<char>, t: Seq<char>, f: spec_fn(char) -> char)
    requires
        t.len() == s.len(),
        forall|i: int| 0 <= i < s.len() ==> #[trigger] t[i] == f(s[i]),
        forall|c: char| #[trigger] is_ws(f(c)) == is_ws(c),
    ensures
        trim_ws(t) == trim_ws(s).map_values(f),
{
    lemma_trim_start_map(s, t, f);
    lemma_trim_end_map(trim_start_ws(s), trim_start_ws(t), f);
    assert(trim_ws(t) =~= trim_ws(s).map_values(f));
}

/// The key a scenario parse compares.
pub open spec fn scenario_key_text(s: Seq<char>) -> Seq<char> {
    dash_to_underscore(lower_seq(trim_ws(s)))
}

proof fn lemma_key_text_map(s: Seq<char>, t: Seq<char>, f: spec_fn(char) -> char)
    requires
        t.len() == s.len(),
        forall|i: int| 0 <= i < s.len() ==> #[trigger] t[i] == f(s[i]),
        forall|c: char| #[trigger] is_ws(f(c)) == is_ws(c),
        forall|c: char| #![trigger f(c)] (if lower_char_of(f(c)) == '-' { '_' } else { lower_char_of(f(c)) }) == (if lower_char_of(c) == '-' {
            '_'
        } else {
            lower_char_of(c)
        }),
    ensures
        scenario_key_text(t) == scenario_key_text(s),
{
    lemma_trim_map(s, t, f);
    let a = trim_ws(s);
    assert(scenario_key_text(t) =~= scenario_key_text(s)) by {
        assert forall|i: int| 0 <= i < a.len() implies #[trigger] scenario_key_text(t)[i] == scenario_key_text(s)[i] by {
            assert(trim_ws(t)[i] == f(a[i]));
        }
    }
}

/// A character lower-cased.
pub open spec fn lower_char_of(c: char) -> char {
    crate::ascii::lower_char(c)
}

/// Scenario keys ignore ASCII case: an upper-cased key names the same
/// scenario.
pub proof fn lemma_scenario_key_case(s: Seq<char>)
    ensures
        scenario_key(crate::ascii::upper_seq(s)) == scenario_key(s),
{
    let f = |c: char| upper_char(c);
    let t = crate::ascii::upper_seq(s);
    assert forall|c: char| #[trigger] is_ws(f(c)) == is_ws(c) by {}
    assert forall|c: char| #![trigger f(c)] (if lower_char_of(f(c)) == '-' { '_' } else { lower_char_of(f(c)) }) == (if lower_char_of(c) == '-' {
        '_'
    } else {
        lower_char_of(c)
    }) by {
        if crate::ascii::is_lower_char(c) {
            assert(((c as u32) - 32) as char as u32 == (c as u32) - 32);
        }
    }
    lemma_key_text_map(s, t, f);
    assert(scenario_key_text(t) == scenario_key_text(s));
}

/// Scenario keys accept `-` for `_`: a key with its underscores turned to
/// dashes names the same scenario.
pub proof fn lemma_scenario_key_dashes(s: Seq<char>)
    ensures
        scenario_key(underscore_to_dash(s)) == scenario_key(s),
{
    let f = |c: char| if c == '_' { '-' } else { c };
    let t = underscore_to_dash(s);
    assert forall|c: char| #[trigger] is_ws(f(c)) == is_ws(c) by {}
    assert forall|c: char| #![trigger f(c)] (if lower_char_of(f(c)) == '-' { '_' } else { lower_char_of(f(c)) }) == (if lower_char_of(c) == '-' {
        '_'
    } else {
        lower_char_of(c)
    }) by {}
    lemma_key_text_map(s, t, f);
    assert(scenario_key_text(t) == scenario_key_text(s));
}

/// A scenario's table number padded with white space and written after
/// `table ` names that scenario.
pub proof fn lemma_scenario_padded_table(sc: Fgr15Scenario)
    ensures
        scenario_key(" table "@ + scenario_table(sc) + " "@) == Some(sc),
{
    reveal_strlit(" table ");
    reveal_strlit(" ");
    reveal_strlit("4.1");
    reveal_strlit("4.2");
    reveal_strlit("4.3");
    reveal_strlit("4.4");
    reveal_strlit("4.5");
    reveal_strlit("4.6");
    reveal_strlit("4.7");
    reveal_strlit("ground_surface");
    reveal_strlit("soil_1cm");
    reveal_strlit("soil_5cm");
    reveal_strlit("soil_15cm");
    reveal_strlit("soil_infinite");
    reveal_strlit("air_submersion");
    reveal_strlit("water_immersion");
    let t = scenario_table(sc);
    let s = " table "@ + t + " "@;
    assert(t.len() == 3);
    let w = table_word() + t + " "@;
    assert(s.drop_first() =~= w);
    assert(is_ws(s[0]));
    assert(trim_start_ws(s) == trim_start_ws(w));
    assert(!is_ws(w[0]));
    assert(trim_start_ws(w) == w);
    let u = table_word() + t;
    assert(w.drop_last() =~= u);
    assert(is_ws(w.last()));
    assert(trim_end_ws(w) == trim_end_ws(u));
    assert(u.last() == t[2]);
    assert('0' <= t[2] <= '9');
    assert(!is_ws(u.last()));
    assert(trim_end_ws(u) == u);
    assert(trim_ws(s) == u);
    lemma_lower_plain(u);
    lemma_no_dash(u);
    assert(scenario_by_name(u) is None) by {
        assert(u[0] == 't');
    }
    assert(u.take(6) =~= table_word());
    assert(has_prefix(u, table_word()));
    assert(u.skip(6) =~= t);
    assert(strip_table_words(u) == strip_table_words(t));
    assert(!has_prefix(t, table_word()));
    lemma_trim_plain(t);
}


/// Table 4.`n` of EPA FGR 15 is the `n`-th scenario of [`Fgr15Scenario::ALL`]
/// and carries that table's heading: table number `n` names it, its table
/// number reads `4.n` and parses back to it, and its title is the heading
/// the report prints over table 4.`n` (so 4.5 is soil to infinite depth and
/// 4.6 air submersion).
pub proof fn lemma_table_numbers_follow_report(n: int)
    requires
        1 <= n <= 7,
    ensures
        scenario_of_ordinal(n as u32) is Some,
        ({
            let sc = scenario_of_ordinal(n as u32)->0;
            &&& sc == Fgr15Scenario::ALL[n - 1]
            &&& scenario_title(sc) == epa_table_title(n)
            &&& scenario_table(sc) == seq!['4', '.'] + dec(n as nat)
            &&& scenario_by_table(seq!['4', '.'] + dec(n as nat)) == Some(sc)
            &&& scenario_key(seq!['4', '.'] + dec(n as nat)) == Some(sc)
        }),
{
    reveal_strlit("4.1");
    reveal_strlit("4.2");
    reveal_strlit("4.3");
    reveal_strlit("4.4");
    reveal_strlit("4.5");
    reveal_strlit("4.6");
    reveal_strlit("4.7");
    let t = seq!['4', '.'] + dec(n as nat);
    assert(dec(n as nat) == seq![digit_char_of(n as nat)]);
    assert(t =~= seq!['4', '.', digit_char_of(n as nat)]);
    let sc = scenario_of_ordinal(n as u32)->0;
    assert(scenario_table(sc) =~= t);
    lemma_scenario_keys_round_trip(sc);
}

/// Every age group's canonical name parses back to that age group.
pub proof fn lemma_age_keys_round_trip(a: Fgr15Age)
    ensures
        age_key(age_name(a)) == Some(a),
{
    reveal_strlit("newborn");
    reveal_strlit("adult");
    reveal_strlit("1-yr");
    reveal_strlit("5-yr");
    reveal_strlit("10-yr");
    reveal_strlit("15-yr");
    reveal_strlit("-yr");
    reveal_strlit("1");
    reveal_strlit("5");
    reveal_strlit("10");
    reveal_strlit("15");
    let n = age_name(a);
    lemma_trim_plain(n);
    lemma_lower_plain(n);
    let d = digit_run(n);
    match a {
        Fgr15Age::Year1 | Fgr15Age::Year5 => {
            assert(n.drop_first().drop_first() =~= n.skip(2));
            assert(digit_run(n.drop_first()) == 0);
            assert(d == 1);
            assert(n.skip(1) =~= "-yr"@);
            assert(n.take(1) =~= seq![n[0]]);
            if a == Fgr15Age::Year1 {
                assert(n.take(1) =~= "1"@);
            } else {
                assert(n.take(1)[0] != "1"@[0]);
                assert(n.take(1) =~= "5"@);
            }
        },
        Fgr15Age::Year10 | Fgr15Age::Year15 => {
            assert(digit_run(n.drop_first().drop_first()) == 0);
            assert(digit_run(n.drop_first()) == 1 + digit_run(n.drop_first().drop_first()));
            assert(d == 2);
            assert(n.skip(2) =~= "-yr"@);
            assert(n.take(2) =~= seq![n[0], n[1]]);
            if a == Fgr15Age::Year10 {
                assert(n.take(2) =~= "10"@);
            } else {
                assert(n.take(2)[1] != "10"@[1]);
                assert(n.take(2) =~= "15"@);
            }
        },
        _ => {},
    }
}


/// Age keys ignore ASCII case: an upper-cased key names the same age
/// group.
pub proof fn lemma_age_key_case(s: Seq<char>)
    ensures
        age_key(crate::ascii::upper_seq(s)) == age_key(s),
{
    let f = |c: char| upper_char(c);
    let t = crate::ascii::upper_seq(s);
    assert forall|c: char| #[trigger] is_ws(f(c)) == is_ws(c) by {}
    lemma_trim_map(s, t, f);
    let a = trim_ws(s);
    assert(lower_seq(trim_ws(t)) =~= lower_seq(a)) by {
        assert forall|i: int| 0 <= i < a.len() implies #[trigger] lower_seq(trim_ws(t))[i] == lower_seq(a)[i] by {
            let c = a[i];
            assert(trim_ws(t)[i] == f(c));
            if crate::ascii::is_lower_char(c) {
                assert(((c as u32) - 32) as char as u32 == (c as u32) - 32);
            }
        }
    }
}

/// The year of a year age group as written in a key.
pub open spec fn age_year(a: Fgr15Age) -> Seq<char> {
    match a {
        Fgr15Age::Year1 => "1"@,
        Fgr15Age::Year5 => "5"@,
        Fgr15Age::Year10 => "10"@,
        _ => "15"@,
    }
}

proof fn lemma_digit_run_concat(a: Seq<char>, b: Seq<char>)
    requires
        forall|i: int| 0 <= i < a.len() ==> is_digit_char(#[trigger] a[i]),
        b.len() == 0 || !is_digit_char(b[0]),
    ensures
        digit_run(a + b) == a.len(),
    decreases a.len(),
{
    if a.len() > 0 {
        assert((a + b).drop_first() =~= a.drop_first() + b);
        lemma_digit_run_concat(a.drop_first(), b);
    } else {
        assert(a + b =~= b);
    }
}

/// A year age group's year followed by any allowed suffix (`-yr`, `-y`,
/// `-yr-old`, `-y-old`, `yr`, `y` or nothing) names that age group.
pub proof fn lemma_age_year_suffixes(a: Fgr15Age, sfx: Seq<char>)
    requires
        a == Fgr15Age::Year1 || a == Fgr15Age::Year5 || a == Fgr15Age::Year10 || a == Fgr15Age::Year15,
        is_age_suffix(sfx),
    ensures
        age_key(age_year(a) + sfx) == Some(a),
{
    reveal_strlit("1");
    reveal_strlit("5");
    reveal_strlit("10");
    reveal_strlit("15");
    reveal_strlit("-yr");
    reveal_strlit("-y");
    reveal_strlit("-yr-old");
    reveal_strlit("-y-old");
    reveal_strlit("yr");
    reveal_strlit("y");
    reveal_strlit("newborn");
    reveal_strlit("adult");
    let n = age_year(a);
    let k = n + sfx;
    assert(forall|i: int| 0 <= i < sfx.len() ==> !is_upper_char(#[trigger] sfx[i]) && !is_ws(sfx[i]));
    assert(sfx.len() == 0 || !is_digit_char(sfx[0]));
    lemma_trim_plain(k);
    lemma_lower_plain(k);
    lemma_digit_run_concat(n, sfx);
    assert(k.skip(n.len() as int) =~= sfx);
    assert(k.take(n.len() as int) =~= n);
    assert(k != "newborn"@ && k != "adult"@) by {
        assert(k[0] != 'n' && k[0] != 'a');
    }
    if a == Fgr15Age::Year10 || a == Fgr15Age::Year15 {
        assert(n != "1"@ && n != "5"@);
        if a == Fgr15Age::Year15 {
            assert(n[1] != "10"@[1]);
        }
    } else if a == Fgr15Age::Year5 {
        assert(n[0] != "1"@[0]);
    }
}

/// `k` is the position of the first `c` in `s` (`s.len()` when absent).
pub open spec fn is_first_at(s: Seq<char>, c: char, k: int) -> bool {
    &&& 0 <= k <= s.len()
    &&& k < s.len() ==> s[k] == c
    &&& forall|j: int| 0 <= j < k ==> s[j] != c
}

/// Position of the first `c` in `s` (`s.len()` when absent).
pub open spec fn first_at(s: Seq<char>, c: char) -> int {
    choose|k: int| is_first_at(s, c, k)
}

proof fn lemma_first_at_unique(s: Seq<char>, c: char, k: int)
    requires
        is_first_at(s, c, k),
    ensures
        first_at(s, c) == k,
{
    let m = choose|m: int| is_first_at(s, c, m);
    assert(is_first_at(s, c, m));
    if m < k {
        assert(s[m] == c);
    } else if k < m {
        assert(s[k] == c);
    }
}


proof fn lemma_upper_char_facts(c: char)
    ensures
        (upper_char(c) == '-') == (c == '-'),
        is_digit_char(upper_char(c)) == is_digit_char(c),
        is_alpha_char(upper_char(c)) == is_alpha_char(c),
        crate::ascii::lower_char(upper_char(c)) == crate::ascii::lower_char(c),
        upper_char(upper_char(c)) == upper_char(c),
{
    if crate::ascii::is_lower_char(c) {
        assert(((c as u32) - 32) as char as u32 == (c as u32) - 32);
    }
}

proof fn lemma_first_exists(s: Seq<char>, c: char, i: int) -> (k: int)
    requires
        0 <= i <= s.len(),
        forall|j: int| 0 <= j < i ==> s[j] != c,
    ensures
        is_first_at(s, c, k),
    decreases s.len() - i,
{
    if i == s.len() || s[i] == c {
        i
    } else {
        lemma_first_exists(s, c, i + 1)
    }
}


proof fn lemma_digit_run_le(s: Seq<char>)
    ensures
        digit_run(s) <= s.len(),
    decreases s.len(),
{
    if s.len() > 0 && is_digit_char(s[0]) {
        lemma_digit_run_le(s.drop_first());
    }
}

proof fn lemma_digit_run_prefix(s: Seq<char>, i: int)
    requires
        0 <= i < digit_run(s),
    ensures
        is_digit_char(s[i]),
    decreases i,
{
    lemma_digit_run_le(s);
    assert(s.len() > 0 && is_digit_char(s[0]));
    if i > 0 {
        assert(digit_run(s) == 1 + digit_run(s.drop_first()));
        lemma_digit_run_prefix(s.drop_first(), i - 1);
        assert(s.drop_first()[i - 1] == s[i]);
    }
}

proof fn lemma_digit_run_upper(s: Seq<char>)
    ensures
        digit_run(crate::ascii::upper_seq(s)) == digit_run(s),
    decreases s.len(),
{
    if s.len() > 0 {
        lemma_upper_char_facts(s[0]);
        assert(crate::ascii::upper_seq(s).drop_first() =~= crate::ascii::upper_seq(s.drop_first()));
        lemma_digit_run_upper(s.drop_first());
    }
}

/// The atomic number of a symbol is that of its canonical respelling.
proof fn lemma_symbol_z_canonical(sym: Seq<char>)
    requires
        sym.len() >= 1,
    ensures
        symbol_z(sym) == element_z(canonical_symbol(sym)),
{
    if element_z(sym) is Some {
        let z = choose|z: int| crate::nuclide::is_z_of(sym, z);
        assert(crate::nuclide::is_z_of(sym, z));
        lemma_symbol_of_z(z);
        let e = crate::nuclide::element_symbol(z);
        assert(e == sym);
        lemma_upper_char_facts(e[0]);
        if e.len() == 2 {
            assert(lower_seq(e.drop_first()) =~= e.drop_first());
        } else {
            assert(lower_seq(e.drop_first()) =~= e.drop_first());
        }
        assert(canonical_symbol(e) =~= e);
    }
}

/// Nuclide names ignore ASCII case: an upper-cased name (symbol and isomer
/// letter alike) names the same nuclide, or none when the name names none.
pub proof fn lemma_nuclide_name_case(name: Seq<char>)
    ensures
        nuclide_name_parts(crate::ascii::upper_seq(name)) == nuclide_name_parts(name),
{
    let u = crate::ascii::upper_seq(name);
    let k = lemma_first_exists(name, '-', 0);
    assert(is_first_at(u, '-', k)) by {
        if k < name.len() {
            lemma_upper_char_facts(name[k]);
        }
        assert forall|j: int| 0 <= j < k implies u[j] != '-' by {
            lemma_upper_char_facts(name[j]);
        }
    }
    lemma_first_at_unique(name, '-', k);
    lemma_first_at_unique(u, '-', k);
    if k < name.len() {
        let sym = name.take(k);
        let usym = u.take(k);
        assert(usym =~= crate::ascii::upper_seq(sym));
        let rest = name.skip(k + 1);
        let urest = u.skip(k + 1);
        assert(urest =~= crate::ascii::upper_seq(rest));
        lemma_digit_run_upper(rest);
        let d = digit_run(rest) as int;
        lemma_digit_run_le(rest);
        assert(urest.take(d) =~= rest.take(d)) by {
            assert forall|i: int| 0 <= i < d implies urest.take(d)[i] == rest.take(d)[i] by {
                lemma_digit_run_prefix(rest, i);
                lemma_upper_char_facts(rest[i]);
            }
        }
        if all_alpha(sym) {
            assert forall|i: int| 0 <= i < usym.len() implies is_alpha_char(#[trigger] usym[i]) by {
                lemma_upper_char_facts(sym[i]);
            }
        }
        if all_alpha(usym) {
            assert forall|i: int| 0 <= i < sym.len() implies is_alpha_char(#[trigger] sym[i]) by {
                lemma_upper_char_facts(sym[i]);
                assert(is_alpha_char(usym[i]));
            }
        }
        assert(all_alpha(usym) == all_alpha(sym));
        if sym.len() >= 1 {
            lemma_symbol_z_canonical(sym);
            lemma_symbol_z_canonical(usym);
            lemma_upper_char_facts(sym[0]);
            assert(lower_seq(usym.drop_first()) =~= lower_seq(sym.drop_first())) by {
                assert forall|i: int| 0 <= i < sym.len() - 1 implies #[trigger] lower_seq(usym.drop_first())[i] == lower_seq(sym.drop_first())[i] by {
                    lemma_upper_char_facts(sym[i + 1]);
                }
            }
            assert(canonical_symbol(usym) =~= canonical_symbol(sym));
        }
        let suf = rest.skip(d);
        let usuf = urest.skip(d);
        assert(usuf =~= crate::ascii::upper_seq(suf));
        if suf.len() == 1 {
            lemma_upper_char_facts(suf[0]);
        }
    }
}

/// Position of the first `c` in `v` (`v.len()` when absent).
pub fn first_index(v: &Vec<char>, c: char) -> (r: usize)
    ensures
        is_first_at(v@, c, r as int),
        r as int == first_at(v@, c),
{
    let mut i: usize = 0;
    while i < v.len() && v[i] != c
        invariant
            i <= v.len(),
            forall|j: int| 0 <= j < i ==> v@[j] != c,
        decreases v.len() - i,
    {
        i = i + 1;
    }
    proof {
        lemma_first_at_unique(v@, c, i as int);
    }
    i
}

/// Every character of `s` is an ASCII letter.
pub open spec fn all_alpha(s: Seq<char>) -> bool {
    forall|i: int| 0 <= i < s.len() ==> is_alpha_char(#[trigger] s[i])
}

/// Element symbol respelled with a capital first letter and small letters
/// after it.
pub open spec fn canonical_symbol(sym: Seq<char>) -> Seq<char> {
    seq![upper_char(sym[0])] + lower_seq(sym.drop_first())
}

/// Atomic number of a symbol as written, or else of its canonical
/// respelling.
pub open spec fn symbol_z(sym: Seq<char>) -> Option<int> {
    match element_z(sym) {
        Some(z) => Some(z),
        None => element_z(canonical_symbol(sym)),
    }
}

/// Isomeric state of the text after the mass number: none (ground state)
/// or exactly one designator letter.
pub open spec fn suffix_state(suf: Seq<char>) -> Option<u32> {
    if suf.len() == 0 {
        Some(0)
    } else if suf.len() == 1 {
        isomer_state(suf[0])
    } else {
        None
    }
}

/// `(Z, A, state)` named by an FGR 15 nuclide name: an element symbol of
/// one or two ASCII letters (any case), `-`, the decimal mass number, and
/// an optional isomer designator letter; `None` for any other shape or for
/// components that make no valid nuclide.
pub open spec fn nuclide_name_parts(name: Seq<char>) -> Option<(u32, u32, u32)> {
    let k = first_at(name, '-');
    let sym = name.take(k);
    let rest = name.skip(k + 1);
    let d = digit_run(rest) as int;
    let a = digits_value(rest.take(d));
    if k >= name.len() || !(1 <= sym.len() <= 2) || !all_alpha(sym) || d == 0 {
        None
    } else {
        match (symbol_z(sym), suffix_state(rest.skip(d))) {
            (Some(z), Some(st)) => if a <= 999 && z <= a {
                Some((z as u32, a as u32, st))
            } else {
                None
            },
            _ => None,
        }
    }
}

/// `token` has the surface shape of a nuclide name: one or two ASCII
/// letters, `-`, one or more digits, and at most one ASCII letter.
pub open spec fn name_shape(token: Seq<char>) -> bool {
    let k = first_at(token, '-');
    let sym = token.take(k);
    let rest = token.skip(k + 1);
    let d = digit_run(rest) as int;
    &&& k < token.len()
    &&& 1 <= sym.len() <= 2
    &&& all_alpha(sym)
    &&& d >= 1
    &&& (rest.len() == d || (rest.len() == d + 1 && is_alpha_char(rest[d])))
}

/// The FGR 15 spelling of nuclide `(z, a, st)`: symbol, `-`, mass number,
/// and the designator letter of an excited state.
pub open spec fn nuclide_name(z: u32, a: u32, st: u32) -> Seq<char> {
    let base = element_symbol(z as int) + seq!['-'] + dec(a as nat);
    match isomer_letter(st) {
        Some(l) => base.push(l),
        None => base,
    }
}

fn all_alpha_exec(v: &Vec<char>) -> (r: bool)
    ensures
        r == all_alpha(v@),
{
    let mut i: usize = 0;
    while i < v.len()
        invariant
            i <= v.len(),
            forall|j: int| 0 <= j < i ==> is_alpha_char(#[trigger] v@[j]),
        decreases v.len() - i,
    {
        if !alpha_char(v[i]) {
            return false;
        }
        i = i + 1;
    }
    true
}

/// `min(value of v[0..d], 1000)` for a run of ASCII digits.
fn digits_value_capped(v: &Vec<char>, d: usize) -> (r: u32)
    requires
        d <= v.len(),
        forall|i: int| 0 <= i < d ==> is_digit_char(#[trigger] v@[i]),
    ensures
        r <= 1000,
        r < 1000 ==> r == digits_value(v@.take(d as int)),
        r == 1000 ==> digits_value(v@.take(d as int)) >= 1000,
{
    let mut acc: u32 = 0;
    let mut i: usize = 0;
    assert(v@.take(0) =~= Seq::<char>::empty());
    while i < d
        invariant
            i <= d <= v.len(),
            forall|j: int| 0 <= j < d ==> is_digit_char(#[trigger] v@[j]),
            acc <= 1000,
            acc < 1000 ==> acc == digits_value(v@.take(i as int)),
            acc == 1000 ==> digits_value(v@.take(i as int)) >= 1000,
        decreases d - i,
    {
        let c = v[i];
        assert(is_digit_char(v@[i as int]));
        let dv: u32 = (c as u32) - ('0' as u32);
        proof {
            assert(v@.take(i + 1) =~= v@.take(i as int).push(c));
            lemma_digits_value_push(v@.take(i as int), c);
        }
        if acc >= 100 {
            acc = 1000;
        } else {
            acc = acc * 10 + dv;
        }
        i = i + 1;
    }
    acc
}

/// Whether `token` has the surface shape of a nuclide name: one or two
/// ASCII letters, `-`, one or more digits, and at most one letter.
pub fn has_name_shape(token: &str) -> (r: bool)
    ensures
        r == name_shape(token@),
{
    let v = chars_of(token);
    name_shape_chars(&v)
}

fn name_shape_chars(v: &Vec<char>) -> (r: bool)
    ensures
        r == name_shape(v@),
{
    let k = first_index(v, '-');
    if k == v.len() {
        return false;
    }
    let sym = sub_chars(v, 0, k);
    assert(sym@ =~= v@.take(k as int));
    if sym.len() == 0 || sym.len() > 2 || !all_alpha_exec(&sym) {
        return false;
    }
    let rest = sub_chars(v, k + 1, v.len());
    assert(rest@ =~= v@.skip(k + 1));
    let d = digit_run_exec(&rest);
    if d == 0 {
        return false;
    }
    rest.len() == d || (rest.len() == d + 1 && alpha_char(rest[d]))
}

/// Parse an FGR 15 nuclide name (`H-3`, `Cs-137`, `Ba-137m`, `Sb-124n`):
/// element symbol, `-`, mass number, and an optional isomer designator
/// letter (`m` is state 1, `n` state 2, ... along `mnopqrstuvxyz`,
/// case-insensitive). `None` for any other shape or invalid components.
pub fn parse_nuclide_name(name: &str) -> (r: Option<NuclideId>)
    ensures
        match (r, nuclide_name_parts(name@)) {
            (Some(id), Some((z, a, st))) => id.spec_z() == z && id.spec_a() == a && id.spec_state() == st,
            (None, None) => true,
            _ => false,
        },
{
    let v = chars_of(name);
    parse_nuclide_chars(&v)
}

/// [`parse_nuclide_name`] on the characters of a name.
pub fn parse_nuclide_chars(v: &Vec<char>) -> (r: Option<NuclideId>)
    ensures
        match (r, nuclide_name_parts(v@)) {
            (Some(id), Some((z, a, st))) => id.spec_z() == z && id.spec_a() == a && id.spec_state() == st,
            (None, None) => true,
            _ => false,
        },
{
    let k = first_index(v, '-');
    if k == v.len() {
        return None;
    }
    let sym = sub_chars(v, 0, k);
    assert(sym@ =~= v@.take(k as int));
    if sym.len() == 0 || sym.len() > 2 || !all_alpha_exec(&sym) {
        return None;
    }
    let rest = sub_chars(v, k + 1, v.len());
    assert(rest@ =~= v@.skip(k + 1));
    let z = match element_z_exec(&sym) {
        Some(z) => z,
        None => {
            let mut canon: Vec<char> = Vec::new();
            canon.push(to_upper_char(sym[0]));
            let tail = sub_chars(&sym, 1, sym.len());
            let low = to_lower_vec(&tail);
            let mut j: usize = 0;
            while j < low.len()
                invariant
                    j <= low.len(),
                    canon@ == seq![upper_char(sym@[0])] + low@.take(j as int),
                decreases low.len() - j,
            {
                canon.push(low[j]);
                j = j + 1;
                assert(canon@ =~= seq![upper_char(sym@[0])] + low@.take(j as int));
            }
            assert(low@.take(low@.len() as int) =~= low@);
            assert(tail@ =~= sym@.drop_first());
            assert(canon@ =~= canonical_symbol(sym@));
            match element_z_exec(&canon) {
                Some(z) => z,
                None => {
                    return None;
                },
            }
        },
    };
    let d = digit_run_exec(&rest);
    if d == 0 {
        return None;
    }
    let a = digits_value_capped(&rest, d);
    let suf_len = rest.len() - d;
    let ghost suf = rest@.skip(d as int);
    let st: u32 = if suf_len == 0 {
        0
    } else if suf_len == 1 {
        match isomer_state_exec(rest[d]) {
            Some(st) => st,
            None => {
                return None;
            },
        }
    } else {
        return None;
    };
    assert(suffix_state(suf) == Some(st));
    if a > 999 || a < z {
        return None;
    }
    match NuclideId::new(z, a, st) {
        Ok(id) => Some(id),
        Err(_) => None,
    }
}

/// FGR 15 name spelling of a nuclide (`H-3`, `Ba-137m`, `Sb-124n`); the
/// isomer letter follows the `mnopqrstuvxyz` state convention.
pub fn name_of(id: NuclideId) -> (r: String)
    ensures
        r@ == nuclide_name(id.spec_z(), id.spec_a(), id.spec_state()),
{
    let z = id.z();
    let a = id.a();
    let st = id.state();
    let mut v = element_symbol_exec(z);
    v.push('-');
    let digits = dec_chars(a as u64);
    let mut i: usize = 0;
    let ghost base = v@;
    while i < digits.len()
        invariant
            i <= digits.len(),
            v@ == base + digits@.take(i as int),
        decreases digits.len() - i,
    {
        v.push(digits[i]);
        i = i + 1;
        assert(v@ =~= base + digits@.take(i as int));
    }
    assert(digits@.take(digits@.len() as int) =~= digits@);
    if 1 <= st && st <= 13 {
        v.push(ISOMER_LETTERS[(st - 1) as usize]);
    }
    string_from_chars(v.as_slice())
}

proof fn lemma_digit_char_value(d: nat)
    requires
        d < 10,
    ensures
        is_digit_char(digit_char_of(d)),
        ((digit_char_of(d) as u32) - ('0' as u32)) as nat == d,
{
}

/// Every character of `dec(n)` is a digit, and the digits read back as `n`.
proof fn lemma_dec_reads_back(n: nat)
    ensures
        dec(n).len() >= 1,
        forall|i: int| 0 <= i < dec(n).len() ==> is_digit_char(#[trigger] dec(n)[i]),
        digits_value(dec(n)) == n,
    decreases n,
{
    if n < 10 {
        lemma_digit_char_value(n);
        assert(dec(n).drop_last() =~= Seq::<char>::empty());
        assert(digits_value(Seq::<char>::empty()) == 0);
    } else {
        lemma_dec_reads_back(n / 10);
        lemma_digit_char_value(n % 10);
        lemma_digits_value_push(dec(n / 10), digit_char_of(n % 10));
        assert(dec(n) == dec(n / 10).push(digit_char_of(n % 10)));
        assert(n == (n / 10) * 10 + n % 10);
    }
}

/// A run of digits followed by nothing or by a non-digit has that run's
/// length as its digit run.
proof fn lemma_digit_run_of(s: Seq<char>, t: Seq<char>)
    requires
        forall|i: int| 0 <= i < s.len() ==> is_digit_char(#[trigger] s[i]),
        t.len() > 0 ==> !is_digit_char(t[0]),
    ensures
        digit_run(s + t) == s.len(),
    decreases s.len(),
{
    if s.len() == 0 {
        assert(s + t =~= t);
    } else {
        assert((s + t).drop_first() =~= s.drop_first() + t);
        lemma_digit_run_of(s.drop_first(), t);
    }
}

/// The FGR 15 spelling of a valid nuclide parses back to that nuclide.
pub proof fn lemma_name_round_trip(z: u32, a: u32, st: u32)
    requires
        valid_nuclide(z, a, st),
    ensures
        nuclide_name_parts(nuclide_name(z, a, st)) == Some((z, a, st)),
{
    let sym = element_symbol(z as int);
    lemma_symbol_of_z(z as int);
    lemma_dec_reads_back(a as nat);
    let digits = dec(a as nat);
    let tail: Seq<char> = match isomer_letter(st) {
        Some(l) => seq![l],
        None => Seq::<char>::empty(),
    };
    if st >= 1 {
        lemma_isomer_letter_state(st);
    }
    let name = nuclide_name(z, a, st);
    assert(name =~= sym + seq!['-'] + (digits + tail));
    let k = sym.len() as int;
    assert(is_first_at(name, '-', k));
    lemma_first_at_unique(name, '-', k);
    assert(name.take(k) =~= sym);
    let rest = name.skip(k + 1);
    assert(rest =~= digits + tail);
    lemma_digit_run_of(digits, tail);
    let d = digits.len() as int;
    assert(rest.take(d) =~= digits);
    assert(rest.skip(d) =~= tail);
    assert(all_alpha(sym));
    assert(symbol_z(sym) == Some(z as int));
    if st == 0 {
        assert(suffix_state(tail) == Some(0u32));
    } else {
        assert(suffix_state(tail) == Some(st));
    }
}

/// Errors from parsing an FGR 15 `Table_4_*.DAT` member.
#[derive(Debug, Clone, PartialEq, Eq)]
pub enum Error {
    /// The first line is not a `Table 4.N.` title heading.
    BadTitle(String),
    /// The title's table number does not identify a known scenario.
    UnknownScenario(String),
    /// No `Reference Person Coefficients (...)` units header line was found.
    MissingUnits,
    /// The column header line is not the expected seven-column heading.
    MalformedHeader(String),
    /// The dashed separator after the column header is missing.
    MissingSeparator,
    /// A line in the row region is neither structural nor a data row.
    UnexpectedLine { line: usize, text: String },
    /// A data-shaped row has the wrong column count, an unparseable or
    /// non-finite coefficient, or an invalid nuclide name.
    MalformedRow { line: usize, text: String },
    /// The same nuclide appears twice in one table.
    DuplicateRow { line: usize, name: String },
    /// The parsed row total differs from the caller's expectation.
    RowCount { scenario: Fgr15Scenario, expected: usize, found: usize },
}

/// An [`Error`] with its texts as character sequences.
pub enum ErrorView {
    BadTitle(Seq<char>),
    UnknownScenario(Seq<char>),
    MissingUnits,
    MalformedHeader(Seq<char>),
    MissingSeparator,
    UnexpectedLine { line: int, text: Seq<char> },
    MalformedRow { line: int, text: Seq<char> },
    DuplicateRow { line: int, name: Seq<char> },
    RowCount { scenario: Fgr15Scenario, expected: int, found: int },
}

impl View for Error {
    type V = ErrorView;

    open spec fn view(&self) -> ErrorView {
        match self {
            Error::BadTitle(t) => ErrorView::BadTitle(t@),
            Error::UnknownScenario(t) => ErrorView::UnknownScenario(t@),
            Error::MissingUnits => ErrorView::MissingUnits,
            Error::MalformedHeader(h) => ErrorView::MalformedHeader(h@),
            Error::MissingSeparator => ErrorView::MissingSeparator,
            Error::UnexpectedLine { line, text } => ErrorView::UnexpectedLine { line: *line as int, text: text@ },
            Error::MalformedRow { line, text } => ErrorView::MalformedRow { line: *line as int, text: text@ },
            Error::DuplicateRow { line, name } => ErrorView::DuplicateRow { line: *line as int, name: name@ },
            Error::RowCount { scenario, expected, found } => ErrorView::RowCount {
                scenario: *scenario,
                expected: *expected as int,
                found: *found as int,
            },
        }
    }
}

/// The message of a table error.
pub open spec fn error_message(e: ErrorView) -> Seq<char> {
    match e {
        ErrorView::BadTitle(t) => "first line is not a `Table 4.N.` title: `"@ + t + "`"@,
        ErrorView::UnknownScenario(t) => "unknown FGR 15 scenario in title: `"@ + t + "`"@,
        ErrorView::MissingUnits => "missing `Reference Person Coefficients (...)` header"@,
        ErrorView::MalformedHeader(h) => "malformed column header: `"@ + h + "`"@,
        ErrorView::MissingSeparator => "missing dashed separator after column header"@,
        ErrorView::UnexpectedLine { line, text } => "unexpected content at line "@ + dec(line as nat) + ": `"@
            + text + "`"@,
        ErrorView::MalformedRow { line, text } => "malformed data row at line "@ + dec(line as nat) + ": `"@
            + text + "`"@,
        ErrorView::DuplicateRow { line, name } => "duplicate nuclide row `"@ + name + "` at line "@
            + dec(line as nat),
        ErrorView::RowCount { scenario, expected, found } => "table "@ + scenario_table(scenario) + " ("@
            + scenario_name(scenario) + ") holds "@ + dec(found as nat) + " rows, expected "@ + dec(expected as nat),
    }
}

impl Error {
    /// The error's message.
    pub fn to_string(&self) -> (r: String)
        ensures
            r@ == error_message(self@),
    {
        let mut v: Vec<char> = Vec::new();
        match self {
            Error::BadTitle(t) => {
                append_str(&mut v, "first line is not a `Table 4.N.` title: `");
                append_str(&mut v, t.as_str());
                append_str(&mut v, "`");
            },
            Error::UnknownScenario(t) => {
                append_str(&mut v, "unknown FGR 15 scenario in title: `");
                append_str(&mut v, t.as_str());
                append_str(&mut v, "`");
            },
            Error::MissingUnits => {
                append_str(&mut v, "missing `Reference Person Coefficients (...)` header");
            },
            Error::MalformedHeader(h) => {
                append_str(&mut v, "malformed column header: `");
                append_str(&mut v, h.as_str());
                append_str(&mut v, "`");
            },
            Error::MissingSeparator => {
                append_str(&mut v, "missing dashed separator after column header");
            },
            Error::UnexpectedLine { line, text } => {
                append_str(&mut v, "unexpected content at line ");
                append_dec(&mut v, *line as u64);
                append_str(&mut v, ": `");
                append_str(&mut v, text.as_str());
                append_str(&mut v, "`");
            },
            Error::MalformedRow { line, text } => {
                append_str(&mut v, "malformed data row at line ");
                append_dec(&mut v, *line as u64);
                append_str(&mut v, ": `");
                append_str(&mut v, text.as_str());
                append_str(&mut v, "`");
            },
            Error::DuplicateRow { line, name } => {
                append_str(&mut v, "duplicate nuclide row `");
                append_str(&mut v, name.as_str());
                append_str(&mut v, "` at line ");
                append_dec(&mut v, *line as u64);
            },
            Error::RowCount { scenario, expected, found } => {
                append_str(&mut v, "table ");
                append_str(&mut v, scenario.table_number());
                append_str(&mut v, " (");
                append_str(&mut v, scenario.as_str());
                append_str(&mut v, ") holds ");
                append_dec(&mut v, *found as u64);
                append_str(&mut v, " rows, expected ");
                append_dec(&mut v, *expected as u64);
            },
        }
        assert(v@ =~= error_message(self@));
        string_from_chars(v.as_slice())
    }
}

/// `c` is one of the invisible formatting characters the EPA files carry
/// (byte-order mark, zero-width space).
pub open spec fn is_invisible(c: char) -> bool {
    c == '\u{feff}' || c == '\u{200b}'
}

/// `s` without its invisible formatting characters.
pub open spec fn clean_seq(s: Seq<char>) -> Seq<char>
    decreases s.len(),
{
    if s.len() == 0 {
        s
    } else if is_invisible(s.last()) {
        clean_seq(s.drop_last())
    } else {
        clean_seq(s.drop_last()).push(s.last())
    }
}

/// Strip the invisible formatting characters (byte-order mark, zero-width
/// space) that the EPA files sprinkle into structural lines.
pub fn clean(line: &Vec<char>) -> (r: Vec<char>)
    ensures
        r@ == clean_seq(line@),
{
    let mut r: Vec<char> = Vec::new();
    let mut i: usize = 0;
    assert(line@.take(0) =~= Seq::<char>::empty());
    while i < line.len()
        invariant
            i <= line.len(),
            r@ == clean_seq(line@.take(i as int)),
        decreases line.len() - i,
    {
        let c = line[i];
        assert(line@.take(i + 1).drop_last() =~= line@.take(i as int));
        if c != '\u{feff}' && c != '\u{200b}' {
            r.push(c);
        }
        i = i + 1;
    }
    assert(line@.take(line@.len() as int) =~= line@);
    r
}

/// The title prefix `Table 4.`.
pub open spec fn title_prefix() -> Seq<char> {
    seq!['T', 'a', 'b', 'l', 'e', ' ', '4', '.']
}

/// Outcome of reading a title line: `Table 4.N.` with `N` (a decimal
/// number that fits in `u32`) naming a scenario.
pub open spec fn title_result(line: Seq<char>) -> Result<Fgr15Scenario, ErrorView> {
    let title = trim_ws(line);
    let rest = title.skip(8);
    let d = digit_run(rest) as int;
    let n = digits_value(rest.take(d));
    if !has_prefix(title, title_prefix()) || d == 0 || n > 0xffff_ffff || !(d < rest.len() && rest[d] == '.') {
        Err(ErrorView::BadTitle(title))
    } else {
        match scenario_of_ordinal(n as u32) {
            Some(sc) => Ok(sc),
            None => Err(ErrorView::UnknownScenario(title)),
        }
    }
}

/// Parse the `Table 4.N.` title line, returning the scenario.
pub fn parse_title(line: &Vec<char>) -> (r: Result<Fgr15Scenario, Error>)
    ensures
        match (r, title_result(line@)) {
            (Ok(a), Ok(b)) => a == b,
            (Err(e), Err(f)) => e@ == f,
            _ => false,
        },
{
    let title = trim_chars(line);
    let pre = chars_of("Table 4.");
    proof {
        reveal_strlit("Table 4.");
        assert(pre@ =~= title_prefix());
    }
    if !crate::text::starts_with_chars(&title, &pre) {
        return Err(Error::BadTitle(string_from_chars(title.as_slice())));
    }
    let rest = sub_chars(&title, 8, title.len());
    assert(rest@ =~= title@.skip(8));
    let d = digit_run_exec(&rest);
    if d == 0 {
        return Err(Error::BadTitle(string_from_chars(title.as_slice())));
    }
    let n = digits_value_upto(&rest, d, 0x1_0000_0000);
    if n == 0x1_0000_0000 {
        return Err(Error::BadTitle(string_from_chars(title.as_slice())));
    }
    if !(d < rest.len() && rest[d] == '.') {
        return Err(Error::BadTitle(string_from_chars(title.as_slice())));
    }
    match Fgr15Scenario::from_table_number(n as u32) {
        Some(sc) => Ok(sc),
        None => Err(Error::UnknownScenario(string_from_chars(title.as_slice()))),
    }
}

/// `k` is the position of the last `c` in `s` (`-1` when absent).
pub open spec fn is_last_at(s: Seq<char>, c: char, k: int) -> bool {
    &&& -1 <= k < s.len()
    &&& k >= 0 ==> s[k] == c
    &&& forall|j: int| k < j < s.len() ==> s[j] != c
}

/// Position of the last `c` in `s` (`-1` when absent).
pub open spec fn last_at(s: Seq<char>, c: char) -> int {
    choose|k: int| is_last_at(s, c, k)
}

/// The text between the first `(` and the last `)` of a line, when both
/// are there with something between them.
pub open spec fn units_result(line: Seq<char>) -> Result<Seq<char>, ErrorView> {
    let o = first_at(line, '(');
    let c = last_at(line, ')');
    if o >= line.len() || c < 0 || c <= o + 1 {
        Err(ErrorView::MissingUnits)
    } else {
        Ok(line.subrange(o + 1, c))
    }
}

/// Extract the parenthesized units group from the
/// `Reference Person Coefficients (...)` header line.
pub fn extract_units(line: &Vec<char>) -> (r: Result<String, Error>)
    ensures
        match (r, units_result(line@)) {
            (Ok(a), Ok(b)) => a@ == b,
            (Err(e), Err(f)) => e@ == f,
            _ => false,
        },
{
    let o = first_index(line, '(');
    let mut c: usize = line.len();
    while c > 0 && line[c - 1] != ')'
        invariant
            c <= line.len(),
            forall|j: int| c <= j < line.len() ==> line@[j] != ')',
        decreases c,
    {
        c = c - 1;
    }
    let ghost k: int = c as int - 1;
    proof {
        assert(is_last_at(line@, ')', k));
        let m = choose|m: int| is_last_at(line@, ')', m);
        assert(is_last_at(line@, ')', m));
        if m < k {
            assert(line@[k] == ')');
        } else if k < m {
            assert(line@[m] == ')');
        }
    }
    if o == line.len() || c == 0 || c - 1 <= o + 1 {
        return Err(Error::MissingUnits);
    }
    let u = sub_chars(line, o + 1, c - 1);
    Ok(string_from_chars(u.as_slice()))
}

/// Element-name separators are single capitalised alphabetic words
/// (`Hydrogen`, `Beryllium`).
pub open spec fn element_separator(token: Seq<char>) -> bool {
    token.len() >= 1 && is_upper_char(token[0]) && all_alpha(token.drop_first())
}

/// Whether a row-region token is an element-name separator.
pub fn is_element_separator(token: &Vec<char>) -> (r: bool)
    ensures
        r == element_separator(token@),
{
    if token.len() == 0 || !upper_ascii_char(token[0]) {
        return false;
    }
    let tail = sub_chars(token, 1, token.len());
    assert(tail@ =~= token@.drop_first());
    all_alpha_exec(&tail)
}

/// Every character of `s` is `-` (true of the empty sequence).
pub open spec fn all_dash(s: Seq<char>) -> bool {
    forall|i: int| 0 <= i < s.len() ==> #[trigger] s[i] == '-'
}

/// Packed `ZZZAAASSSS` identifier of `(Z, A, state)`.
pub open spec fn packed_nucid(p: (u32, u32, u32)) -> int {
    p.0 * 10_000_000 + p.1 * 10_000 + p.2
}

/// A data row of the row region: its 1-based line number, the packed
/// identifier and spelling of its nuclide, the trimmed line, and its six
/// coefficient tokens.
pub struct RowView {
    pub line: int,
    pub nucid: int,
    pub name: Seq<char>,
    pub text: Seq<char>,
    pub coefficients: Seq<Seq<char>>,
}

/// What one line of the row region is.
pub enum RowLine {
    /// Blank, dashed, or an element-name separator.
    Skip,
    /// A data row.
    Data(RowView),
    /// Neither: the error it raises.
    Fault(ErrorView),
}

/// Classification of row-region line number `lineno` (1-based) with text
/// `raw`.
pub open spec fn row_line(lineno: int, raw: Seq<char>) -> RowLine {
    let t = trim_ws(clean_seq(raw));
    let toks = split_ws(t);
    if all_dash(t) || toks.len() == 0 {
        RowLine::Skip
    } else if toks.len() == 1 && element_separator(toks[0]) {
        RowLine::Skip
    } else {
        match nuclide_name_parts(toks[0]) {
            None => RowLine::Fault(
                if name_shape(toks[0]) {
                    ErrorView::MalformedRow { line: lineno, text: t }
                } else {
                    ErrorView::UnexpectedLine { line: lineno, text: t }
                },
            ),
            Some(p) => if toks.len() != 7 {
                RowLine::Fault(ErrorView::MalformedRow { line: lineno, text: t })
            } else {
                RowLine::Data(
                    RowView {
                        line: lineno,
                        nucid: packed_nucid(p),
                        name: toks[0],
                        text: t,
                        coefficients: toks.skip(1),
                    },
                )
            },
        }
    }
}

/// The data rows of the row region from line index `i` on, given the
/// identifiers already seen, and the error that ends the region early, if
/// any. A repeated nuclide ends it with its row still listed.
pub open spec fn scan_rows(lines: Seq<Seq<char>>, i: int, seen: Seq<int>) -> (Seq<RowView>, Option<ErrorView>)
    decreases lines.len() - i,
{
    if i < 0 || i >= lines.len() {
        (Seq::empty(), None)
    } else {
        match row_line(i + 1, lines[i]) {
            RowLine::Skip => scan_rows(lines, i + 1, seen),
            RowLine::Fault(e) => (Seq::empty(), Some(e)),
            RowLine::Data(row) => if seen.contains(row.nucid) {
                (seq![row], Some(ErrorView::DuplicateRow { line: i + 1, name: row.name }))
            } else {
                let next = scan_rows(lines, i + 1, seen.push(row.nucid));
                (seq![row] + next.0, next.1)
            },
        }
    }
}

/// Index of the first line at or after `i` with visible content.
pub open spec fn first_content(lines: Seq<Seq<char>>, i: int) -> int
    decreases lines.len() - i,
{
    if i < 0 || i >= lines.len() {
        lines.len() as int
    } else if trim_ws(clean_seq(lines[i])).len() > 0 {
        i
    } else {
        first_content(lines, i + 1)
    }
}

/// The seven column headings.
pub open spec fn column_header() -> Seq<Seq<char>> {
    seq!["Nuclide"@, "Newborn"@, "1-yr-old"@, "5-yr-old"@, "10-yr-old"@, "15-yr-old"@, "Adult"@]
}

/// A member's layout: its scenario, units, data rows in order, and the
/// error that ended the row region, if one did.
pub struct ScanView {
    pub scenario: Fgr15Scenario,
    pub units: Seq<char>,
    pub rows: Seq<RowView>,
    pub stop: Option<ErrorView>,
}

/// The layout of a `Table_4_*.DAT` member: title line, blank lines, the
/// units header, the column header, a dashed separator, then the row
/// region; or the first error in the part before the row region.
pub open spec fn table_scan(text: Seq<char>) -> Result<ScanView, ErrorView> {
    let lines = text_lines(text);
    let u = first_content(lines, 1);
    let ut = trim_ws(clean_seq(lines[u]));
    let h = clean_seq(lines[u + 1]);
    let sep = trim_ws(clean_seq(lines[u + 2]));
    if lines.len() == 0 {
        Err(ErrorView::BadTitle(Seq::empty()))
    } else {
        match title_result(clean_seq(lines[0])) {
            Err(e) => Err(e),
            Ok(sc) => if u >= lines.len() {
                Err(ErrorView::MissingUnits)
            } else if !contains_seq(ut, "Reference Person Coefficients"@) {
                Err(ErrorView::UnexpectedLine { line: u + 1, text: ut })
            } else {
                match units_result(ut) {
                    Err(e) => Err(e),
                    Ok(units) => if u + 1 >= lines.len() {
                        Err(ErrorView::MalformedHeader(Seq::empty()))
                    } else if split_ws(h) != column_header() {
                        Err(ErrorView::MalformedHeader(trim_ws(h)))
                    } else if u + 2 >= lines.len() || sep.len() < 10 || !all_dash(sep) {
                        Err(ErrorView::MissingSeparator)
                    } else {
                        let scanned = scan_rows(lines, u + 3, Seq::empty());
                        Ok(ScanView { scenario: sc, units, rows: scanned.0, stop: scanned.1 })
                    },
                }
            },
        }
    }
}

/// A data row found by [`scan_table`].
pub struct ScannedRow {
    /// 1-based line number.
    pub line: usize,
    /// Packed identifier of the row's nuclide.
    pub nucid: u32,
    /// The nuclide name as written.
    pub name: String,
    /// The trimmed line.
    pub text: String,
    /// The six coefficient tokens, in age-column order.
    pub coefficients: Vec<String>,
}

impl View for ScannedRow {
    type V = RowView;

    open spec fn view(&self) -> RowView {
        RowView {
            line: self.line as int,
            nucid: self.nucid as int,
            name: self.name@,
            text: self.text@,
            coefficients: self.coefficients@.map_values(|c: String| c@),
        }
    }
}

/// The layout of a member as [`scan_table`] finds it.
pub struct TableScan {
    pub scenario: Fgr15Scenario,
    /// Coefficient units, verbatim from the header.
    pub units: String,
    /// Data rows in file order.
    pub rows: Vec<ScannedRow>,
    /// The error that ended the row region early, if one did.
    pub stop: Option<Error>,
}

pub open spec fn opt_error_view(e: Option<Error>) -> Option<ErrorView> {
    match e {
        Some(x) => Some(x@),
        None => None,
    }
}

impl View for TableScan {
    type V = ScanView;

    open spec fn view(&self) -> ScanView {
        ScanView {
            scenario: self.scenario,
            units: self.units@,
            rows: self.rows@.map_values(|r: ScannedRow| r@),
            stop: opt_error_view(self.stop),
        }
    }
}

/// What one row-region line is, as values.
pub enum RowStep {
    Skip,
    Data(ScannedRow),
    Fault(Error),
}

impl View for RowStep {
    type V = RowLine;

    open spec fn view(&self) -> RowLine {
        match self {
            RowStep::Skip => RowLine::Skip,
            RowStep::Data(r) => RowLine::Data(r@),
            RowStep::Fault(e) => RowLine::Fault(e@),
        }
    }
}

fn all_dash_exec(v: &Vec<char>) -> (r: bool)
    ensures
        r == all_dash(v@),
{
    let mut i: usize = 0;
    while i < v.len()
        invariant
            i <= v.len(),
            forall|j: int| 0 <= j < i ==> #[trigger] v@[j] == '-',
        decreases v.len() - i,
    {
        if v[i] != '-' {
            return false;
        }
        i = i + 1;
    }
    true
}

fn strings_of(words: &Vec<Vec<char>>, from: usize) -> (r: Vec<String>)
    requires
        from <= words.len(),
    ensures
        r@.map_values(|c: String| c@) == char_views(words@).skip(from as int),
{
    let mut r: Vec<String> = Vec::new();
    let mut i: usize = from;
    while i < words.len()
        invariant
            from <= i <= words.len(),
            r@.map_values(|c: String| c@) == char_views(words@).subrange(from as int, i as int),
        decreases words.len() - i,
    {
        let s = string_from_chars(words[i].as_slice());
        assert(s@ == char_views(words@)[i as int]);
        let ghost before = r@.map_values(|c: String| c@);
        r.push(s);
        assert(r@.map_values(|c: String| c@) =~= before.push(s@));
        i = i + 1;
        assert(r@.map_values(|c: String| c@) =~= char_views(words@).subrange(from as int, i as int));
    }
    assert(char_views(words@).subrange(from as int, words.len() as int) =~= char_views(words@).skip(from as int));
    r
}

/// Classify one line of the row region.
pub fn classify_row(lineno: usize, raw: &Vec<char>) -> (r: RowStep)
    ensures
        r@ == row_line(lineno as int, raw@),
{
    let cl = clean(raw);
    let t = trim_chars(&cl);
    let toks = words_of(&t);
    if all_dash_exec(&t) || toks.len() == 0 {
        return RowStep::Skip;
    }
    assert(char_views(toks@)[0] == toks@[0]@);
    if toks.len() == 1 && is_element_separator(&toks[0]) {
        return RowStep::Skip;
    }
    let text = string_from_chars(t.as_slice());
    match parse_nuclide_chars(&toks[0]) {
        None => {
            if name_shape_chars(&toks[0]) {
                RowStep::Fault(Error::MalformedRow { line: lineno, text })
            } else {
                RowStep::Fault(Error::UnexpectedLine { line: lineno, text })
            }
        },
        Some(id) => {
            if toks.len() != 7 {
                return RowStep::Fault(Error::MalformedRow { line: lineno, text });
            }
            let nucid = id.nucid();
            let name = string_from_chars(toks[0].as_slice());
            let coefficients = strings_of(&toks, 1);
            RowStep::Data(ScannedRow { line: lineno, nucid, name, text, coefficients })
        },
    }
}

fn seen_has(seen: &Vec<u32>, x: u32) -> (r: bool)
    ensures
        r == seen@.map_values(|y: u32| y as int).contains(x as int),
{
    let mut i: usize = 0;
    while i < seen.len()
        invariant
            i <= seen.len(),
            forall|j: int| 0 <= j < i ==> seen@[j] != x,
        decreases seen.len() - i,
    {
        if seen[i] == x {
            assert(seen@.map_values(|y: u32| y as int)[i as int] == x as int);
            return true;
        }
        i = i + 1;
    }
    proof {
        let m = seen@.map_values(|y: u32| y as int);
        if m.contains(x as int) {
            let k = choose|k: int| 0 <= k < m.len() && m[k] == x as int;
            assert(seen@[k] == x);
        }
    }
    false
}

fn scan_rows_exec(lines: &Vec<Vec<char>>, start: usize) -> (r: (Vec<ScannedRow>, Option<Error>))
    requires
        start <= lines.len(),
    ensures
        r.0@.map_values(|x: ScannedRow| x@) == scan_rows(char_views(lines@), start as int, Seq::empty()).0,
        opt_error_view(r.1) == scan_rows(char_views(lines@), start as int, Seq::empty()).1,
{
    let ghost ls = char_views(lines@);
    let mut rows: Vec<ScannedRow> = Vec::new();
    let mut seen: Vec<u32> = Vec::new();
    let mut i: usize = start;
    assert(seen@.map_values(|y: u32| y as int) =~= Seq::<int>::empty());
    assert(rows@.map_values(|x: ScannedRow| x@) =~= Seq::<RowView>::empty());
    while i < lines.len()
        invariant
            start <= i <= lines.len(),
            ls == char_views(lines@),
            scan_rows(ls, start as int, Seq::empty()).0 == rows@.map_values(|x: ScannedRow| x@)
                + scan_rows(ls, i as int, seen@.map_values(|y: u32| y as int)).0,
            scan_rows(ls, start as int, Seq::empty()).1 == scan_rows(ls, i as int, seen@.map_values(|y: u32| y as int)).1,
        decreases lines.len() - i,
    {
        let ghost sv = seen@.map_values(|y: u32| y as int);
        let ghost before = rows@.map_values(|x: ScannedRow| x@);
        let step = classify_row(i + 1, &lines[i]);
        assert(ls[i as int] == lines@[i as int]@);
        match step {
            RowStep::Skip => {
                i = i + 1;
            },
            RowStep::Fault(e) => {
                assert(rows@.map_values(|x: ScannedRow| x@) + Seq::<RowView>::empty() =~= rows@.map_values(|x: ScannedRow| x@));
                return (rows, Some(e));
            },
            RowStep::Data(row) => {
                let nucid = row.nucid;
                if seen_has(&seen, nucid) {
                    let name = row.name.clone();
                    assert(name@ == row.name@);
                    let line = row.line;
                    let ghost rv = row@;
                    rows.push(row);
                    assert(rows@.map_values(|x: ScannedRow| x@) =~= before + seq![rv]);
                    return (rows, Some(Error::DuplicateRow { line, name }));
                } else {
                    let ghost rv = row@;
                    rows.push(row);
                    seen.push(nucid);
                    assert(seen@.map_values(|y: u32| y as int) =~= sv.push(nucid as int));
                    assert(rows@.map_values(|x: ScannedRow| x@) =~= before + seq![rv]);
                    let ghost nx = scan_rows(ls, i + 1, sv.push(nucid as int));
                    assert(before + (seq![rv] + nx.0) =~= (before + seq![rv]) + nx.0);
                    i = i + 1;
                }
            },
        }
    }
    assert(rows@.map_values(|x: ScannedRow| x@) + Seq::<RowView>::empty() =~= rows@.map_values(|x: ScannedRow| x@));
    (rows, None)
}

fn first_content_exec(lines: &Vec<Vec<char>>, from: usize) -> (r: usize)
    requires
        from <= lines.len(),
    ensures
        r as int == first_content(char_views(lines@), from as int),
        r <= lines.len(),
{
    let ghost ls = char_views(lines@);
    let mut i: usize = from;
    while i < lines.len()
        invariant
            from <= i <= lines.len(),
            ls == char_views(lines@),
            first_content(ls, from as int) == first_content(ls, i as int),
        decreases lines.len() - i,
    {
        assert(ls[i as int] == lines@[i as int]@);
        let cl = clean(&lines[i]);
        let t = trim_chars(&cl);
        if t.len() > 0 {
            return i;
        }
        i = i + 1;
    }
    i
}

fn header_matches(words: &Vec<Vec<char>>) -> (r: bool)
    ensures
        r == (char_views(words@) == column_header()),
{
    assert(column_header().len() == 7);
    if words.len() != 7 {
        return false;
    }
    let ok = chars_are(&words[0], "Nuclide") && chars_are(&words[1], "Newborn")
        && chars_are(&words[2], "1-yr-old") && chars_are(&words[3], "5-yr-old")
        && chars_are(&words[4], "10-yr-old") && chars_are(&words[5], "15-yr-old")
        && chars_are(&words[6], "Adult");
    proof {
        let cv = char_views(words@);
        if ok {
            assert(cv =~= column_header());
        } else {
            if cv == column_header() {
                assert(cv[0] == words@[0]@ && cv[1] == words@[1]@ && cv[2] == words@[2]@);
                assert(cv[3] == words@[3]@ && cv[4] == words@[4]@ && cv[5] == words@[5]@);
                assert(cv[6] == words@[6]@);
            }
        }
    }
    ok
}

/// Read the layout of one `Table_4_*.DAT` member: the title, the units
/// header, the column header and separator, and the data rows of the row
/// region with their coefficient tokens; the row region ends at the first
/// line that is neither structural nor a data row, or at a repeated
/// nuclide.
pub fn scan_table(text: &str) -> (r: Result<TableScan, Error>)
    ensures
        match (r, table_scan(text@)) {
            (Ok(a), Ok(b)) => a@ == b,
            (Err(e), Err(f)) => e@ == f,
            _ => false,
        },
{
    let chars = chars_of(text);
    let lines = lines_of(&chars);
    let ghost ls = char_views(lines@);
    if lines.len() == 0 {
        return Err(Error::BadTitle(String::new()));
    }
    assert(ls[0] == lines@[0]@);
    let title = clean(&lines[0]);
    let sc = match parse_title(&title) {
        Ok(sc) => sc,
        Err(e) => {
            return Err(e);
        },
    };
    let u = first_content_exec(&lines, 1);
    if u >= lines.len() {
        return Err(Error::MissingUnits);
    }
    assert(ls[u as int] == lines@[u as int]@);
    let ucl = clean(&lines[u]);
    let ut = trim_chars(&ucl);
    let pat = chars_of("Reference Person Coefficients");
    if !contains_chars(&ut, &pat) {
        return Err(Error::UnexpectedLine { line: u + 1, text: string_from_chars(ut.as_slice()) });
    }
    let units = match extract_units(&ut) {
        Ok(x) => x,
        Err(e) => {
            return Err(e);
        },
    };
    if u + 1 >= lines.len() {
        return Err(Error::MalformedHeader(String::new()));
    }
    assert(ls[u + 1] == lines@[u + 1]@);
    let h = clean(&lines[u + 1]);
    let hw = words_of(&h);
    if !header_matches(&hw) {
        let ht = trim_chars(&h);
        return Err(Error::MalformedHeader(string_from_chars(ht.as_slice())));
    }
    if u + 2 >= lines.len() {
        return Err(Error::MissingSeparator);
    }
    assert(ls[u + 2] == lines@[u + 2]@);
    let scl = clean(&lines[u + 2]);
    let sep = trim_chars(&scl);
    if sep.len() < 10 || !all_dash_exec(&sep) {
        return Err(Error::MissingSeparator);
    }
    let (rows, stop) = scan_rows_exec(&lines, u + 3);
    proof {
        reveal_strlit("");
    }
    Ok(TableScan { scenario: sc, units, rows, stop })
}

/// A copy of an error.
pub fn copy_error(e: &Error) -> (r: Error)
    ensures
        r@ == e@,
{
    match e {
        Error::BadTitle(t) => Error::BadTitle(t.clone()),
        Error::UnknownScenario(t) => Error::UnknownScenario(t.clone()),
        Error::MissingUnits => Error::MissingUnits,
        Error::MalformedHeader(h) => Error::MalformedHeader(h.clone()),
        Error::MissingSeparator => Error::MissingSeparator,
        Error::UnexpectedLine { line, text } => Error::UnexpectedLine { line: *line, text: text.clone() },
        Error::MalformedRow { line, text } => Error::MalformedRow { line: *line, text: text.clone() },
        Error::DuplicateRow { line, name } => Error::DuplicateRow { line: *line, name: name.clone() },
        Error::RowCount { scenario, expected, found } => Error::RowCount {
            scenario: *scenario,
            expected: *expected,
            found: *found,
        },
    }
}

/// `k` is the first index of `p` holding `false` (`p.len()` when none).
pub open spec fn is_first_false(p: Seq<bool>, k: int) -> bool {
    &&& 0 <= k <= p.len()
    &&& k < p.len() ==> !p[k]
    &&& forall|j: int| 0 <= j < k ==> p[j]
}

/// Outcome of a member once each scanned row's coefficients have been
/// read (`parsed[i]` says whether all six tokens of row `i` are finite
/// numbers): the first unreadable row, else the error that ended the row
/// region, else a row count that differs from `expected`.
pub open spec fn table_outcome(scan: ScanView, parsed: Seq<bool>, expected: int) -> Result<(), ErrorView> {
    let k = choose|k: int| is_first_false(parsed, k);
    if k < parsed.len() {
        Err(ErrorView::MalformedRow { line: scan.rows[k].line, text: scan.rows[k].text })
    } else {
        match scan.stop {
            Some(e) => Err(e),
            None => if scan.rows.len() != expected {
                Err(ErrorView::RowCount { scenario: scan.scenario, expected, found: scan.rows.len() as int })
            } else {
                Ok(())
            },
        }
    }
}


/// A table whose rows all read and whose row region ended cleanly is
/// refused exactly when its row count differs from the expected count,
/// with its scenario, the expected count and the count found.
pub proof fn lemma_row_count(scan: ScanView, parsed: Seq<bool>, expected: int)
    requires
        parsed.len() == scan.rows.len(),
        forall|i: int| 0 <= i < parsed.len() ==> #[trigger] parsed[i],
        scan.stop is None,
    ensures
        table_outcome(scan, parsed, expected) == (if scan.rows.len() != expected {
            Err(ErrorView::RowCount { scenario: scan.scenario, expected, found: scan.rows.len() as int })
        } else {
            Ok(())
        }),
{
    assert(is_first_false(parsed, parsed.len() as int));
    let k = choose|k: int| is_first_false(parsed, k);
    assert(is_first_false(parsed, k));
    if k < parsed.len() {
        assert(parsed[k]);
    }
}

/// Settle a scanned member: `parsed[i]` says whether row `i`'s six
/// coefficient tokens all read as finite numbers; `expected_rows` is the
/// exact row count the table must hold.
pub fn check_table(scan: &TableScan, parsed: &Vec<bool>, expected_rows: usize) -> (r: Result<(), Error>)
    requires
        parsed.len() == scan.rows.len(),
    ensures
        match (r, table_outcome(scan@, parsed@, expected_rows as int)) {
            (Ok(_), Ok(_)) => true,
            (Err(e), Err(f)) => e@ == f,
            _ => false,
        },
{
    let mut i: usize = 0;
    while i < parsed.len()
        invariant
            i <= parsed.len(),
            parsed.len() == scan.rows.len(),
            forall|j: int| 0 <= j < i ==> parsed@[j],
        decreases parsed.len() - i,
    {
        if !parsed[i] {
            proof {
                assert(is_first_false(parsed@, i as int));
                let k = choose|k: int| is_first_false(parsed@, k);
                if k < i {
                    assert(!parsed@[k]);
                } else if k > i {
                    assert(parsed@[i as int]);
                }
            }
            let row = &scan.rows[i];
            assert(scan@.rows[i as int] == row@);
            return Err(Error::MalformedRow { line: row.line, text: row.text.clone() });
        }
        i = i + 1;
    }
    proof {
        assert(is_first_false(parsed@, i as int));
        let k = choose|k: int| is_first_false(parsed@, k);
        if k < i {
            assert(!parsed@[k]);
        }
    }
    match &scan.stop {
        Some(e) => Err(copy_error(e)),
        None => {
            if scan.rows.len() != expected_rows {
                Err(Error::RowCount { scenario: scan.scenario, expected: expected_rows, found: scan.rows.len() })
            } else {
                Ok(())
            }
        },
    }
}

} // verus!
