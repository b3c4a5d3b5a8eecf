//! The cell-parameter and data-card passes of a geometry conversion: which
//! cell parameters and data cards are carried later (universes, fills,
//! rectangular lattices, materials), which are dropped with a drift note,
//! and which refuse the deck.

use vstd::prelude::*;
use crate::ascii::{lower_seq, to_lower_vec};
use crate::drift::{DriftEntry, DriftScope, DriftTable};
use crate::fgr15::{first_at, first_index};
use crate::region::adds_cell_notes;
use crate::text::{dec, trim_ws, chars_of, sub_chars, trim_chars, chars_are, append_str, append_chars, append_dec, string_from_chars};
use crate::universe::{cell_note, note_view, NoteView};
use crate::xlate::{Error, ErrorView};

verus! {

/// `s` with its leading `*` markers removed.
pub open spec fn strip_stars(s: Seq<char>) -> Seq<char>
    decreases s.len(),
{
    if s.len() > 0 && s[0] == '*' {
        strip_stars(s.drop_first())
    } else {
        s
    }
}

/// The parameter name of a `key=value` key: markers stripped, any `:`
/// particle designator cut, lower-cased.
pub open spec fn param_base(key: Seq<char>) -> Seq<char> {
    let t = strip_stars(key);
    lower_seq(t.take(first_at(t, ':')))
}

/// What the pass does with one cell parameter.
pub enum ParamStep {
    /// Carried by a later pass.
    Keep,
    /// Dropped, with this drift reason.
    Drop(Seq<char>),
    /// The deck is refused.
    Refuse(ErrorView),
}

/// The step for parameter `p` of cell `cell`.
pub open spec fn param_step(cell: u32, p: Seq<char>) -> ParamStep {
    let k = first_at(p, '=');
    if k >= p.len() {
        ParamStep::Drop("bare cell parameter `"@ + p + "` not represented in OpenMC geometry"@)
    } else {
        let base = param_base(p.take(k));
        if base == "u"@ || base == "fill"@ {
            ParamStep::Keep
        } else if base == "lat"@ {
            if trim_ws(p.skip(k + 1)) == "1"@ {
                ParamStep::Keep
            } else {
                ParamStep::Refuse(ErrorView::UniverseOutOfScope(
                    "cell "@ + dec(cell as nat) + " parameter `"@ + p + "` needs lattice translation (rectangular LAT=1 only)"@,
                ))
            }
        } else if base == "trcl"@ {
            ParamStep::Refuse(ErrorView::TransformOutOfScope(
                "cell "@ + dec(cell as nat) + " parameter `"@ + p + "` needs transform translation"@,
            ))
        } else {
            ParamStep::Drop("cell parameter `"@ + p + "` not represented in OpenMC geometry"@)
        }
    }
}

/// The pass over parameters `ps[i..]` of cell `cell`: the outcome and the
/// drift notes it adds (up to the refusing parameter).
pub open spec fn params_step(cell: u32, ps: Seq<Seq<char>>, i: int) -> (Result<(), ErrorView>, Seq<NoteView>)
    decreases ps.len() - i,
{
    if i < 0 || i >= ps.len() {
        (Ok(()), Seq::empty())
    } else {
        match param_step(cell, ps[i]) {
            ParamStep::Keep => params_step(cell, ps, i + 1),
            ParamStep::Drop(reason) => {
                let (r, rest) = params_step(cell, ps, i + 1);
                (r, seq![NoteView { target: cell, action: "dropped-cell-param"@, reason }] + rest)
            },
            ParamStep::Refuse(e) => (Err(e), Seq::empty()),
        }
    }
}

/// Decide one parameter.
fn decide_param(cell: u32, param: &String) -> (r: Result<Option<Vec<char>>, Error>)
    ensures
        match (r, param_step(cell, param@)) {
            (Ok(None), ParamStep::Keep) => true,
            (Ok(Some(reason)), ParamStep::Drop(d)) => reason@ == d,
            (Err(e), ParamStep::Refuse(v)) => e@ == v,
            _ => false,
        },
{
    let p = chars_of(param.as_str());
    let k = first_index(&p, '=');
    if k >= p.len() {
        let mut reason: Vec<char> = Vec::new();
        append_str(&mut reason, "bare cell parameter `");
        append_chars(&mut reason, &p);
        append_str(&mut reason, "` not represented in OpenMC geometry");
        assert(reason@ =~= "bare cell parameter `"@ + p@ + "` not represented in OpenMC geometry"@);
        return Ok(Some(reason));
    }
    let mut a: usize = 0;
    while a < k && p[a] == '*'
        invariant
            a <= k <= p.len(),
            strip_stars(p@.take(k as int)) == strip_stars(p@.subrange(a as int, k as int)),
        decreases k - a,
    {
        assert(p@.subrange(a as int, k as int).drop_first() =~= p@.subrange(a + 1, k as int));
        a = a + 1;
    }
    assert(p@.take(k as int) =~= p@.subrange(0, k as int));
    let ghost t = p@.subrange(a as int, k as int);
    assert(strip_stars(t) == t);
    let stripped = sub_chars(&p, a, k);
    let c = first_index(&stripped, ':');
    let head = sub_chars(&stripped, 0, c);
    let base = to_lower_vec(&head);
    assert(head@ =~= t.take(first_at(t, ':')));
    assert(base@ == param_base(p@.take(k as int)));
    if chars_are(&base, "u") || chars_are(&base, "fill") {
        return Ok(None);
    }
    if chars_are(&base, "lat") {
        let value = sub_chars(&p, k + 1, p.len());
        let v = trim_chars(&value);
        assert(value@ =~= p@.skip(k + 1));
        if chars_are(&v, "1") {
            return Ok(None);
        }
        let mut d: Vec<char> = Vec::new();
        append_str(&mut d, "cell ");
        append_dec(&mut d, cell as u64);
        append_str(&mut d, " parameter `");
        append_chars(&mut d, &p);
        append_str(&mut d, "` needs lattice translation (rectangular LAT=1 only)");
        assert(d@ =~= "cell "@ + dec(cell as nat) + " parameter `"@ + p@ + "` needs lattice translation (rectangular LAT=1 only)"@);
        return Err(Error::UniverseOutOfScope { detail: string_from_chars(d.as_slice()) });
    }
    if chars_are(&base, "trcl") {
        let mut d: Vec<char> = Vec::new();
        append_str(&mut d, "cell ");
        append_dec(&mut d, cell as u64);
        append_str(&mut d, " parameter `");
        append_chars(&mut d, &p);
        append_str(&mut d, "` needs transform translation");
        assert(d@ =~= "cell "@ + dec(cell as nat) + " parameter `"@ + p@ + "` needs transform translation"@);
        return Err(Error::TransformOutOfScope { detail: string_from_chars(d.as_slice()) });
    }
    let mut reason: Vec<char> = Vec::new();
    append_str(&mut reason, "cell parameter `");
    append_chars(&mut reason, &p);
    append_str(&mut reason, "` not represented in OpenMC geometry");
    assert(reason@ =~= "cell parameter `"@ + p@ + "` not represented in OpenMC geometry"@);
    Ok(Some(reason))
}

/// Check the parameters of cell `cell`: `U=`, `FILL=` and `LAT=1` are
/// carried by the universe pass, `LAT=` of another type and `TRCL=` refuse
/// the deck, and every other parameter is dropped with a drift note.
pub fn check_cell_params(drift: &mut DriftTable, cell: u32, params: &Vec<String>) -> (r: Result<(), Error>)
    ensures
        adds_cell_notes(old(drift).entries@, final(drift).entries@),
        ({
            let (res, notes) = params_step(cell, params@.map_values(|p: String| p@), 0);
            &&& match (r, res) {
                (Ok(()), Ok(())) => true,
                (Err(e), Err(v)) => e@ == v,
                _ => false,
            }
            &&& final(drift).entries@.skip(old(drift).entries@.len() as int).map_values(|e: DriftEntry| note_view(e)) == notes
        }),
{
    let ghost ps = params@.map_values(|p: String| p@);
    let ghost n0 = drift.entries@.len();
    let ghost mut added: Seq<NoteView> = Seq::empty();
    assert(drift.entries@.take(n0 as int) =~= drift.entries@);
    assert(drift.entries@.skip(n0 as int) =~= Seq::<DriftEntry>::empty());
    let mut i: usize = 0;
    while i < params.len()
        invariant
            i <= params.len(),
            ps == params@.map_values(|p: String| p@),
            n0 == old(drift).entries@.len(),
            adds_cell_notes(old(drift).entries@, drift.entries@),
            drift.entries@.skip(n0 as int).map_values(|e: DriftEntry| note_view(e)) == added,
            params_step(cell, ps, 0) == ({
                let (r, rest) = params_step(cell, ps, i as int);
                (r, added + rest)
            }),
        decreases params.len() - i,
    {
        assert(ps[i as int] == params@[i as int]@);
        match decide_param(cell, &params[i]) {
            Err(e) => {
                assert(added + Seq::<NoteView>::empty() =~= added);
                return Err(e);
            },
            Ok(None) => {},
            Ok(Some(reason)) => {
                let ghost before = drift.entries@;
                let e = cell_note(cell, "dropped-cell-param", reason);
                drift.entries.push(e);
                proof {
                    let nv = NoteView { target: cell, action: "dropped-cell-param"@, reason: reason@ };
                    let (r2, rest) = params_step(cell, ps, i + 1);
                    assert(added + (seq![nv] + rest) =~= added.push(nv) + rest);
                    assert(drift.entries@.skip(n0 as int) =~= before.skip(n0 as int).push(e));
                    added = added.push(nv);
                    assert(drift.entries@.take(n0 as int) =~= before.take(n0 as int));
                }
            },
        }
        i = i + 1;
    }
    assert(added + Seq::<NoteView>::empty() =~= added);
    Ok(())
}

/// A data card's name and its parts: the alphabetic prefix (upper case),
/// the card number, and the `:` classifier that follows.
#[derive(Debug, Clone, PartialEq, Eq)]
pub struct DataCard {
    pub name: String,
    pub prefix: String,
    pub number: Option<u32>,
    pub classifier: String,
}

/// Prefixes of numbered tally cards.
pub open spec fn is_tally_prefix(p: Seq<char>) -> bool {
    p == "F"@ || p == "FM"@ || p == "FC"@ || p == "E"@ || p == "DE"@ || p == "DF"@ || p == "FT"@ || p == "FU"@
        || p == "FQ"@
}

/// Prefixes of source and mesh cards.
pub open spec fn is_source_prefix(p: Seq<char>) -> bool {
    p == "SDEF"@ || p == "KCODE"@ || p == "KSRC"@ || p == "SSR"@ || p == "SSW"@ || p == "FMESH"@
}

/// What the pass does with one data card.
pub enum DataStep {
    Skip,
    /// Noted (action, reason) and kept going.
    Note(Seq<char>, Seq<char>),
    Refuse(ErrorView),
}

/// The step for one data card.
pub open spec fn data_step(c: DataCard) -> DataStep {
    let name = c.name@;
    let prefix = c.prefix@;
    if name.len() == 0 {
        DataStep::Skip
    } else if prefix == "M"@ && c.number is Some {
        DataStep::Skip
    } else if prefix == "TR"@ && c.number is Some {
        DataStep::Refuse(ErrorView::TransformOutOfScope(name + " card needs transform translation"@))
    } else if (is_tally_prefix(prefix) && c.number is Some) || is_source_prefix(prefix) {
        DataStep::Refuse(ErrorView::TallySourceOutOfScope(name + " card needs tally/source translation"@))
    } else if (prefix == "U"@ || prefix == "FILL"@) && c.classifier@.len() == 0 {
        DataStep::Note("universe-data-card"@, name + " card honored as universe assignment"@)
    } else if prefix == "LAT"@ && c.classifier@.len() == 0 {
        DataStep::Refuse(ErrorView::UniverseOutOfScope(name + " card needs lattice translation"@))
    } else if lower_seq(name) == "read"@ {
        DataStep::Refuse(ErrorView::UniverseOutOfScope("read includes are never followed, so the deck is incomplete"@))
    } else {
        DataStep::Note("dropped-data-card"@, name + " card not represented in OpenMC geometry"@)
    }
}

/// The pass over data cards `cs[i..]`: the outcome and the deck-scoped
/// drift notes it adds (up to the refusing card).
pub open spec fn data_cards_step(cs: Seq<DataCard>, i: int) -> (Result<(), ErrorView>, Seq<NoteView>)
    decreases cs.len() - i,
{
    if i < 0 || i >= cs.len() {
        (Ok(()), Seq::empty())
    } else {
        match data_step(cs[i]) {
            DataStep::Skip => data_cards_step(cs, i + 1),
            DataStep::Note(action, reason) => {
                let (r, rest) = data_cards_step(cs, i + 1);
                (r, seq![NoteView { target: 0, action, reason }] + rest)
            },
            DataStep::Refuse(e) => (Err(e), Seq::empty()),
        }
    }
}

fn card_text(name: &Vec<char>, tail: &str) -> (r: String)
    ensures
        r@ == name@ + tail@,
{
    let mut d: Vec<char> = Vec::new();
    append_chars(&mut d, name);
    append_str(&mut d, tail);
    assert(d@ =~= name@ + tail@);
    string_from_chars(d.as_slice())
}

fn decide_data_card(c: &DataCard) -> (r: Result<Option<(&'static str, String)>, Error>)
    ensures
        match (r, data_step(*c)) {
            (Ok(None), DataStep::Skip) => true,
            (Ok(Some((a, m))), DataStep::Note(action, reason)) => a@ == action && m@ == reason,
            (Err(e), DataStep::Refuse(v)) => e@ == v,
            _ => false,
        },
{
    let name = chars_of(c.name.as_str());
    let prefix = chars_of(c.prefix.as_str());
    let numbered = c.number.is_some();
    if name.len() == 0 {
        return Ok(None);
    }
    if chars_are(&prefix, "M") && numbered {
        return Ok(None);
    }
    if chars_are(&prefix, "TR") && numbered {
        return Err(Error::TransformOutOfScope { detail: card_text(&name, " card needs transform translation") });
    }
    let tally = chars_are(&prefix, "F") || chars_are(&prefix, "FM") || chars_are(&prefix, "FC") || chars_are(&prefix, "E")
        || chars_are(&prefix, "DE") || chars_are(&prefix, "DF") || chars_are(&prefix, "FT") || chars_are(&prefix, "FU")
        || chars_are(&prefix, "FQ");
    let source = chars_are(&prefix, "SDEF") || chars_are(&prefix, "KCODE") || chars_are(&prefix, "KSRC") || chars_are(&prefix, "SSR")
        || chars_are(&prefix, "SSW") || chars_are(&prefix, "FMESH");
    if (tally && numbered) || source {
        return Err(Error::TallySourceOutOfScope { detail: card_text(&name, " card needs tally/source translation") });
    }
    let unclassified = c.classifier.unicode_len() == 0;
    if (chars_are(&prefix, "U") || chars_are(&prefix, "FILL")) && unclassified {
        return Ok(Some(("universe-data-card", card_text(&name, " card honored as universe assignment"))));
    }
    if chars_are(&prefix, "LAT") && unclassified {
        return Err(Error::UniverseOutOfScope { detail: card_text(&name, " card needs lattice translation") });
    }
    let lower = to_lower_vec(&name);
    if chars_are(&lower, "read") {
        return Err(Error::UniverseOutOfScope {
            detail: "read includes are never followed, so the deck is incomplete".to_string(),
        });
    }
    Ok(Some(("dropped-data-card", card_text(&name, " card not represented in OpenMC geometry"))))
}

/// Check the deck's data cards: material cards are carried, `TRn`, tally
/// and source cards and `LAT` and `read` cards refuse the deck, `U` and
/// `FILL` cards are noted as universe assignments, and every other named
/// card is dropped with a deck-scoped drift note.
pub fn check_data_cards(drift: &mut DriftTable, cards: &Vec<DataCard>) -> (r: Result<(), Error>)
    ensures
        ({
            let (res, notes) = data_cards_step(cards@, 0);
            let n = old(drift).entries@.len();
            &&& match (r, res) {
                (Ok(()), Ok(())) => true,
                (Err(e), Err(v)) => e@ == v,
                _ => false,
            }
            &&& n <= final(drift).entries@.len()
            &&& final(drift).entries@.take(n as int) == old(drift).entries@
            &&& final(drift).entries@.skip(n as int).map_values(|e: DriftEntry| note_view(e)) == notes
            &&& forall|i: int| n <= i < final(drift).entries@.len() ==> (#[trigger] final(drift).entries@[i]).scope == DriftScope::Deck
        }),
{
    let ghost n0 = drift.entries@.len();
    let ghost mut added: Seq<NoteView> = Seq::empty();
    assert(drift.entries@.take(n0 as int) =~= drift.entries@);
    assert(drift.entries@.skip(n0 as int) =~= Seq::<DriftEntry>::empty());
    let mut i: usize = 0;
    while i < cards.len()
        invariant
            i <= cards.len(),
            n0 == old(drift).entries@.len(),
            drift.entries@.len() >= n0,
            drift.entries@.take(n0 as int) == old(drift).entries@,
            forall|t: int| n0 <= t < drift.entries@.len() ==> (#[trigger] drift.entries@[t]).scope == DriftScope::Deck,
            drift.entries@.skip(n0 as int).map_values(|e: DriftEntry| note_view(e)) == added,
            data_cards_step(cards@, 0) == ({
                let (r, rest) = data_cards_step(cards@, i as int);
                (r, added + rest)
            }),
        decreases cards.len() - i,
    {
        match decide_data_card(&cards[i]) {
            Err(e) => {
                assert(added + Seq::<NoteView>::empty() =~= added);
                return Err(e);
            },
            Ok(None) => {},
            Ok(Some((action, reason))) => {
                let ghost before = drift.entries@;
                let a = chars_of(action);
                let e = DriftEntry { scope: DriftScope::Deck, target: 0, action: string_from_chars(a.as_slice()), reason };
                drift.entries.push(e);
                proof {
                    let nv = note_view(e);
                    let (r2, rest) = data_cards_step(cards@, i + 1);
                    assert(added + (seq![nv] + rest) =~= added.push(nv) + rest);
                    assert(drift.entries@.skip(n0 as int) =~= before.skip(n0 as int).push(e));
                    added = added.push(nv);
                    assert(drift.entries@.take(n0 as int) =~= before.take(n0 as int));
                }
            },
        }
        i = i + 1;
    }
    assert(added + Seq::<NoteView>::empty() =~= added);
    Ok(())
}

} // verus!
