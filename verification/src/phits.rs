//! The plan of a PHITS geometry for an MCNP CSG deck: the shared passes,
//! the surface cards PHITS cannot carry, the surfaces written reflective,
//! and each cell's material, universe, fill and region in the deck
//! spelling PHITS shares (`#n` passes through, `*` markers become
//! reflective surfaces).

use vstd::prelude::*;
use crate::boundary::{phits_card_error, reflecting_cards, reflecting_cells, phits_reflective};
use crate::drift::{DriftEntry, DriftScope, DriftTable};
use crate::expand::DeckSurface;
use crate::openmc::{
    DeckCell, OpenmcDeck, front_outcome, plan_front, refusal_views, lattice_id, tagged, tag, lattice_of, cell_geometries,
    cell_nums,
};
use crate::region::{GeomExpr, geom_view, deck_text};
use crate::serpent::{blank, is_blank, cell_trees};
use crate::surface::{Coef, phits_map, phits_refusal, map_phits_surface};
use crate::text::{dec, chars_of, append_str, append_dec, string_from_chars};
use crate::universe::{UniversePlan, NoteView, note_view, get, get_entry, numbers_fit};
use crate::xlate::{Error, ErrorView};

verus! {

/// The material field of a PHITS cell.
#[derive(Debug, Clone, Copy, PartialEq, Eq, Structural)]
pub enum PhitsMaterial {
    Material(u32),
    Void,
    /// The outer void (`-1`), where PHITS kills particles.
    OuterVoid,
}

/// One planned PHITS cell.
#[derive(Debug, Clone, PartialEq, Eq)]
pub struct PhitsCell {
    pub id: u32,
    pub material: PhitsMaterial,
    /// Containing universe (`0` when the cell has none).
    pub universe: u32,
    /// Filling universe of a single-universe fill.
    pub fill: Option<u32>,
    /// Lattice id of a lattice-filled cell.
    pub lattice: Option<u32>,
    /// Region text, without reflecting markers.
    pub region: String,
}

pub struct PhitsCellView {
    pub id: u32,
    pub material: PhitsMaterial,
    pub universe: u32,
    pub fill: Option<u32>,
    pub lattice: Option<u32>,
    pub region: Seq<char>,
}

/// One PHITS surface card: number, symbol, parameter sources, and whether
/// it is written reflective.
#[derive(Debug, Clone, PartialEq, Eq)]
pub struct PhitsSurface {
    pub num: u32,
    pub symbol: &'static str,
    pub coeffs: Vec<Coef>,
    pub reflective: bool,
}

/// The plan of a PHITS geometry.
#[derive(Debug)]
pub struct PhitsPlan {
    /// Surface cards in deck order.
    pub surfaces: Vec<PhitsSurface>,
    /// Cells in deck order.
    pub cells: Vec<PhitsCell>,
    /// Universes, fills and lattices (every lattice planned).
    pub universes: UniversePlan,
    pub drift: DriftTable,
}

pub struct PhitsView {
    pub surfaces: Seq<(u32, Seq<char>, Seq<Coef>, bool)>,
    pub cells: Seq<PhitsCellView>,
    pub universes: crate::universe::PlanView,
    pub drift: Seq<(DriftScope, NoteView)>,
}

/// The PHITS cards of the surfaces `cs[i..]` (reflective when their number
/// is in `refl`), or the first refusal.
pub open spec fn phits_surfaces(cs: Seq<DeckSurface>, refl: Seq<u32>, i: int) -> Result<Seq<(u32, Seq<char>, Seq<Coef>, bool)>, ErrorView>
    decreases cs.len() - i,
{
    if i < 0 || i >= cs.len() {
        Ok(Seq::empty())
    } else {
        match phits_map(cs[i].card.kind) {
            None => Err(phits_refusal(cs[i].card.num, cs[i].card.kind, cs[i].card.keyword@)),
            Some((t, co)) => match phits_surfaces(cs, refl, i + 1) {
                Err(e) => Err(e),
                Ok(rest) => Ok(seq![(cs[i].card.num, t, co, refl.contains(cs[i].card.num))] + rest),
            },
        }
    }
}

/// The refusal of the first cell, from `i` on, whose region spells empty
/// (PHITS has no `inf` surface).
pub open spec fn first_empty(cs: Seq<DeckCell>, i: int) -> Option<ErrorView>
    decreases cs.len() - i,
{
    if i < 0 || i >= cs.len() {
        None
    } else if blank(deck_text(geom_view(cs[i].geom), false)) {
        Some(ErrorView::UniverseOutOfScope("cell "@ + dec(cs[i].num as nat) + " has an empty region (no phits inf spelling)"@))
    } else {
        first_empty(cs, i + 1)
    }
}

/// The cell is filled by a universe or a lattice.
pub open spec fn is_filled(c: DeckCell, up: crate::universe::PlanView) -> bool {
    get(up.fills, c.num) is Some || lattice_id(up.lattices, c.num) is Some
}

/// A void (or filled) cell whose region is a union or holds a complement
/// is written as the outer void.
pub open spec fn is_outer(c: DeckCell, up: crate::universe::PlanView) -> bool {
    let t = deck_text(geom_view(c.geom), false);
    &&& (is_filled(c, up) || c.mat == 0)
    &&& (t.contains(':') || t.contains('#'))
}

/// The `outer-void-assigned` note of a cell.
pub open spec fn outer_note(num: u32) -> NoteView {
    NoteView {
        target: num,
        action: "outer-void-assigned"@,
        reason: "cell "@ + dec(num as nat) + " void union/complement emitted as outer void -1"@,
    }
}

/// The outer-void notes of the cells `cs[..n]`, in cell order.
pub open spec fn outer_notes(cs: Seq<DeckCell>, up: crate::universe::PlanView, n: int) -> Seq<NoteView>
    decreases n,
{
    if n <= 0 || n > cs.len() {
        Seq::empty()
    } else if is_outer(cs[n - 1], up) {
        outer_notes(cs, up, n - 1).push(outer_note(cs[n - 1].num))
    } else {
        outer_notes(cs, up, n - 1)
    }
}

/// A planned cell.
pub open spec fn phits_cell(c: DeckCell, up: crate::universe::PlanView) -> PhitsCellView {
    PhitsCellView {
        id: c.num,
        material: if is_outer(c, up) {
            PhitsMaterial::OuterVoid
        } else if is_filled(c, up) || c.mat == 0 {
            PhitsMaterial::Void
        } else {
            PhitsMaterial::Material(c.mat)
        },
        universe: match get(up.universes, c.num) {
            Some(u) => u,
            None => 0,
        },
        fill: get(up.fills, c.num),
        lattice: lattice_id(up.lattices, c.num),
        region: deck_text(geom_view(c.geom), false),
    }
}

/// The PHITS plan of a deck whose lattice cells `rs` have bounds that
/// cannot be read: the shared passes, the surface cards (transforms and
/// periodic pointers refused), the surface mappings, then the cell regions
/// (an empty one refused), the first refusal winning. The surfaces written
/// reflective are the reflecting cards and the cell-level reflecting
/// literals; the drift adds an outer-void note per such cell.
pub open spec fn phits_outcome(d: OpenmcDeck, rs: Seq<(u32, ErrorView)>) -> Result<PhitsView, ErrorView> {
    match front_outcome(d, rs) {
        Err(e) => Err(e),
        Ok(f) => match phits_card_error(d.surfs@, 0) {
            Some(e) => Err(e),
            None => {
                let cv = cell_trees(d.cells@);
                let refl = reflecting_cards(d.surfs@) + reflecting_cells(cv, cv.len() as int);
                match phits_surfaces(d.surfs@, refl, 0) {
                    Err(e) => Err(e),
                    Ok(ss) => match first_empty(d.cells@, 0) {
                        Some(e) => Err(e),
                        None => Ok(PhitsView {
                            surfaces: ss,
                            cells: Seq::new(d.cells@.len(), |i: int| phits_cell(d.cells@[i], f.universes)),
                            universes: f.universes,
                            drift: f.drift + tag(DriftScope::Cell, outer_notes(d.cells@, f.universes, d.cells@.len() as int)),
                        }),
                    },
                }
            },
        },
    }
}

pub open spec fn phits_cell_view(c: PhitsCell) -> PhitsCellView {
    PhitsCellView { id: c.id, material: c.material, universe: c.universe, fill: c.fill, lattice: c.lattice, region: c.region@ }
}

pub open spec fn phits_surface_view(s: PhitsSurface) -> (u32, Seq<char>, Seq<Coef>, bool) {
    (s.num, s.symbol@, s.coeffs@, s.reflective)
}

/// `p` is the plan `v`.
pub open spec fn phits_plan_is(p: PhitsPlan, v: PhitsView) -> bool {
    &&& p.surfaces@.map_values(|s: PhitsSurface| phits_surface_view(s)) == v.surfaces
    &&& p.cells@.map_values(|c: PhitsCell| phits_cell_view(c)) == v.cells
    &&& p.universes@ == v.universes
    &&& tagged(p.drift.entries@) == v.drift
}

fn holds(v: &Vec<u32>, x: u32) -> (r: bool)
    ensures
        r == v@.contains(x),
{
    let mut i: usize = 0;
    while i < v.len()
        invariant
            i <= v.len(),
            forall|k: int| 0 <= k < i ==> v@[k] != x,
        decreases v.len() - i,
    {
        if v[i] == x {
            assert(v@[i as int] == x);
            return true;
        }
        i = i + 1;
    }
    false
}

fn phits_cards(surfs: &Vec<DeckSurface>, refl: &Vec<u32>) -> (r: Result<Vec<PhitsSurface>, Error>)
    ensures
        match (r, phits_surfaces(surfs@, refl@, 0)) {
            (Ok(v), Ok(w)) => v@.map_values(|s: PhitsSurface| phits_surface_view(s)) == w,
            (Err(e), Err(w)) => e@ == w,
            _ => false,
        },
{
    let mut out: Vec<PhitsSurface> = Vec::new();
    let mut i: usize = 0;
    while i < surfs.len()
        invariant
            i <= surfs.len(),
            phits_surfaces(surfs@, refl@, 0) == match phits_surfaces(surfs@, refl@, i as int) {
                Err(e) => Err(e),
                Ok(rest) => Ok(out@.map_values(|s: PhitsSurface| phits_surface_view(s)) + rest),
            },
        decreases surfs.len() - i,
    {
        match map_phits_surface(&surfs[i].card) {
            Err(e) => {
                return Err(e);
            },
            Ok((t, cs)) => {
                let ghost before = out@.map_values(|s: PhitsSurface| phits_surface_view(s));
                let reflective = holds(refl, surfs[i].card.num);
                let s = PhitsSurface { num: surfs[i].card.num, symbol: t, coeffs: cs, reflective };
                out.push(s);
                proof {
                    assert(out@.map_values(|s: PhitsSurface| phits_surface_view(s)) =~= before.push(phits_surface_view(s)));
                    match phits_surfaces(surfs@, refl@, i + 1) {
                        Err(e) => {},
                        Ok(rest) => {
                            assert(before + (seq![phits_surface_view(s)] + rest) =~= before.push(phits_surface_view(s)) + rest);
                        },
                    }
                }
            },
        }
        i = i + 1;
    }
    assert(out@.map_values(|s: PhitsSurface| phits_surface_view(s)) + Seq::empty() =~= out@.map_values(
        |s: PhitsSurface| phits_surface_view(s),
    ));
    Ok(out)
}

fn has_char(s: &String, x: char) -> (r: bool)
    ensures
        r == s@.contains(x),
{
    let cs = chars_of(s.as_str());
    let mut i: usize = 0;
    while i < cs.len()
        invariant
            i <= cs.len(),
            cs@ == s@,
            forall|k: int| 0 <= k < i ==> cs@[k] != x,
        decreases cs.len() - i,
    {
        if cs[i] == x {
            assert(s@[i as int] == x);
            return true;
        }
        i = i + 1;
    }
    false
}

fn first_empty_exec(cells: &Vec<DeckCell>) -> (r: Result<(), Error>)
    ensures
        match (r, first_empty(cells@, 0)) {
            (Ok(()), None) => true,
            (Err(e), Some(v)) => e@ == v,
            _ => false,
        },
{
    let mut i: usize = 0;
    while i < cells.len()
        invariant
            i <= cells.len(),
            first_empty(cells@, 0) == first_empty(cells@, i as int),
        decreases cells.len() - i,
    {
        let text = cells[i].geom.deck_spelling(false);
        if is_blank(&text) {
            let mut d: Vec<char> = Vec::new();
            append_str(&mut d, "cell ");
            append_dec(&mut d, cells[i].num as u64);
            append_str(&mut d, " has an empty region (no phits inf spelling)");
            let detail = string_from_chars(d.as_slice());
            return Err(Error::UniverseOutOfScope { detail });
        }
        i = i + 1;
    }
    Ok(())
}

fn outer_entry(num: u32) -> (r: DriftEntry)
    ensures
        r.scope == DriftScope::Cell,
        note_view(r) == outer_note(num),
{
    let mut d: Vec<char> = Vec::new();
    append_str(&mut d, "cell ");
    append_dec(&mut d, num as u64);
    append_str(&mut d, " void union/complement emitted as outer void -1");
    DriftEntry {
        scope: DriftScope::Cell,
        target: num,
        action: "outer-void-assigned".to_string(),
        reason: string_from_chars(d.as_slice()),
    }
}

/// The conditions of [`plan_phits`]: cell, universe and fill numbers that
/// leave room for lattice ids.
pub open spec fn phits_fits(d: OpenmcDeck) -> bool {
    numbers_fit(cell_nums(d.cells@), d.universes@, d.fills@)
}

/// Plan the PHITS geometry of a deck (see [`phits_outcome`]); `refusals`
/// are the lattice cells whose bounds cannot be read, with their refusal.
#[verifier::rlimit(50)]
pub fn plan_phits(deck: &OpenmcDeck, refusals: &Vec<(u32, Error)>) -> (r: Result<PhitsPlan, Error>)
    requires
        phits_fits(*deck),
    ensures
        match (r, phits_outcome(*deck, refusal_views(refusals@))) {
            (Ok(p), Ok(v)) => phits_plan_is(p, v),
            (Err(e), Err(v)) => e@ == v,
            _ => false,
        },
{
    let (up, mut drift) = match plan_front(deck, refusals) {
        Err(e) => {
            return Err(e);
        },
        Ok(x) => x,
    };
    let geoms = cell_geometries(&deck.cells);
    assert(geoms@.map_values(|c: (u32, GeomExpr)| (c.0, geom_view(c.1))) == cell_trees(deck.cells@));
    let refl = match phits_reflective(&deck.surfs, &geoms) {
        Err(e) => {
            return Err(e);
        },
        Ok(v) => v,
    };
    let surfaces = match phits_cards(&deck.surfs, &refl) {
        Err(e) => {
            return Err(e);
        },
        Ok(v) => v,
    };
    match first_empty_exec(&deck.cells) {
        Err(e) => {
            return Err(e);
        },
        Ok(()) => {},
    }
    let ghost upv = up@;
    let ghost t0 = tagged(drift.entries@);
    let mut cells: Vec<PhitsCell> = Vec::new();
    let mut c: usize = 0;
    assert(t0 + tag(DriftScope::Cell, outer_notes(deck.cells@, upv, 0)) =~= t0);
    while c < deck.cells.len()
        invariant
            c <= deck.cells.len(),
            upv == up@,
            cells@.map_values(|x: PhitsCell| phits_cell_view(x)) == Seq::new(c as nat, |t: int| phits_cell(deck.cells@[t], upv)),
            tagged(drift.entries@) == t0 + tag(DriftScope::Cell, outer_notes(deck.cells@, upv, c as int)),
        decreases deck.cells.len() - c,
    {
        let cell = &deck.cells[c];
        let region = cell.geom.deck_spelling(false);
        let fill = get_entry(&up.fills, cell.num);
        let lattice = lattice_of(&up, cell.num);
        let filled = fill.is_some() || lattice.is_some();
        let void = filled || cell.mat == 0;
        let outer = void && (has_char(&region, ':') || has_char(&region, '#'));
        let material = if outer {
            PhitsMaterial::OuterVoid
        } else if void {
            PhitsMaterial::Void
        } else {
            PhitsMaterial::Material(cell.mat)
        };
        let universe = match get_entry(&up.universes, cell.num) {
            Some(u) => u,
            None => 0,
        };
        let ghost before_notes = drift.entries@;
        if outer {
            let e = outer_entry(cell.num);
            drift.entries.push(e);
            proof {
                assert(tagged(drift.entries@) =~= tagged(before_notes).push((DriftScope::Cell, outer_note(cell.num))));
                assert(tag(DriftScope::Cell, outer_notes(deck.cells@, upv, c as int)).push((DriftScope::Cell, outer_note(cell.num)))
                    =~= tag(DriftScope::Cell, outer_notes(deck.cells@, upv, c + 1)));
                assert(t0 + tag(DriftScope::Cell, outer_notes(deck.cells@, upv, c + 1))
                    =~= (t0 + tag(DriftScope::Cell, outer_notes(deck.cells@, upv, c as int))).push(
                    (DriftScope::Cell, outer_note(cell.num)),
                ));
            }
        }
        let x = PhitsCell { id: cell.num, material, universe, fill, lattice, region };
        let ghost before = cells@.map_values(|x: PhitsCell| phits_cell_view(x));
        cells.push(x);
        proof {
            assert(phits_cell_view(x) == phits_cell(deck.cells@[c as int], upv));
            assert(cells@.map_values(|x: PhitsCell| phits_cell_view(x)) =~= before.push(phits_cell_view(x)));
            assert(cells@.map_values(|x: PhitsCell| phits_cell_view(x)) =~= Seq::new(
                (c + 1) as nat,
                |t: int| phits_cell(deck.cells@[t], upv),
            ));
        }
        c = c + 1;
    }
    Ok(PhitsPlan { surfaces, cells, universes: up, drift })
}

} // verus!
