//! The plan of a Serpent geometry for an MCNP CSG deck: the shared passes,
//! the boundary markers Serpent cannot carry, the surface cards, and each
//! cell's universe, content and region in the deck spelling Serpent shares
//! (`#n` passes through, an empty region names a synthesized `inf`
//! surface).

use vstd::prelude::*;
use crate::boundary::{serpent_boundary_error, reject_serpent_boundaries};
use crate::drift::{DriftScope, DriftTable};
use crate::expand::{DeckSurface, card_nums, lemma_seq_max_bound};
use crate::openmc::{
    CellContent, DeckCell, OpenmcDeck, front_outcome, plan_front, refusal_views, flags_of, lattice_id, tagged, lattice_of,
    surface_flags, cell_geometries,
};
use crate::region::{GeomExpr, geom_view, deck_text};
use crate::surface::{Coef, serpent_map, serpent_refusal, map_serpent_surface};
use crate::text::{dec, is_ws, ws_char, chars_of, append_str, append_dec, string_from_chars};
use crate::universe::{UniversePlan, NoteView, get, get_entry, numbers_fit, seq_max};
use crate::openmc::cell_nums;
use crate::xlate::{Error, ErrorView};

verus! {

/// One planned Serpent cell.
#[derive(Debug, Clone, PartialEq, Eq)]
pub struct SerpentCell {
    pub id: u32,
    /// Containing universe (`0` when the cell has none).
    pub universe: u32,
    pub content: CellContent,
    /// Region text.
    pub region: String,
    /// The region is empty in the deck and names the `inf` surface.
    pub inf: bool,
}

pub struct SerpentCellView {
    pub id: u32,
    pub universe: u32,
    pub content: CellContent,
    pub region: Seq<char>,
    pub inf: bool,
}

/// One Serpent surface card: number, type and parameter sources.
#[derive(Debug, Clone, PartialEq, Eq)]
pub struct SerpentSurface {
    pub num: u32,
    pub stype: &'static str,
    pub coeffs: Vec<Coef>,
}

/// The plan of a Serpent geometry.
#[derive(Debug)]
pub struct SerpentPlan {
    /// Surface cards in deck order.
    pub surfaces: Vec<SerpentSurface>,
    /// The id of the synthesized `inf` surface, when some cell's region is
    /// empty.
    pub inf_surface: Option<u32>,
    /// Cells in deck order.
    pub cells: Vec<SerpentCell>,
    /// Universes, fills and lattices (every lattice planned).
    pub universes: UniversePlan,
    pub drift: DriftTable,
}

pub struct SerpentView {
    pub surfaces: Seq<(u32, Seq<char>, Seq<Coef>)>,
    pub inf_surface: Option<u32>,
    pub cells: Seq<SerpentCellView>,
    pub universes: crate::universe::PlanView,
    pub drift: Seq<(DriftScope, NoteView)>,
}

/// The text holds white space only.
pub open spec fn blank(s: Seq<char>) -> bool {
    forall|i: int| 0 <= i < s.len() ==> is_ws(#[trigger] s[i])
}

/// The deck's cells with their regions as trees.
pub open spec fn cell_trees(cs: Seq<DeckCell>) -> Seq<(u32, crate::region::GeomView)> {
    cs.map_values(|c: DeckCell| (c.num, geom_view(c.geom)))
}

/// The refusal of the first surface card, from `i` on, that links a
/// transform.
pub open spec fn transform_error(cs: Seq<DeckSurface>, i: int) -> Option<ErrorView>
    decreases cs.len() - i,
{
    if i < 0 || i >= cs.len() {
        None
    } else {
        match cs[i].transform {
            Some(tr) => Some(ErrorView::TransformOutOfScope(
                "surface "@ + dec(cs[i].card.num as nat) + " links transform "@ + dec(tr as nat),
            )),
            None => transform_error(cs, i + 1),
        }
    }
}

/// The Serpent cards of the surfaces `cs[i..]`, or the first refusal.
pub open spec fn serpent_surfaces(cs: Seq<DeckSurface>, i: int) -> Result<Seq<(u32, Seq<char>, Seq<Coef>)>, ErrorView>
    decreases cs.len() - i,
{
    if i < 0 || i >= cs.len() {
        Ok(Seq::empty())
    } else {
        match serpent_map(cs[i].card.kind, cs[i].rcc_nonzero@) {
            None => Err(serpent_refusal(cs[i].card.num, cs[i].card.kind, cs[i].card.keyword@)),
            Some((t, co)) => match serpent_surfaces(cs, i + 1) {
                Err(e) => Err(e),
                Ok(rest) => Ok(seq![(cs[i].card.num, t, co)] + rest),
            },
        }
    }
}

/// What a cell holds: its single fill, else its lattice, else its
/// material (`0` for void).
pub open spec fn cell_content(c: DeckCell, up: crate::universe::PlanView) -> CellContent {
    match get(up.fills, c.num) {
        Some(f) => CellContent::Fill(f),
        None => match lattice_id(up.lattices, c.num) {
            Some(l) => CellContent::Fill(l),
            None => if c.mat == 0 {
                CellContent::Void
            } else {
                CellContent::Material(c.mat)
            },
        },
    }
}

/// Some cell's region spells empty.
pub open spec fn some_blank(cs: Seq<DeckCell>) -> bool {
    exists|i: int| 0 <= i < cs.len() && blank(deck_text(geom_view(#[trigger] cs[i].geom), true))
}

/// A planned cell: an empty region becomes the inside of the `inf`
/// surface `inf`.
pub open spec fn serpent_cell(c: DeckCell, up: crate::universe::PlanView, inf: u32) -> SerpentCellView {
    let t = deck_text(geom_view(c.geom), true);
    SerpentCellView {
        id: c.num,
        universe: match get(up.universes, c.num) {
            Some(u) => u,
            None => 0,
        },
        content: cell_content(c, up),
        region: if blank(t) { seq!['-'] + dec(inf as nat) } else { t },
        inf: blank(t),
    }
}

/// The Serpent plan of a deck whose lattice cells `rs` have bounds that
/// cannot be read: the shared passes, then the boundary markers, the
/// transforms and the surface cards, the first refusal winning; the `inf`
/// surface takes the id after the largest surface number.
pub open spec fn serpent_outcome(d: OpenmcDeck, rs: Seq<(u32, ErrorView)>) -> Result<SerpentView, ErrorView> {
    match front_outcome(d, rs) {
        Err(e) => Err(e),
        Ok(f) => match serpent_boundary_error(flags_of(d.surfs@), cell_trees(d.cells@)) {
            Some(e) => Err(e),
            None => match transform_error(d.surfs@, 0) {
                Some(e) => Err(e),
                None => match serpent_surfaces(d.surfs@, 0) {
                    Err(e) => Err(e),
                    Ok(ss) => {
                        let inf = (seq_max(card_nums(d.surfs@)) + 1) as u32;
                        Ok(SerpentView {
                            surfaces: ss,
                            inf_surface: if some_blank(d.cells@) { Some(inf) } else { None },
                            cells: Seq::new(d.cells@.len(), |i: int| serpent_cell(d.cells@[i], f.universes, inf)),
                            universes: f.universes,
                            drift: f.drift,
                        })
                    },
                },
            },
        },
    }
}

pub open spec fn serpent_cell_view(c: SerpentCell) -> SerpentCellView {
    SerpentCellView { id: c.id, universe: c.universe, content: c.content, region: c.region@, inf: c.inf }
}

pub open spec fn serpent_surface_view(s: SerpentSurface) -> (u32, Seq<char>, Seq<Coef>) {
    (s.num, s.stype@, s.coeffs@)
}

/// `p` is the plan `v`.
pub open spec fn serpent_plan_is(p: SerpentPlan, v: SerpentView) -> bool {
    &&& p.surfaces@.map_values(|s: SerpentSurface| serpent_surface_view(s)) == v.surfaces
    &&& p.inf_surface == v.inf_surface
    &&& p.cells@.map_values(|c: SerpentCell| serpent_cell_view(c)) == v.cells
    &&& p.universes@ == v.universes
    &&& tagged(p.drift.entries@) == v.drift
}

/// The conditions of [`plan_serpent`]: cell, universe and fill numbers
/// that leave room for lattice ids, and surface numbers below the largest
/// `u32`.
pub open spec fn serpent_fits(d: OpenmcDeck) -> bool {
    &&& numbers_fit(cell_nums(d.cells@), d.universes@, d.fills@)
    &&& forall|i: int| 0 <= i < d.surfs@.len() ==> #[trigger] d.surfs@[i].card.num < u32::MAX
}


/// Whether a deck meets [`serpent_fits`], the conditions of
/// [`plan_serpent`].
pub fn check_serpent_fits(deck: &OpenmcDeck) -> (r: bool)
    ensures
        r == serpent_fits(*deck),
{
    if !crate::openmc::check_numbers_fit(deck) {
        return false;
    }
    let mut i: usize = 0;
    while i < deck.surfs.len()
        invariant
            i <= deck.surfs.len(),
            forall|t: int| 0 <= t < i ==> #[trigger] deck.surfs@[t].card.num < u32::MAX,
        decreases deck.surfs.len() - i,
    {
        if deck.surfs[i].card.num == u32::MAX {
            assert(!(deck.surfs@[i as int].card.num < u32::MAX));
            return false;
        }
        i = i + 1;
    }
    true
}

fn check_transforms(surfs: &Vec<DeckSurface>) -> (r: Result<(), Error>)
    ensures
        match (r, transform_error(surfs@, 0)) {
            (Ok(()), None) => true,
            (Err(e), Some(v)) => e@ == v,
            _ => false,
        },
{
    let mut i: usize = 0;
    while i < surfs.len()
        invariant
            i <= surfs.len(),
            transform_error(surfs@, 0) == transform_error(surfs@, i as int),
        decreases surfs.len() - i,
    {
        if let Some(tr) = surfs[i].transform {
            let mut d: Vec<char> = Vec::new();
            append_str(&mut d, "surface ");
            append_dec(&mut d, surfs[i].card.num as u64);
            append_str(&mut d, " links transform ");
            append_dec(&mut d, tr as u64);
            let detail = string_from_chars(d.as_slice());
            return Err(Error::TransformOutOfScope { detail });
        }
        i = i + 1;
    }
    Ok(())
}

fn serpent_cards(surfs: &Vec<DeckSurface>) -> (r: Result<Vec<SerpentSurface>, Error>)
    ensures
        match (r, serpent_surfaces(surfs@, 0)) {
            (Ok(v), Ok(w)) => v@.map_values(|s: SerpentSurface| serpent_surface_view(s)) == w,
            (Err(e), Err(w)) => e@ == w,
            _ => false,
        },
{
    let mut out: Vec<SerpentSurface> = Vec::new();
    let mut i: usize = 0;
    while i < surfs.len()
        invariant
            i <= surfs.len(),
            serpent_surfaces(surfs@, 0) == match serpent_surfaces(surfs@, i as int) {
                Err(e) => Err(e),
                Ok(rest) => Ok(out@.map_values(|s: SerpentSurface| serpent_surface_view(s)) + rest),
            },
        decreases surfs.len() - i,
    {
        match map_serpent_surface(&surfs[i].card, surfs[i].rcc_nonzero) {
            Err(e) => {
                return Err(e);
            },
            Ok((t, cs)) => {
                let ghost before = out@.map_values(|s: SerpentSurface| serpent_surface_view(s));
                let s = SerpentSurface { num: surfs[i].card.num, stype: t, coeffs: cs };
                out.push(s);
                proof {
                    assert(out@.map_values(|s: SerpentSurface| serpent_surface_view(s)) =~= before.push(serpent_surface_view(s)));
                    match serpent_surfaces(surfs@, i + 1) {
                        Err(e) => {},
                        Ok(rest) => {
                            assert(before + (seq![serpent_surface_view(s)] + rest) =~= before.push(serpent_surface_view(s)) + rest);
                        },
                    }
                }
            },
        }
        i = i + 1;
    }
    assert(out@.map_values(|s: SerpentSurface| serpent_surface_view(s)) + Seq::empty() =~= out@.map_values(
        |s: SerpentSurface| serpent_surface_view(s),
    ));
    Ok(out)
}

/// Whether a text holds white space only.
pub fn is_blank(s: &String) -> (r: bool)
    ensures
        r == blank(s@),
{
    let cs = chars_of(s.as_str());
    let mut i: usize = 0;
    while i < cs.len()
        invariant
            i <= cs.len(),
            cs@ == s@,
            forall|k: int| 0 <= k < i ==> is_ws(#[trigger] cs@[k]),
        decreases cs.len() - i,
    {
        let ws = ws_char(cs[i]);
        if !ws {
            assert(!is_ws(s@[i as int]));
            return false;
        }
        i = i + 1;
    }
    true
}

/// The content of a cell from the universe plan.
fn content_of(c: &DeckCell, up: &UniversePlan) -> (r: CellContent)
    ensures
        r == cell_content(*c, up@),
{
    match get_entry(&up.fills, c.num) {
        Some(f) => CellContent::Fill(f),
        None => match lattice_of(up, c.num) {
            Some(l) => CellContent::Fill(l),
            None => if c.mat == 0 {
                CellContent::Void
            } else {
                CellContent::Material(c.mat)
            },
        },
    }
}

/// Plan the Serpent geometry of a deck (see [`serpent_outcome`]);
/// `refusals` are the lattice cells whose bounds cannot be read, with their
/// refusal.
#[verifier::rlimit(50)]
pub fn plan_serpent(deck: &OpenmcDeck, refusals: &Vec<(u32, Error)>) -> (r: Result<SerpentPlan, Error>)
    requires
        serpent_fits(*deck),
    ensures
        match (r, serpent_outcome(*deck, refusal_views(refusals@))) {
            (Ok(p), Ok(v)) => serpent_plan_is(p, v),
            (Err(e), Err(v)) => e@ == v,
            _ => false,
        },
{
    let (up, drift) = match plan_front(deck, refusals) {
        Err(e) => {
            return Err(e);
        },
        Ok(x) => x,
    };
    let flags = surface_flags(&deck.surfs);
    let geoms = cell_geometries(&deck.cells);
    assert(geoms@.map_values(|c: (u32, GeomExpr)| (c.0, geom_view(c.1))) == cell_trees(deck.cells@));
    match reject_serpent_boundaries(&flags, &geoms) {
        Err(e) => {
            return Err(e);
        },
        Ok(()) => {},
    }
    match check_transforms(&deck.surfs) {
        Err(e) => {
            return Err(e);
        },
        Ok(()) => {},
    }
    let surfaces = match serpent_cards(&deck.surfs) {
        Err(e) => {
            return Err(e);
        },
        Ok(v) => v,
    };
    let ghost nums = card_nums(deck.surfs@);
    let mut top: u32 = 0;
    let mut k: usize = 0;
    while k < deck.surfs.len()
        invariant
            k <= deck.surfs.len(),
            nums == card_nums(deck.surfs@),
            top == seq_max(nums.take(k as int)),
        decreases deck.surfs.len() - k,
    {
        assert(nums.take(k + 1).drop_last() =~= nums.take(k as int));
        if deck.surfs[k].card.num > top {
            top = deck.surfs[k].card.num;
        }
        k = k + 1;
    }
    assert(nums.take(nums.len() as int) =~= nums);
    proof {
        if deck.surfs.len() > 0 {
            lemma_seq_max_bound(nums, u32::MAX as int);
        }
    }
    let inf: u32 = top + 1;
    let ghost upv = up@;
    let mut cells: Vec<SerpentCell> = Vec::new();
    let mut any: bool = false;
    let mut c: usize = 0;
    while c < deck.cells.len()
        invariant
            c <= deck.cells.len(),
            upv == up@,
            cells@.map_values(|x: SerpentCell| serpent_cell_view(x)) == Seq::new(
                c as nat,
                |t: int| serpent_cell(deck.cells@[t], upv, inf),
            ),
            any == exists|t: int| 0 <= t < c && blank(deck_text(geom_view(#[trigger] deck.cells@[t].geom), true)),
        decreases deck.cells.len() - c,
    {
        let cell = &deck.cells[c];
        let text = cell.geom.deck_spelling(true);
        let empty = is_blank(&text);
        let region = if empty {
            any = true;
            let mut d: Vec<char> = Vec::new();
            d.push('-');
            append_dec(&mut d, inf as u64);
            string_from_chars(d.as_slice())
        } else {
            text
        };
        let universe = match get_entry(&up.universes, cell.num) {
            Some(u) => u,
            None => 0,
        };
        let x = SerpentCell { id: cell.num, universe, content: content_of(cell, &up), region, inf: empty };
        let ghost before = cells@.map_values(|x: SerpentCell| serpent_cell_view(x));
        cells.push(x);
        proof {
            assert(serpent_cell_view(x) == serpent_cell(deck.cells@[c as int], upv, inf));
            assert(cells@.map_values(|x: SerpentCell| serpent_cell_view(x)) =~= before.push(serpent_cell_view(x)));
            assert(cells@.map_values(|x: SerpentCell| serpent_cell_view(x)) =~= Seq::new(
                (c + 1) as nat,
                |t: int| serpent_cell(deck.cells@[t], upv, inf),
            ));
            if blank(deck_text(geom_view(deck.cells@[c as int].geom), true)) {
                assert(any);
            }
        }
        c = c + 1;
    }
    let inf_surface = if any { Some(inf) } else { None };
    proof {
        assert(any == some_blank(deck.cells@));
        assert(inf == (seq_max(card_nums(deck.surfs@)) + 1) as u32);
    }
    Ok(SerpentPlan { surfaces, inf_surface, cells, universes: up, drift })
}

} // verus!
