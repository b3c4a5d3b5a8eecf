//! The plan of an OpenMC geometry for an MCNP CSG deck: the passes over
//! cell parameters, data cards, universes and lattices, surfaces, cell
//! regions and boundaries, run in that order, with the drift report they
//! add. What is left to the writer is evaluating coefficients and spelling
//! the XML.

use vstd::prelude::*;
use crate::boundary::{SurfaceBoundary, SurfaceFlags, boundary_outcome, plan_boundaries, periodic_map, link_note, min_missing, first_pair_error, assigned, is_reflective};
use crate::drift::{DriftEntry, DriftScope, DriftTable};
use crate::expand::{DeckSurface, SurfacePlan, ExpansionView, FacetView, Facet, PlanView, plan_surfaces, surface_pass, surfs_step, surf_step, macro_views, emitted, card_nums, interiors_ok};
use crate::surface::{direct_map, surface_map};
use crate::params::{DataCard, check_cell_params, check_data_cards, params_step, data_cards_step};
use crate::region::{
    GeomExpr, RegionEnv, RegionState, EnvView, StateView, cell_regions, cells_step, geom_view, copy_geom, env_ok, flat, lits, is_flat,
    collect_lits, plain, as_region, rendered, lemma_plain_region_lossless,
};
use crate::universe::{
    FillTarget, FillView, LatticePlan, LatticePlanView, LatticeView, NoteView, UniversePlan, UniverseView, get, get_entry,
    note_view, numbers_fit, fill_fits, matrix_fits, resolve_universes, universe_plan,
};
use crate::xlate::{Error, ErrorView};

verus! {

/// One deck cell.
#[derive(Debug)]
pub struct DeckCell {
    pub num: u32,
    /// Material number (`0` for void).
    pub mat: u32,
    /// Cell parameters (`key=value` or bare keywords).
    pub params: Vec<String>,
    pub geom: GeomExpr,
}

/// A parsed deck as the planner reads it.
#[derive(Debug)]
pub struct OpenmcDeck {
    pub cells: Vec<DeckCell>,
    pub surfs: Vec<DeckSurface>,
    pub data: Vec<DataCard>,
    pub lattices: Vec<LatticeView>,
    pub universes: Vec<UniverseView>,
    pub fills: Vec<FillView>,
}

/// What a cell holds.
#[derive(Debug, Clone, Copy, PartialEq, Eq, Structural)]
pub enum CellContent {
    /// A universe or lattice id.
    Fill(u32),
    Void,
    Material(u32),
}

/// One planned OpenMC cell.
#[derive(Debug, Clone, PartialEq, Eq)]
pub struct OutCell {
    pub id: u32,
    pub mat: u32,
    /// Containing universe (`0` when the cell has none).
    pub universe: u32,
    /// Filling universe of a single-universe fill.
    pub fill: Option<u32>,
    /// Lattice id of a lattice-filled cell.
    pub lattice: Option<u32>,
    /// OpenMC region text.
    pub region: String,
}


impl OutCell {
    /// What the cell holds: its single fill, else its lattice, else its
    /// material (`0` for void).
    pub fn content(&self) -> (r: CellContent)
        ensures
            r == match self.fill {
                Some(f) => CellContent::Fill(f),
                None => match self.lattice {
                    Some(l) => CellContent::Fill(l),
                    None => if self.mat == 0 {
                        CellContent::Void
                    } else {
                        CellContent::Material(self.mat)
                    },
                },
            },
    {
        match self.fill {
            Some(f) => CellContent::Fill(f),
            None => match self.lattice {
                Some(l) => CellContent::Fill(l),
                None => if self.mat == 0 {
                    CellContent::Void
                } else {
                    CellContent::Material(self.mat)
                },
            },
        }
    }
}

pub struct OutCellView {
    pub id: u32,
    pub mat: u32,
    pub universe: u32,
    pub fill: Option<u32>,
    pub lattice: Option<u32>,
    pub region: Seq<char>,
}

/// The plan of an OpenMC geometry.
#[derive(Debug)]
pub struct OpenmcPlan {
    /// Cells in deck order.
    pub cells: Vec<OutCell>,
    /// Directly mapped surfaces and expanded macrobodies.
    pub surfaces: SurfacePlan,
    /// Boundary of each emitted surface, in [`SurfacePlan::emitted_ids`] order.
    pub boundaries: Vec<SurfaceBoundary>,
    /// Universes, fills and lattices (every lattice planned).
    pub universes: UniversePlan,
    pub drift: DriftTable,
}

/// Drift entries as (scope, note).
pub open spec fn tagged(es: Seq<DriftEntry>) -> Seq<(DriftScope, NoteView)> {
    es.map_values(|e: DriftEntry| (e.scope, note_view(e)))
}

/// Notes of one scope.
pub open spec fn tag(sc: DriftScope, ns: Seq<NoteView>) -> Seq<(DriftScope, NoteView)> {
    ns.map_values(|n: NoteView| (sc, n))
}

/// The cell-parameter pass over cells `cs[i..]`.
pub open spec fn params_all(cs: Seq<DeckCell>, i: int) -> (Result<(), ErrorView>, Seq<NoteView>)
    decreases cs.len() - i,
{
    if i < 0 || i >= cs.len() {
        (Ok(()), Seq::empty())
    } else {
        let (r, ns) = params_step(cs[i].num, cs[i].params@.map_values(|p: String| p@), 0);
        match r {
            Err(e) => (Err(e), ns),
            Ok(()) => {
                let (r2, rest) = params_all(cs, i + 1);
                (r2, ns + rest)
            },
        }
    }
}

/// The refusal of the bounds of lattice cell `cell`, if any.
pub open spec fn refusal_of(rs: Seq<(u32, ErrorView)>, cell: u32) -> Option<ErrorView>
    decreases rs.len(),
{
    if rs.len() == 0 {
        None
    } else if rs[0].0 == cell {
        Some(rs[0].1)
    } else {
        refusal_of(rs.drop_first(), cell)
    }
}

/// The lattice pass over `ls[i..]`: a hole or a refused bounds stops it,
/// each planned lattice adds its note.
pub open spec fn lattice_stage(ls: Seq<Result<LatticePlanView, ErrorView>>, rs: Seq<(u32, ErrorView)>, i: int) -> (Result<(), ErrorView>, Seq<NoteView>)
    decreases ls.len() - i,
{
    if i < 0 || i >= ls.len() {
        (Ok(()), Seq::empty())
    } else {
        match ls[i] {
            Err(e) => (Err(e), Seq::empty()),
            Ok(lp) => match refusal_of(rs, lp.cell) {
                Some(e) => (Err(e), Seq::empty()),
                None => {
                    let (r, rest) = lattice_stage(ls, rs, i + 1);
                    (r, seq![lp.note] + rest)
                },
            },
        }
    }
}

/// The lattice id of cell `cell`.
pub open spec fn lattice_id(ls: Seq<Result<LatticePlanView, ErrorView>>, cell: u32) -> Option<u32>
    decreases ls.len(),
{
    if ls.len() == 0 {
        None
    } else {
        match ls[0] {
            Ok(lp) => if lp.cell == cell {
                Some(lp.id)
            } else {
                lattice_id(ls.drop_first(), cell)
            },
            Err(_) => lattice_id(ls.drop_first(), cell),
        }
    }
}

/// The surface markers of the cards.
pub open spec fn flags_of(cs: Seq<DeckSurface>) -> Seq<SurfaceFlags> {
    cs.map_values(|c: DeckSurface| SurfaceFlags { num: c.card.num, periodic: c.periodic, reflecting: c.reflecting })
}

/// The cell numbers.
pub open spec fn cell_nums(cs: Seq<DeckCell>) -> Seq<u32> {
    cs.map_values(|c: DeckCell| c.num)
}

/// What region resolution reads of a deck once its surfaces are planned.
pub open spec fn region_env(d: OpenmcDeck, macros: Seq<(u32, ExpansionView)>) -> EnvView {
    EnvView {
        surfs: card_nums(d.surfs@),
        macros: macros.map_values(|m: (u32, ExpansionView)| (m.0, m.1.interior)),
        cells: d.cells@.map_values(|c: DeckCell| (c.num, geom_view(c.geom))),
    }
}

/// A planned cell.
pub open spec fn out_cell(c: DeckCell, up: crate::universe::PlanView, region: Seq<char>) -> OutCellView {
    OutCellView {
        id: c.num,
        mat: c.mat,
        universe: match get(up.universes, c.num) {
            Some(u) => u,
            None => 0,
        },
        fill: get(up.fills, c.num),
        lattice: lattice_id(up.lattices, c.num),
        region,
    }
}

/// The planned geometry as values.
pub struct OutcomeView {
    pub cells: Seq<OutCellView>,
    pub direct: Seq<FacetView>,
    pub macros: Seq<(u32, ExpansionView)>,
    pub next_id: u32,
    pub boundaries: Seq<SurfaceBoundary>,
    pub universes: crate::universe::PlanView,
    pub drift: Seq<(DriftScope, NoteView)>,
}

/// The plan of a deck whose lattice cells `rs` have bounds that cannot be
/// read: the passes in order, the first refusal winning; the drift holds
/// the cell-parameter, data-card, lattice, universe and fill, surface,
/// region and periodic-link notes, in that order.
pub open spec fn openmc_outcome(d: OpenmcDeck, rs: Seq<(u32, ErrorView)>) -> Result<OutcomeView, ErrorView> {
    let (pr, pn) = params_all(d.cells@, 0);
    match pr {
        Err(e) => Err(e),
        Ok(()) => {
            let (dr, dn) = data_cards_step(d.data@, 0);
            match dr {
                Err(e) => Err(e),
                Ok(()) => match universe_plan(d.lattices@, d.universes@, d.fills@, cell_nums(d.cells@)) {
                    Err(e) => Err(e),
                    Ok(up) => {
                        let (lr, ln) = lattice_stage(up.lattices, rs, 0);
                        match lr {
                            Err(e) => Err(e),
                            Ok(()) => {
                                let (sr, sp) = surface_pass(d.surfs@);
                                match sr {
                                    Err(e) => Err(e),
                                    Ok(()) => {
                                        let env = region_env(d, sp.macros);
                                        let (rr, rst) = cells_step(env, StateView { forced: Seq::empty(), notes: Seq::empty() }, 0);
                                        match rr {
                                            Err(e) => Err(e),
                                            Ok(regions) => match boundary_outcome(
                                                flags_of(d.surfs@),
                                                emitted(sp.direct, sp.macros),
                                                rst.forced,
                                            ) {
                                                Err(e) => Err(e),
                                                Ok(bs) => {
                                                    let pm = periodic_map(flags_of(d.surfs@));
                                                    Ok(OutcomeView {
                                                        cells: Seq::new(
                                                            d.cells@.len(),
                                                            |i: int| out_cell(d.cells@[i], up, regions[i].1),
                                                        ),
                                                        direct: sp.direct,
                                                        macros: sp.macros,
                                                        next_id: sp.next_id,
                                                        boundaries: bs,
                                                        universes: up,
                                                        drift: tag(DriftScope::Cell, pn) + tag(DriftScope::Deck, dn) + tag(
                                                            DriftScope::Cell,
                                                            ln,
                                                        ) + tag(DriftScope::Cell, up.notes) + tag(DriftScope::Surface, sp.notes)
                                                            + tag(DriftScope::Cell, rst.notes) + tag(
                                                            DriftScope::Surface,
                                                            Seq::new(pm.len(), |k: int| link_note(pm[k].0, pm[k].1)),
                                                        ),
                                                    })
                                                },
                                            },
                                        }
                                    },
                                }
                            },
                        }
                    },
                },
            }
        },
    }
}

pub(crate) fn copy_entry(e: &DriftEntry) -> (r: DriftEntry)
    ensures
        r == *e,
{
    DriftEntry { scope: e.scope, target: e.target, action: e.action.clone(), reason: e.reason.clone() }
}

pub(crate) fn copy_error(e: &Error) -> (r: Error)
    ensures
        r == *e,
{
    match e {
        Error::UnsupportedSurface { surf, kind, detail } => Error::UnsupportedSurface {
            surf: *surf,
            kind: kind.clone(),
            detail: detail.clone(),
        },
        Error::MacrobodyOutOfScope { surf, kind, detail } => Error::MacrobodyOutOfScope {
            surf: *surf,
            kind: kind.clone(),
            detail: detail.clone(),
        },
        Error::ComplementTooComplex { cell, target } => Error::ComplementTooComplex { cell: *cell, target: *target },
        Error::UnknownSurface { cell, surf } => Error::UnknownSurface { cell: *cell, surf: *surf },
        Error::UnknownCell { cell, target } => Error::UnknownCell { cell: *cell, target: *target },
        Error::ReflectiveConflict { surf, detail } => Error::ReflectiveConflict { surf: *surf, detail: detail.clone() },
        Error::PeriodicAmbiguous { surf, partner, detail } => Error::PeriodicAmbiguous {
            surf: *surf,
            partner: *partner,
            detail: detail.clone(),
        },
        Error::TransformOutOfScope { detail } => Error::TransformOutOfScope { detail: detail.clone() },
        Error::UniverseOutOfScope { detail } => Error::UniverseOutOfScope { detail: detail.clone() },
        Error::TallySourceOutOfScope { detail } => Error::TallySourceOutOfScope { detail: detail.clone() },
        Error::SerpentBoundaryOutOfScope { surf, detail } => Error::SerpentBoundaryOutOfScope {
            surf: *surf,
            detail: detail.clone(),
        },
        Error::PhitsBoundaryOutOfScope { surf, detail } => Error::PhitsBoundaryOutOfScope {
            surf: *surf,
            detail: detail.clone(),
        },
        Error::GdmlBoundaryOutOfScope { surf, detail } => Error::GdmlBoundaryOutOfScope {
            surf: *surf,
            detail: detail.clone(),
        },
    }
}

/// The refusals as values.
pub open spec fn refusal_views(rs: Seq<(u32, Error)>) -> Seq<(u32, ErrorView)> {
    rs.map_values(|x: (u32, Error)| (x.0, x.1@))
}

fn find_refusal(rs: &Vec<(u32, Error)>, cell: u32) -> (r: Option<Error>)
    ensures
        match (r, refusal_of(refusal_views(rs@), cell)) {
            (None, None) => true,
            (Some(e), Some(v)) => e@ == v,
            _ => false,
        },
{
    let ghost rv = refusal_views(rs@);
    let mut i: usize = 0;
    assert(rv.skip(0) =~= rv);
    while i < rs.len()
        invariant
            i <= rs.len(),
            rv == refusal_views(rs@),
            refusal_of(rv, cell) == refusal_of(rv.skip(i as int), cell),
        decreases rs.len() - i,
    {
        assert(rv.skip(i as int).drop_first() =~= rv.skip(i + 1));
        if rs[i].0 == cell {
            return Some(copy_error(&rs[i].1));
        }
        i = i + 1;
    }
    None
}

pub(crate) fn surface_flags(surfs: &Vec<DeckSurface>) -> (r: Vec<SurfaceFlags>)
    ensures
        r@ == flags_of(surfs@),
{
    let mut r: Vec<SurfaceFlags> = Vec::new();
    let mut i: usize = 0;
    while i < surfs.len()
        invariant
            i <= surfs.len(),
            r@ == flags_of(surfs@).take(i as int),
        decreases surfs.len() - i,
    {
        r.push(SurfaceFlags { num: surfs[i].card.num, periodic: surfs[i].periodic, reflecting: surfs[i].reflecting });
        assert(r@ =~= flags_of(surfs@).take(i + 1));
        i = i + 1;
    }
    assert(flags_of(surfs@).take(i as int) =~= flags_of(surfs@));
    r
}

pub(crate) fn numbers_of_cells(cells: &Vec<DeckCell>) -> (r: Vec<u32>)
    ensures
        r@ == cell_nums(cells@),
{
    let mut r: Vec<u32> = Vec::new();
    let mut i: usize = 0;
    while i < cells.len()
        invariant
            i <= cells.len(),
            r@ == cell_nums(cells@).take(i as int),
        decreases cells.len() - i,
    {
        r.push(cells[i].num);
        assert(r@ =~= cell_nums(cells@).take(i + 1));
        i = i + 1;
    }
    assert(cell_nums(cells@).take(i as int) =~= cell_nums(cells@));
    r
}

pub(crate) fn numbers_of_surfaces(surfs: &Vec<DeckSurface>) -> (r: Vec<u32>)
    ensures
        r@ == card_nums(surfs@),
{
    let mut r: Vec<u32> = Vec::new();
    let mut i: usize = 0;
    while i < surfs.len()
        invariant
            i <= surfs.len(),
            r@ == card_nums(surfs@).take(i as int),
        decreases surfs.len() - i,
    {
        r.push(surfs[i].card.num);
        assert(r@ =~= card_nums(surfs@).take(i + 1));
        i = i + 1;
    }
    assert(card_nums(surfs@).take(i as int) =~= card_nums(surfs@));
    r
}

pub(crate) fn cell_geometries(cells: &Vec<DeckCell>) -> (r: Vec<(u32, GeomExpr)>)
    ensures
        r@.map_values(|c: (u32, GeomExpr)| (c.0, geom_view(c.1))) == cells@.map_values(|c: DeckCell| (c.num, geom_view(c.geom))),
{
    let ghost target = cells@.map_values(|c: DeckCell| (c.num, geom_view(c.geom)));
    let mut r: Vec<(u32, GeomExpr)> = Vec::new();
    let mut i: usize = 0;
    while i < cells.len()
        invariant
            i <= cells.len(),
            target == cells@.map_values(|c: DeckCell| (c.num, geom_view(c.geom))),
            r@.map_values(|c: (u32, GeomExpr)| (c.0, geom_view(c.1))) == target.take(i as int),
        decreases cells.len() - i,
    {
        let g = copy_geom(&cells[i].geom);
        let ghost before = r@.map_values(|c: (u32, GeomExpr)| (c.0, geom_view(c.1)));
        r.push((cells[i].num, g));
        assert(r@.map_values(|c: (u32, GeomExpr)| (c.0, geom_view(c.1))) =~= before.push(target[i as int]));
        assert(target.take(i + 1) =~= target.take(i as int).push(target[i as int]));
        i = i + 1;
    }
    assert(target.take(i as int) =~= target);
    r
}

fn find_lattice_id(ls: &Vec<Result<LatticePlan, Error>>, cell: u32) -> (r: Option<u32>)
    ensures
        r == lattice_id(ls@.map_values(|x: Result<LatticePlan, Error>| crate::universe::lattice_result_view(x)), cell),
{
    let ghost lv = ls@.map_values(|x: Result<LatticePlan, Error>| crate::universe::lattice_result_view(x));
    let mut i: usize = 0;
    assert(lv.skip(0) =~= lv);
    while i < ls.len()
        invariant
            i <= ls.len(),
            lv == ls@.map_values(|x: Result<LatticePlan, Error>| crate::universe::lattice_result_view(x)),
            lattice_id(lv, cell) == lattice_id(lv.skip(i as int), cell),
        decreases ls.len() - i,
    {
        assert(lv.skip(i as int).drop_first() =~= lv.skip(i + 1));
        match &ls[i] {
            Ok(lp) => {
                if lp.cell == cell {
                    return Some(lp.id);
                }
            },
            Err(_) => {},
        }
        i = i + 1;
    }
    None
}

proof fn lemma_tagged_extend(old: Seq<DriftEntry>, new: Seq<DriftEntry>, sc: DriftScope, ns: Seq<NoteView>)
    requires
        old.len() <= new.len(),
        new.take(old.len() as int) == old,
        forall|i: int| old.len() <= i < new.len() ==> (#[trigger] new[i]).scope == sc,
        new.skip(old.len() as int).map_values(|e: DriftEntry| note_view(e)) == ns,
    ensures
        tagged(new) == tagged(old) + tag(sc, ns),
{
    let n = old.len() as int;
    assert(ns.len() == new.len() - n);
    assert forall|i: int| 0 <= i < new.len() implies #[trigger] tagged(new)[i] == (tagged(old) + tag(sc, ns))[i] by {
        if i < n {
            assert(new.take(n)[i] == new[i]);
        } else {
            assert(new.skip(n)[i - n] == new[i]);
            assert(ns[i - n] == note_view(new[i]));
        }
    }
    assert(tagged(new) =~= tagged(old) + tag(sc, ns));
}

fn push_copies(drift: &mut DriftTable, es: &Vec<DriftEntry>)
    ensures
        final(drift).entries@ == old(drift).entries@ + es@,
{
    let mut i: usize = 0;
    while i < es.len()
        invariant
            i <= es.len(),
            drift.entries@ == old(drift).entries@ + es@.take(i as int),
        decreases es.len() - i,
    {
        let e = copy_entry(&es[i]);
        drift.entries.push(e);
        assert(drift.entries@ =~= old(drift).entries@ + es@.take(i + 1));
        i = i + 1;
    }
    assert(es@.take(i as int) =~= es@);
}

proof fn lemma_tagged_concat(a: Seq<DriftEntry>, b: Seq<DriftEntry>, sc: DriftScope)
    requires
        forall|i: int| 0 <= i < b.len() ==> (#[trigger] b[i]).scope == sc,
    ensures
        tagged(a + b) == tagged(a) + tag(sc, b.map_values(|e: DriftEntry| note_view(e))),
{
    assert(tagged(a + b) =~= tagged(a) + tag(sc, b.map_values(|e: DriftEntry| note_view(e))));
}

/// The deck conditions the planner relies on: numbers that leave room for
/// lattice and facet ids, no cell literal `i32::MIN`, and a literal in
/// every flat cell region (a parsed deck has one: the deck grammar gives
/// every cell a non-empty region).
pub open spec fn deck_fits(d: OpenmcDeck) -> bool {
    &&& numbers_fit(cell_nums(d.cells@), d.universes@, d.fills@)
    &&& forall|i: int| 0 <= i < d.surfs@.len() ==> #[trigger] d.surfs@[i].card.num + 6 * d.surfs@.len() + 1 < 0x8000_0000
    &&& forall|k: int| 0 <= k < d.cells@.len() && flat(geom_view(#[trigger] d.cells@[k].geom)) ==> lits(geom_view(d.cells@[k].geom)).len() > 0
    &&& forall|k: int, j: int| 0 <= k < d.cells@.len() && 0 <= j < lits(geom_view(d.cells@[k].geom)).len()
        ==> #[trigger] lits(geom_view(d.cells@[k].geom))[j].0 != i32::MIN
}

/// A planned cell as values.
pub open spec fn out_cell_view(c: OutCell) -> OutCellView {
    OutCellView { id: c.id, mat: c.mat, universe: c.universe, fill: c.fill, lattice: c.lattice, region: c.region@ }
}

/// `p` is the plan `v`.
pub open spec fn plan_is(p: OpenmcPlan, v: OutcomeView) -> bool {
    &&& p.cells@.map_values(|c: OutCell| out_cell_view(c)) == v.cells
    &&& p.surfaces.direct@.map_values(|f: Facet| f@) == v.direct
    &&& macro_views(p.surfaces.macros@) == v.macros
    &&& p.surfaces.next_id == v.next_id
    &&& p.boundaries@ == v.boundaries
    &&& p.universes@ == v.universes
    &&& tagged(p.drift.entries@) == v.drift
}

fn fill_fits_exec(f: &FillView, b: u64) -> (r: bool)
    ensures
        r == fill_fits(*f, b as int),
{
    match &f.target {
        FillTarget::Single(u) => (*u as u64) < b,
        FillTarget::Matrix(m) => {
            let mut j: usize = 0;
            while j < m.universes.len()
                invariant
                    j <= m.universes.len(),
                    f.target == FillTarget::Matrix(*m),
                    forall|t: int| 0 <= t < j ==> (#[trigger] m.universes@[t] matches Some(u) ==> u < b),
                decreases m.universes.len() - j,
            {
                match m.universes[j] {
                    Some(u) => {
                        if u as u64 >= b {
                            assert(m@.universes[j as int] == Some(u));
                            assert(!matrix_fits(m@, b as int));
                            assert(f.target == FillTarget::Matrix(*m));
                            return false;
                        }
                    },
                    None => {},
                }
                j = j + 1;
            }
            assert(matrix_fits(m@, b as int));
            assert(f.target == FillTarget::Matrix(*m));
            true
        },
    }
}

fn region_fits(g: &GeomExpr) -> (r: bool)
    ensures
        r == ({
            let v = geom_view(*g);
            &&& flat(v) ==> lits(v).len() > 0
            &&& forall|j: int| 0 <= j < lits(v).len() ==> #[trigger] lits(v)[j].0 != i32::MIN
        }),
{
    let ghost v = geom_view(*g);
    let mut ls: Vec<(i32, bool)> = Vec::new();
    collect_lits(g, &mut ls);
    assert(ls@ =~= lits(v));
    if is_flat(g) && ls.len() == 0 {
        return false;
    }
    let mut j: usize = 0;
    while j < ls.len()
        invariant
            j <= ls.len(),
            v == geom_view(*g),
            ls@ == lits(v),
            forall|t: int| 0 <= t < j ==> #[trigger] ls@[t].0 != i32::MIN,
        decreases ls.len() - j,
    {
        if ls[j].0 == i32::MIN {
            assert(lits(v)[j as int].0 == i32::MIN);
            return false;
        }
        j = j + 1;
    }
    true
}

/// Whether a deck's cell, universe and fill numbers leave room for lattice
/// ids (see [`numbers_fit`]).
#[verifier::loop_isolation(false)]
pub fn check_numbers_fit(deck: &OpenmcDeck) -> (r: bool)
    ensures
        r == numbers_fit(cell_nums(deck.cells@), deck.universes@, deck.fills@),
{
    if deck.fills.len() as u64 > u32::MAX as u64 {
        return false;
    }
    let b: u64 = u32::MAX as u64 - deck.fills.len() as u64 + 1;
    assert(b as int == crate::universe::id_bound(deck.fills@.len()));
    let nums = numbers_of_cells(&deck.cells);
    let mut i: usize = 0;
    while i < nums.len()
        invariant
            i <= nums.len(),
            nums@ == cell_nums(deck.cells@),
            forall|t: int| 0 <= t < i ==> #[trigger] nums@[t] < b,
        decreases nums.len() - i,
    {
        if nums[i] as u64 >= b {
            assert(cell_nums(deck.cells@)[i as int] >= b);
            return false;
        }
        i = i + 1;
    }
    let mut u: usize = 0;
    while u < deck.universes.len()
        invariant
            u <= deck.universes.len(),
            forall|t: int| 0 <= t < u ==> #[trigger] deck.universes@[t].number < b,
        decreases deck.universes.len() - u,
    {
        if deck.universes[u].number as u64 >= b {
            assert(deck.universes@[u as int].number >= b);
            return false;
        }
        u = u + 1;
    }
    let mut f: usize = 0;
    while f < deck.fills.len()
        invariant
            f <= deck.fills.len(),
            forall|t: int| 0 <= t < f ==> #[trigger] fill_fits(deck.fills@[t], b as int),
        decreases deck.fills.len() - f,
    {
        if !fill_fits_exec(&deck.fills[f], b) {
            assert(!fill_fits(deck.fills@[f as int], b as int));
            return false;
        }
        f = f + 1;
    }
    assert(numbers_fit(cell_nums(deck.cells@), deck.universes@, deck.fills@));
    true
}

/// Whether a deck meets [`deck_fits`], the conditions of [`plan_openmc`].
pub fn check_deck_fits(deck: &OpenmcDeck) -> (r: bool)
    ensures
        r == deck_fits(*deck),
{
    if !check_numbers_fit(deck) {
        return false;
    }
    assert(numbers_fit(cell_nums(deck.cells@), deck.universes@, deck.fills@));
    let n = deck.surfs.len();
    if n >= 0x2000_0000 {
        assert(!(deck.surfs@[0].card.num + 6 * deck.surfs@.len() + 1 < 0x8000_0000));
        return false;
    }
    if 6 * (n as u64) + 1 >= 0x8000_0000u64 {
        assert(!(deck.surfs@[0].card.num + 6 * deck.surfs@.len() + 1 < 0x8000_0000));
        return false;
    }
    let limit: u64 = 0x8000_0000u64 - 6 * (n as u64) - 1;
    let mut s: usize = 0;
    while s < n
        invariant
            n == deck.surfs.len(),
            6 * n + 1 < 0x8000_0000,
            limit == 0x8000_0000 - 6 * n - 1,
            s <= n,
            forall|t: int| 0 <= t < s ==> #[trigger] deck.surfs@[t].card.num + 6 * deck.surfs@.len() + 1 < 0x8000_0000,
        decreases n - s,
    {
        if deck.surfs[s].card.num as u64 >= limit {
            assert(!(deck.surfs@[s as int].card.num + 6 * deck.surfs@.len() + 1 < 0x8000_0000));
            return false;
        }
        s = s + 1;
    }
    let mut c: usize = 0;
    while c < deck.cells.len()
        invariant
            c <= deck.cells.len(),
            forall|t: int| 0 <= t < c ==> flat(geom_view(#[trigger] deck.cells@[t].geom)) ==> lits(geom_view(deck.cells@[t].geom)).len() > 0,
            forall|t: int, j: int| 0 <= t < c && 0 <= j < lits(geom_view(deck.cells@[t].geom)).len()
                ==> #[trigger] lits(geom_view(deck.cells@[t].geom))[j].0 != i32::MIN,
        decreases deck.cells.len() - c,
    {
        if !region_fits(&deck.cells[c].geom) {
            proof {
                let v = geom_view(deck.cells@[c as int].geom);
                if flat(v) && lits(v).len() == 0 {
                    assert(!deck_fits(*deck));
                } else {
                    let j = choose|j: int| 0 <= j < lits(v).len() && lits(v)[j].0 == i32::MIN;
                    assert(lits(geom_view(deck.cells@[c as int].geom))[j].0 == i32::MIN);
                }
            }
            return false;
        }
        c = c + 1;
    }
    true
}

/// The cell-parameter pass over every cell.
fn stage_params(cells: &Vec<DeckCell>, drift: &mut DriftTable) -> (r: Result<(), Error>)
    ensures
        match (r, params_all(cells@, 0).0) {
            (Ok(()), Ok(())) => tagged(final(drift).entries@) == tagged(old(drift).entries@) + tag(DriftScope::Cell, params_all(cells@, 0).1),
            (Err(e), Err(v)) => e@ == v,
            _ => false,
        },
{
    let ghost mut pn: Seq<NoteView> = Seq::empty();
    proof {
        let r0 = params_all(cells@, 0);
        assert(Seq::<NoteView>::empty() + r0.1 =~= r0.1);
        assert(tagged(drift.entries@) =~= tagged(old(drift).entries@) + tag(DriftScope::Cell, pn));
    }
    let mut i: usize = 0;
    while i < cells.len()
        invariant
            i <= cells.len(),
            params_all(cells@, 0) == ({
                let (r, rest) = params_all(cells@, i as int);
                (r, pn + rest)
            }),
            tagged(drift.entries@) == tagged(old(drift).entries@) + tag(DriftScope::Cell, pn),
        decreases cells.len() - i,
    {
        let ghost e0 = drift.entries@;
        let ghost ps = cells@[i as int].params@.map_values(|p: String| p@);
        match check_cell_params(drift, cells[i].num, &cells[i].params) {
            Err(e) => {
                return Err(e);
            },
            Ok(()) => {
                proof {
                    let ns = params_step(cells@[i as int].num, ps, 0).1;
                    lemma_tagged_extend(e0, drift.entries@, DriftScope::Cell, ns);
                    let rest = params_all(cells@, i + 1);
                    assert(pn + (ns + rest.1) =~= (pn + ns) + rest.1);
                    assert(tag(DriftScope::Cell, pn) + tag(DriftScope::Cell, ns) =~= tag(DriftScope::Cell, pn + ns));
                    pn = pn + ns;
                }
            },
        }
        i = i + 1;
    }
    assert(pn + Seq::<NoteView>::empty() =~= pn);
    Ok(())
}

/// The lattice pass over planned lattices `ls`.
fn stage_lattices(ls: &Vec<Result<LatticePlan, Error>>, refusals: &Vec<(u32, Error)>, drift: &mut DriftTable) -> (r: Result<(), Error>)
    requires
        forall|t: int| 0 <= t < ls@.len() ==> (#[trigger] ls@[t] matches Ok(p) ==> p.note.scope == DriftScope::Cell),
    ensures
        ({
            let lv = ls@.map_values(|x: Result<LatticePlan, Error>| crate::universe::lattice_result_view(x));
            let rv = refusal_views(refusals@);
            match (r, lattice_stage(lv, rv, 0).0) {
                (Ok(()), Ok(())) => tagged(final(drift).entries@) == tagged(old(drift).entries@) + tag(DriftScope::Cell, lattice_stage(lv, rv, 0).1),
                (Err(e), Err(v)) => e@ == v,
                _ => false,
            }
        }),
{
    let ghost lv = ls@.map_values(|x: Result<LatticePlan, Error>| crate::universe::lattice_result_view(x));
    let ghost rv = refusal_views(refusals@);
    let ghost mut ln: Seq<NoteView> = Seq::empty();
    proof {
        let r0 = lattice_stage(lv, rv, 0);
        assert(Seq::<NoteView>::empty() + r0.1 =~= r0.1);
        assert(tagged(drift.entries@) =~= tagged(old(drift).entries@) + tag(DriftScope::Cell, ln));
    }
    let mut k: usize = 0;
    while k < ls.len()
        invariant
            k <= ls.len(),
            lv == ls@.map_values(|x: Result<LatticePlan, Error>| crate::universe::lattice_result_view(x)),
            rv == refusal_views(refusals@),
            forall|t: int| 0 <= t < ls@.len() ==> (#[trigger] ls@[t] matches Ok(p) ==> p.note.scope == DriftScope::Cell),
            lattice_stage(lv, rv, 0) == ({
                let (r, rest) = lattice_stage(lv, rv, k as int);
                (r, ln + rest)
            }),
            tagged(drift.entries@) == tagged(old(drift).entries@) + tag(DriftScope::Cell, ln),
        decreases ls.len() - k,
    {
        assert(lv[k as int] == crate::universe::lattice_result_view(ls@[k as int]));
        match &ls[k] {
            Err(e) => {
                return Err(copy_error(e));
            },
            Ok(lp) => {
                match find_refusal(refusals, lp.cell) {
                    Some(e) => {
                        return Err(e);
                    },
                    None => {},
                }
                let ghost before = drift.entries@;
                let note = copy_entry(&lp.note);
                drift.entries.push(note);
                proof {
                    assert(drift.entries@ == before + seq![note]);
                    lemma_tagged_concat(before, seq![note], DriftScope::Cell);
                    assert(seq![note].map_values(|e: DriftEntry| note_view(e)) =~= seq![lp@.note]);
                    let rest = lattice_stage(lv, rv, k + 1);
                    assert(ln + (seq![lp@.note] + rest.1) =~= ln.push(lp@.note) + rest.1);
                    assert(tag(DriftScope::Cell, ln) + tag(DriftScope::Cell, seq![lp@.note]) =~= tag(DriftScope::Cell, ln.push(lp@.note)));
                    assert(tagged(old(drift).entries@) + tag(DriftScope::Cell, ln) + tag(DriftScope::Cell, seq![lp@.note])
                        =~= tagged(old(drift).entries@) + tag(DriftScope::Cell, ln.push(lp@.note)));
                    ln = ln.push(lp@.note);
                }
            },
        }
        k = k + 1;
    }
    assert(ln + Seq::<NoteView>::empty() =~= ln);
    Ok(())
}

/// The planned cells, in deck order.
fn stage_cells(cells: &Vec<DeckCell>, up: &UniversePlan, regions: &Vec<(u32, String)>) -> (r: Vec<OutCell>)
    requires
        regions@.len() == cells@.len(),
    ensures
        r@.map_values(|x: OutCell| out_cell_view(x)) == Seq::new(
            cells@.len(),
            |t: int| out_cell(cells@[t], up@, regions@[t].1@),
        ),
{
    let mut out: Vec<OutCell> = Vec::new();
    let mut c: usize = 0;
    while c < cells.len()
        invariant
            c <= cells.len(),
            regions@.len() == cells@.len(),
            out@.map_values(|x: OutCell| out_cell_view(x)) == Seq::new(c as nat, |t: int| out_cell(cells@[t], up@, regions@[t].1@)),
        decreases cells.len() - c,
    {
        let num = cells[c].num;
        let universe = match get_entry(&up.universes, num) {
            Some(u) => u,
            None => 0,
        };
        let fill = get_entry(&up.fills, num);
        let lattice = find_lattice_id(&up.lattices, num);
        let region = regions[c].1.clone();
        let x = OutCell { id: num, mat: cells[c].mat, universe, fill, lattice, region };
        let ghost before = out@.map_values(|x: OutCell| out_cell_view(x));
        out.push(x);
        assert(out@.map_values(|x: OutCell| out_cell_view(x)) =~= before.push(out_cell_view(x)));
        assert(out@.map_values(|x: OutCell| out_cell_view(x)) =~= Seq::new((c + 1) as nat, |t: int| out_cell(cells@[t], up@, regions@[t].1@)));
        c = c + 1;
    }
    out
}

/// The region pass with a fresh state: the regions and the state after it.
fn stage_regions(deck: &OpenmcDeck, sp: &SurfacePlan) -> (r: (Result<Vec<(u32, String)>, Error>, RegionState))
    requires
        deck_fits(*deck),
        interiors_ok(macro_views(sp.macros@)),
    ensures
        ({
            let env = region_env(*deck, macro_views(sp.macros@));
            let (res, st) = cells_step(env, StateView { forced: Seq::empty(), notes: Seq::empty() }, 0);
            &&& match (r.0, res) {
                (Ok(v), Ok(w)) => v@.map_values(|c: (u32, String)| (c.0, c.1@)) == w,
                (Err(e), Err(w)) => e@ == w,
                _ => false,
            }
            &&& r.1@ == st
            &&& forall|t: int| 0 <= t < r.1.drift.entries@.len() ==> (#[trigger] r.1.drift.entries@[t]).scope == DriftScope::Cell
        }),
{
    let env = RegionEnv { surfs: numbers_of_surfaces(&deck.surfs), macros: sp.interiors(), cells: cell_geometries(&deck.cells) };
    let ghost mv = macro_views(sp.macros@);
    assert(env@.macros =~= region_env(*deck, mv).macros);
    assert(env@ == region_env(*deck, mv));
    assert(env_ok(env@)) by {
        let ev = env@;
        assert forall|m: int| 0 <= m < ev.macros.len() implies #[trigger] ev.macros[m].1.len() > 0 by {
            assert(ev.macros[m].1 == mv[m].1.interior);
        }
        assert forall|m: int, j: int| 0 <= m < ev.macros.len() && 0 <= j < ev.macros[m].1.len()
            implies #[trigger] ev.macros[m].1[j] != i32::MIN by {
            assert(ev.macros[m].1 == mv[m].1.interior);
        }
        assert forall|c: int| 0 <= c < ev.cells.len() && flat(#[trigger] ev.cells[c].1) implies lits(ev.cells[c].1).len() > 0 by {
            assert(ev.cells[c].1 == geom_view(deck.cells@[c].geom));
        }
        assert forall|c: int, j: int| 0 <= c < ev.cells.len() && 0 <= j < lits(ev.cells[c].1).len()
            implies #[trigger] lits(ev.cells[c].1)[j].0 != i32::MIN by {
            assert(ev.cells[c].1 == geom_view(deck.cells@[c].geom));
        }
    }
    let mut st = RegionState { forced_reflective: Vec::new(), drift: DriftTable { entries: Vec::new() } };
    assert(st@.forced =~= Seq::<u32>::empty());
    assert(st@.notes =~= Seq::<NoteView>::empty());
    let r = cell_regions(&env, &mut st);
    assert forall|t: int| 0 <= t < st.drift.entries@.len() implies (#[trigger] st.drift.entries@[t]).scope == DriftScope::Cell by {
        assert(Seq::<DriftEntry>::empty().len() <= t);
    }
    (r, st)
}

/// Plan the OpenMC geometry of a deck (see [`openmc_outcome`]); `refusals`
/// are the lattice cells whose bounds cannot be read, with their refusal.
#[verifier::rlimit(100)]
#[verifier::spinoff_prover]
pub fn plan_openmc(deck: &OpenmcDeck, refusals: &Vec<(u32, Error)>) -> (r: Result<OpenmcPlan, Error>)
    requires
        deck_fits(*deck),
    ensures
        match (r, openmc_outcome(*deck, refusal_views(refusals@))) {
            (Ok(p), Ok(v)) => plan_is(p, v),
            (Err(e), Err(v)) => e@ == v,
            _ => false,
        },
{
    let mut drift = DriftTable { entries: Vec::new() };
    assert(tagged(drift.entries@) =~= Seq::<(DriftScope, NoteView)>::empty());
    let ghost t0 = tagged(drift.entries@);
    match stage_params(&deck.cells, &mut drift) {
        Err(e) => {
            return Err(e);
        },
        Ok(()) => {},
    }
    let ghost e1 = drift.entries@;
    match check_data_cards(&mut drift, &deck.data) {
        Err(e) => {
            return Err(e);
        },
        Ok(()) => {},
    }
    proof {
        lemma_tagged_extend(e1, drift.entries@, DriftScope::Deck, data_cards_step(deck.data@, 0).1);
    }
    let nums = numbers_of_cells(&deck.cells);
    let up = match resolve_universes(&deck.lattices, &deck.universes, &deck.fills, &nums) {
        Err(e) => {
            return Err(e);
        },
        Ok(p) => p,
    };
    match stage_lattices(&up.lattices, refusals, &mut drift) {
        Err(e) => {
            return Err(e);
        },
        Ok(()) => {},
    }
    let ghost e3 = drift.entries@;
    push_copies(&mut drift, &up.notes);
    proof {
        lemma_tagged_concat(e3, up.notes@, DriftScope::Cell);
    }
    let ghost e4 = drift.entries@;
    let sp = match plan_surfaces(&deck.surfs, &mut drift) {
        Err(e) => {
            return Err(e);
        },
        Ok(p) => p,
    };
    let ghost spv = surface_pass(deck.surfs@).1;
    proof {
        let n = e4.len() as int;
        let es = drift.entries@;
        let mapped = es.skip(n).map_values(|e: DriftEntry| note_view(e));
        assert forall|i: int| 0 <= i < spv.notes.len() implies #[trigger] mapped[i] == spv.notes[i] by {
            assert(es.skip(n)[i] == es[n + i]);
        }
        assert(mapped =~= spv.notes);
        assert forall|i: int| n <= i < es.len() implies (#[trigger] es[i]).scope == DriftScope::Surface by {
            let j = i - n;
            assert(es[n + j].scope == DriftScope::Surface);
        }
        lemma_tagged_extend(e4, drift.entries@, DriftScope::Surface, spv.notes);
        crate::expand::lemma_pass_interiors_ok(deck.surfs@);
    }
    let (rr, st) = stage_regions(deck, &sp);
    let regions = match rr {
        Err(e) => {
            return Err(e);
        },
        Ok(v) => v,
    };
    let ghost e5 = drift.entries@;
    push_copies(&mut drift, &st.drift.entries);
    proof {
        lemma_tagged_concat(e5, st.drift.entries@, DriftScope::Cell);
    }
    let flags = surface_flags(&deck.surfs);
    let known = sp.emitted_ids();
    let ghost e6 = drift.entries@;
    let bs = match plan_boundaries(&flags, &known, &st.forced_reflective, &mut drift) {
        Err(e) => {
            return Err(e);
        },
        Ok(b) => b,
    };
    let ghost pm = periodic_map(flags@);
    let ghost links = Seq::new(pm.len(), |t: int| link_note(pm[t].0, pm[t].1));
    proof {
        let n = e6.len() as int;
        let es = drift.entries@;
        let mapped = es.skip(n).map_values(|e: DriftEntry| note_view(e));
        assert forall|i: int| 0 <= i < links.len() implies #[trigger] mapped[i] == links[i] by {
            assert(es.skip(n)[i] == es[n + i]);
        }
        assert(mapped =~= links);
        assert forall|i: int| n <= i < es.len() implies (#[trigger] es[i]).scope == DriftScope::Surface by {
            let j = i - n;
            assert(es[n + j].scope == DriftScope::Surface);
        }
        lemma_tagged_extend(e6, drift.entries@, DriftScope::Surface, links);
        let env = region_env(*deck, spv.macros);
        crate::region::lemma_cells_step_shape(env, StateView { forced: Seq::empty(), notes: Seq::empty() }, 0);
    }
    let out = stage_cells(&deck.cells, &up, &regions);
    proof {
        let rv = refusal_views(refusals@);
        let env = region_env(*deck, spv.macros);
        let st0 = StateView { forced: Seq::empty(), notes: Seq::empty() };
        let rg = cells_step(env, st0, 0).0->Ok_0;
        let upv = up@;
        assert(macro_views(sp.macros@) == spv.macros);
        assert(known@ == emitted(spv.direct, spv.macros));
        assert(flags@ == flags_of(deck.surfs@));
        assert(st.forced_reflective@ == cells_step(env, st0, 0).1.forced);
        assert forall|t: int| 0 <= t < deck.cells@.len() implies #[trigger] regions@[t].1@ == rg[t].1 by {
            assert(regions@.map_values(|c: (u32, String)| (c.0, c.1@))[t] == rg[t]);
        }
        assert(out@.map_values(|x: OutCell| out_cell_view(x)) =~= Seq::new(
            deck.cells@.len(),
            |i: int| out_cell(deck.cells@[i], upv, rg[i].1),
        ));
        assert(t0 + tag(DriftScope::Cell, params_all(deck.cells@, 0).1) =~= tag(DriftScope::Cell, params_all(deck.cells@, 0).1));
        assert(upv.notes == up.notes@.map_values(|e: DriftEntry| note_view(e)));
        assert(st@.notes == st.drift.entries@.map_values(|e: DriftEntry| note_view(e)));
    }
    Ok(OpenmcPlan { cells: out, surfaces: sp, boundaries: bs, universes: up, drift })
}


/// What every direction plans before its own passes: the universes, fills
/// and lattices of a deck and the drift of the cell-parameter, data-card,
/// lattice and universe passes.
pub struct FrontView {
    pub universes: crate::universe::PlanView,
    pub drift: Seq<(DriftScope, NoteView)>,
}

/// The passes every direction shares, in order (the first refusal wins):
/// cell parameters, data cards, universes and fills, then the lattices,
/// whose bounds the cells `rs` cannot read.
pub open spec fn front_outcome(d: OpenmcDeck, rs: Seq<(u32, ErrorView)>) -> Result<FrontView, ErrorView> {
    let (pr, pn) = params_all(d.cells@, 0);
    match pr {
        Err(e) => Err(e),
        Ok(()) => {
            let (dr, dn) = data_cards_step(d.data@, 0);
            match dr {
                Err(e) => Err(e),
                Ok(()) => match universe_plan(d.lattices@, d.universes@, d.fills@, cell_nums(d.cells@)) {
                    Err(e) => Err(e),
                    Ok(up) => {
                        let (lr, ln) = lattice_stage(up.lattices, rs, 0);
                        match lr {
                            Err(e) => Err(e),
                            Ok(()) => Ok(FrontView {
                                universes: up,
                                drift: tag(DriftScope::Cell, pn) + tag(DriftScope::Deck, dn) + tag(DriftScope::Cell, ln) + tag(
                                    DriftScope::Cell,
                                    up.notes,
                                ),
                            }),
                        }
                    },
                },
            }
        },
    }
}

/// Run the shared passes (see [`front_outcome`]): the universe plan and the
/// drift so far.
pub fn plan_front(deck: &OpenmcDeck, refusals: &Vec<(u32, Error)>) -> (r: Result<(UniversePlan, DriftTable), Error>)
    requires
        numbers_fit(cell_nums(deck.cells@), deck.universes@, deck.fills@),
    ensures
        match (r, front_outcome(*deck, refusal_views(refusals@))) {
            (Ok((up, dt)), Ok(v)) => up@ == v.universes && tagged(dt.entries@) == v.drift,
            (Err(e), Err(v)) => e@ == v,
            _ => false,
        },
{
    let mut drift = DriftTable { entries: Vec::new() };
    assert(tagged(drift.entries@) =~= Seq::<(DriftScope, NoteView)>::empty());
    let ghost t0 = tagged(drift.entries@);
    match stage_params(&deck.cells, &mut drift) {
        Err(e) => {
            return Err(e);
        },
        Ok(()) => {},
    }
    let ghost e1 = drift.entries@;
    match check_data_cards(&mut drift, &deck.data) {
        Err(e) => {
            return Err(e);
        },
        Ok(()) => {},
    }
    proof {
        lemma_tagged_extend(e1, drift.entries@, DriftScope::Deck, data_cards_step(deck.data@, 0).1);
    }
    let nums = numbers_of_cells(&deck.cells);
    let up = match resolve_universes(&deck.lattices, &deck.universes, &deck.fills, &nums) {
        Err(e) => {
            return Err(e);
        },
        Ok(p) => p,
    };
    match stage_lattices(&up.lattices, refusals, &mut drift) {
        Err(e) => {
            return Err(e);
        },
        Ok(()) => {},
    }
    let ghost e3 = drift.entries@;
    push_copies(&mut drift, &up.notes);
    proof {
        lemma_tagged_concat(e3, up.notes@, DriftScope::Cell);
        assert(t0 + tag(DriftScope::Cell, params_all(deck.cells@, 0).1) =~= tag(DriftScope::Cell, params_all(deck.cells@, 0).1));
        assert(up@.notes == up.notes@.map_values(|e: DriftEntry| note_view(e)));
    }
    Ok((up, drift))
}

/// A planned lattice cell's id.
pub fn lattice_of(up: &UniversePlan, cell: u32) -> (r: Option<u32>)
    ensures
        r == lattice_id(up@.lattices, cell),
{
    find_lattice_id(&up.lattices, cell)
}


/// No planned OpenMC cell region holds a `~` complement: every `#n`
/// complement is inlined by flipping half-spaces, and one that cannot be is
/// refused.
pub proof fn lemma_regions_without_complement(d: OpenmcDeck, rs: Seq<(u32, ErrorView)>)
    requires
        openmc_outcome(d, rs) is Ok,
    ensures
        forall|i: int| 0 <= i < openmc_outcome(d, rs)->Ok_0.cells.len() ==> !(#[trigger] openmc_outcome(d, rs)->Ok_0.cells[i]).region.contains(
            '~',
        ),
{
    let up = universe_plan(d.lattices@, d.universes@, d.fills@, cell_nums(d.cells@))->Ok_0;
    let sp = surface_pass(d.surfs@).1;
    let env = region_env(d, sp.macros);
    let st0 = StateView { forced: Seq::empty(), notes: Seq::empty() };
    crate::region::lemma_cells_step_no_tilde(env, st0, 0);
    crate::region::lemma_cells_step_shape(env, st0, 0);
    let regions = cells_step(env, st0, 0).0->Ok_0;
    assert(env.cells.len() == d.cells@.len());
    let v = openmc_outcome(d, rs)->Ok_0;
    assert forall|i: int| 0 <= i < v.cells.len() implies !(#[trigger] v.cells[i]).region.contains('~') by {
        assert(v.cells[i] == out_cell(d.cells@[i], up, regions[i].1));
        assert(!regions[i].1.contains('~'));
    }
}

/// A deck that plans without loss: cells without parameters, no data
/// cards, universes, fills or lattices, surfaces that map directly without
/// transform, periodic pointer or reflecting marker, and cell regions that
/// name only deck surfaces, without markers or complements.
pub open spec fn plain_deck(d: OpenmcDeck) -> bool {
    &&& forall|i: int| 0 <= i < d.cells@.len() ==> (#[trigger] d.cells@[i]).params@.len() == 0
    &&& d.data@.len() == 0
    &&& d.lattices@.len() == 0
    &&& d.universes@.len() == 0
    &&& d.fills@.len() == 0
    &&& forall|i: int| 0 <= i < d.surfs@.len() ==> {
        &&& (#[trigger] d.surfs@[i]).transform is None
        &&& d.surfs@[i].periodic is None
        &&& !d.surfs@[i].reflecting
        &&& direct_map(d.surfs@[i].card.kind) is Some
    }
    &&& forall|i: int| 0 <= i < d.cells@.len() ==> plain(region_env(d, Seq::empty()), geom_view(#[trigger] d.cells@[i].geom))
}

proof fn lemma_params_none(cs: Seq<DeckCell>, i: int)
    requires
        0 <= i <= cs.len(),
        forall|k: int| 0 <= k < cs.len() ==> (#[trigger] cs[k]).params@.len() == 0,
    ensures
        params_all(cs, i) == (Ok::<(), ErrorView>(()), Seq::<NoteView>::empty()),
    decreases cs.len() - i,
{
    if i < cs.len() {
        lemma_params_none(cs, i + 1);
        assert(cs[i].params@.map_values(|p: String| p@).len() == 0);
        assert(Seq::<NoteView>::empty() + Seq::<NoteView>::empty() =~= Seq::<NoteView>::empty());
    }
}

proof fn lemma_surfs_direct(st: PlanView, cs: Seq<DeckSurface>, i: int)
    requires
        0 <= i <= cs.len(),
        forall|k: int| 0 <= k < cs.len() ==> {
            &&& (#[trigger] cs[k]).transform is None
            &&& direct_map(cs[k].card.kind) is Some
        },
    ensures
        surfs_step(st, cs, i).0 is Ok,
        surfs_step(st, cs, i).1.macros == st.macros,
        surfs_step(st, cs, i).1.notes == st.notes,
    decreases cs.len() - i,
{
    if i < cs.len() {
        let c = cs[i];
        assert(c.transform is None && direct_map(c.card.kind) is Some);
        let (r, s1) = surf_step(st, c);
        assert(r is Ok && s1.macros == st.macros && s1.notes == st.notes);
        lemma_surfs_direct(s1, cs, i + 1);
    }
}

proof fn lemma_cells_plain(env: EnvView, st: StateView, i: int)
    requires
        0 <= i <= env.cells.len(),
        forall|k: int| 0 <= k < env.cells.len() ==> plain(env, #[trigger] env.cells[k].1),
    ensures
        cells_step(env, st, i) == (
            Ok::<Seq<(u32, Seq<char>)>, ErrorView>(Seq::new(
                (env.cells.len() - i) as nat,
                |j: int| (env.cells[i + j].0, rendered(as_region(env.cells[i + j].1))),
            )),
            st,
        ),
    decreases env.cells.len() - i,
{
    if i < env.cells.len() {
        lemma_plain_region_lossless(env, st, env.cells[i].0, env.cells[i].1);
        lemma_cells_plain(env, st, i + 1);
        let rest = Seq::new(
            (env.cells.len() - (i + 1)) as nat,
            |j: int| (env.cells[i + 1 + j].0, rendered(as_region(env.cells[i + 1 + j].1))),
        );
        assert(seq![(env.cells[i].0, rendered(as_region(env.cells[i].1)))] + rest =~= Seq::new(
            (env.cells.len() - i) as nat,
            |j: int| (env.cells[i + j].0, rendered(as_region(env.cells[i + j].1))),
        ));
    } else {
        assert(Seq::new(0 as nat, |j: int| (env.cells[i + j].0, rendered(as_region(env.cells[i + j].1))))
            =~= Seq::<(u32, Seq<char>)>::empty());
    }
}

proof fn lemma_periodic_none(fl: Seq<SurfaceFlags>)
    requires
        forall|k: int| 0 <= k < fl.len() ==> (#[trigger] fl[k]).periodic is None,
    ensures
        periodic_map(fl) == Seq::<(u32, u32)>::empty(),
    decreases fl.len(),
{
    if fl.len() > 0 {
        assert(fl.last() == fl[fl.len() - 1]);
        lemma_periodic_none(fl.drop_last());
    }
}

/// Planning is lossless on plain decks (see [`plain_deck`]): the plan has
/// an empty drift report, each cell's region rendered literal for literal,
/// no universe, fill or lattice, and no boundary condition on any surface.
pub proof fn lemma_plain_deck_lossless(d: OpenmcDeck, rs: Seq<(u32, ErrorView)>)
    requires
        plain_deck(d),
    ensures
        openmc_outcome(d, rs) is Ok,
        openmc_outcome(d, rs)->Ok_0.drift.len() == 0,
        openmc_outcome(d, rs)->Ok_0.cells.len() == d.cells@.len(),
        forall|i: int| 0 <= i < d.cells@.len() ==> {
            let c = #[trigger] openmc_outcome(d, rs)->Ok_0.cells[i];
            &&& c.region == rendered(as_region(geom_view(d.cells@[i].geom)))
            &&& c.universe == 0
            &&& c.fill is None
            &&& c.lattice is None
        },
        forall|j: int| 0 <= j < openmc_outcome(d, rs)->Ok_0.boundaries.len() ==> (
            #[trigger] openmc_outcome(d, rs)->Ok_0.boundaries[j]).boundary is None,
{
    lemma_params_none(d.cells@, 0);
    assert(data_cards_step(d.data@, 0) == (Ok::<(), ErrorView>(()), Seq::<NoteView>::empty()));
    assert(universe_plan(d.lattices@, d.universes@, d.fills@, cell_nums(d.cells@)) is Ok);
    let up = universe_plan(d.lattices@, d.universes@, d.fills@, cell_nums(d.cells@))->Ok_0;
    assert(up.lattices =~= Seq::<Result<LatticePlanView, ErrorView>>::empty());
    assert(up.universes =~= Seq::<(u32, u32)>::empty());
    assert(up.fills =~= Seq::<(u32, u32)>::empty());
    assert(up.notes =~= Seq::<NoteView>::empty());
    assert(lattice_stage(up.lattices, rs, 0) == (Ok::<(), ErrorView>(()), Seq::<NoteView>::empty()));
    let nums = card_nums(d.surfs@);
    let st0 = PlanView {
        direct: Seq::empty(),
        macros: Seq::empty(),
        next_id: (crate::universe::seq_max(nums) + 1) as u32,
        notes: Seq::empty(),
    };
    lemma_surfs_direct(st0, d.surfs@, 0);
    let sp = surface_pass(d.surfs@).1;
    assert(sp.macros == Seq::<(u32, ExpansionView)>::empty());
    let env = region_env(d, sp.macros);
    assert(env == region_env(d, Seq::empty()));
    assert forall|k: int| 0 <= k < env.cells.len() implies plain(env, #[trigger] env.cells[k].1) by {
        assert(env.cells[k].1 == geom_view(d.cells@[k].geom));
    }
    let est = StateView { forced: Seq::empty(), notes: Seq::empty() };
    lemma_cells_plain(env, est, 0);
    let fl = flags_of(d.surfs@);
    assert forall|k: int| 0 <= k < fl.len() implies (#[trigger] fl[k]).periodic is None by {
        assert(fl[k].periodic == d.surfs@[k].periodic);
    }
    lemma_periodic_none(fl);
    let known = emitted(sp.direct, sp.macros);
    assert(min_missing(Seq::<u32>::empty(), known) is None);
    assert forall|id: u32| !is_reflective(fl, Seq::<u32>::empty(), id) by {
        if exists|i: int| 0 <= i < fl.len() && (#[trigger] fl[i]).num == id && fl[i].reflecting {
            let i = choose|i: int| 0 <= i < fl.len() && (#[trigger] fl[i]).num == id && fl[i].reflecting;
            assert(fl[i].reflecting == d.surfs@[i].reflecting);
        }
    }
    let v = openmc_outcome(d, rs)->Ok_0;
    assert(v.drift =~= Seq::<(DriftScope, NoteView)>::empty());
}

} // verus!
