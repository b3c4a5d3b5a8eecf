//! The plan of a GDML geometry for an MCNP CSG deck: which solid each
//! surface card becomes, the refusals of every pass, and the drift report.
//! The plan stops there: solid dimensions, placements and the boolean
//! solid trees are floating-point geometry that this crate does not write.

use vstd::prelude::*;
use crate::drift::{DriftEntry, DriftScope, DriftTable};
use crate::expand::{DeckSurface, single_axis, card_nums};
use crate::openmc::{
    DeckCell, OpenmcDeck, front_outcome, plan_front, refusal_views, tagged, tag, cell_geometries, numbers_of_surfaces, cell_nums,
    lattice_id, lattice_of, lattice_stage,
};
use crate::region::{
    GeomExpr, GeomView, geom_view, geom_views, abs_id, cell_region, flat, lits, complement_note, find_cell, surface_id, is_flat,
    collect_lits, lemma_geom_views_len,
};
use crate::serpent::cell_trees;
use crate::surface::{Coef, SurfKind, SurfaceCard, named_axis, on_axis_sphere};
use crate::text::{dec, append_str, append_dec, string_from_chars};
use crate::universe::{note_view, NoteView, cell_note, numbers_fit, UniversePlan, LatticePlanView, universe_plan, get, get_entry};
use crate::order::{writing_order, ascending_positions};
use crate::xlate::{Error, ErrorView};

verus! {

/// The turn a solid's frame is placed with (angles in the right-hand sense).
#[derive(Debug, Clone, Copy, PartialEq, Eq, Structural)]
pub enum GdmlRotation {
    Identity,
    /// A quarter turn about `y`.
    QuarterAboutY,
    /// A quarter turn about `y` the other way.
    BackQuarterAboutY,
    /// A quarter turn about `x`.
    QuarterAboutX,
    /// A quarter turn about `x` the other way.
    BackQuarterAboutX,
    /// A half turn about `z`.
    HalfAboutZ,
}

/// The GDML solid a surface card becomes (coefficients by position on the
/// card).
#[derive(Debug, Clone, Copy, PartialEq, Eq, Structural)]
pub enum GdmlSolidMap {
    /// A half-space box bounded at the card's first coefficient across
    /// `axis` (0, 1, 2 for x, y, z).
    HalfSpace { axis: usize },
    /// An orb with its centre coordinates and radius.
    Orb { x: Coef, y: Coef, z: Coef, radius: Coef },
    /// An infinite tube of radius `Card(0)` along `z`, turned by `rotation`.
    Tube { rotation: GdmlRotation },
    /// The box between an `RPP` card's bounds.
    RppBox,
    /// The box of a `BOX` card whose first, second and third edge vectors
    /// run along these axes.
    EdgeBox { first: usize, second: usize, third: usize },
    /// An `RCC` along `axis`: a finite tube capped by two boxes, placed at
    /// the base with `rotation`.
    FiniteTube { axis: usize, rotation: GdmlRotation },
}

/// The frame turn of an `RCC` along `ax`, by the sign of its axis component.
pub open spec fn rcc_rotation(ax: int, ascending: bool) -> GdmlRotation {
    if ax == 0 {
        if ascending { GdmlRotation::QuarterAboutY } else { GdmlRotation::BackQuarterAboutY }
    } else if ax == 1 {
        if ascending { GdmlRotation::BackQuarterAboutX } else { GdmlRotation::QuarterAboutX }
    } else {
        if ascending { GdmlRotation::Identity } else { GdmlRotation::HalfAboutZ }
    }
}

/// Why GDML refuses a kind it has no solid for.
pub open spec fn gdml_refusal(num: u32, kind: SurfKind, keyword: Seq<char>) -> ErrorView {
    match kind {
        SurfKind::Rcc => ErrorView::MacrobodyOutOfScope(num, keyword,
            "only RCCs aligned with x, y, or z emit in gdml (canted cylinders have no exact GDML spelling)"@),
        SurfKind::McBox => ErrorView::MacrobodyOutOfScope(num, keyword,
            "gdml maps axis-aligned BOX edge vectors only (canted edges need arbitrary rotation composition)"@),
        SurfKind::P => ErrorView::UnsupportedSurface(num, keyword,
            "the 9-coefficient three-point plane has no exact GDML spelling (half-space boxes cover PX/PY/PZ only)"@),
        SurfKind::Kx | SurfKind::Ky | SurfKind::Kz => ErrorView::UnsupportedSurface(num, keyword,
            "the 5-coefficient cone (apex, slope, sheet selector) has no verified GDML cone/cone segment mapping"@),
        SurfKind::Sq | SurfKind::Gq => ErrorView::UnsupportedSurface(num, keyword,
            "the MCNP quadric coefficient ordering against GDML quadric-family solids is unverified"@),
        SurfKind::Tx | SurfKind::Ty | SurfKind::Tz => ErrorView::UnsupportedSurface(num, keyword,
            "the 6-coefficient torus ordering against GDML torus (rmin/rmax/r tor/r sect) is unverified"@),
        _ => ErrorView::MacrobodyOutOfScope(num, keyword,
            "gdml maps planes, spheres, on-axis cylinders, SPH/RPP/axis-aligned RCC and axis-aligned BOX only"@),
    }
}

/// The solid of a surface card, or its refusal: an `RCC` must run along
/// one axis (`rcc_nonzero`, with `rcc_ascending` the sign of that
/// component) and each `BOX` edge along one axis (`box_nonzero`).
pub open spec fn gdml_surface_map(
    num: u32,
    kind: SurfKind,
    keyword: Seq<char>,
    rcc_nonzero: Seq<bool>,
    rcc_ascending: bool,
    box_nonzero: Seq<Seq<bool>>,
) -> Result<GdmlSolidMap, ErrorView> {
    match kind {
        SurfKind::Px | SurfKind::X => Ok(GdmlSolidMap::HalfSpace { axis: 0 }),
        SurfKind::Py | SurfKind::Y => Ok(GdmlSolidMap::HalfSpace { axis: 1 }),
        SurfKind::Pz | SurfKind::Z => Ok(GdmlSolidMap::HalfSpace { axis: 2 }),
        SurfKind::So => Ok(GdmlSolidMap::Orb { x: Coef::Zero, y: Coef::Zero, z: Coef::Zero, radius: Coef::Card(0) }),
        SurfKind::Sx => Ok(GdmlSolidMap::Orb { x: Coef::Card(0), y: Coef::Zero, z: Coef::Zero, radius: Coef::Card(1) }),
        SurfKind::Sy => Ok(GdmlSolidMap::Orb { x: Coef::Zero, y: Coef::Card(0), z: Coef::Zero, radius: Coef::Card(1) }),
        SurfKind::Sz => Ok(GdmlSolidMap::Orb { x: Coef::Zero, y: Coef::Zero, z: Coef::Card(0), radius: Coef::Card(1) }),
        SurfKind::S | SurfKind::Sph => Ok(GdmlSolidMap::Orb { x: Coef::Card(0), y: Coef::Card(1), z: Coef::Card(2), radius: Coef::Card(3) }),
        SurfKind::Cx => Ok(GdmlSolidMap::Tube { rotation: GdmlRotation::QuarterAboutY }),
        SurfKind::Cy => Ok(GdmlSolidMap::Tube { rotation: GdmlRotation::BackQuarterAboutX }),
        SurfKind::Cz => Ok(GdmlSolidMap::Tube { rotation: GdmlRotation::Identity }),
        SurfKind::Rpp => Ok(GdmlSolidMap::RppBox),
        SurfKind::McBox => match (single_axis(box_nonzero[0]), single_axis(box_nonzero[1]), single_axis(box_nonzero[2])) {
            (Some(a), Some(b), Some(c)) => Ok(GdmlSolidMap::EdgeBox { first: a as usize, second: b as usize, third: c as usize }),
            _ => Err(gdml_refusal(num, kind, keyword)),
        },
        SurfKind::Rcc => match single_axis(rcc_nonzero) {
            Some(ax) => Ok(GdmlSolidMap::FiniteTube { axis: ax as usize, rotation: rcc_rotation(ax, rcc_ascending) }),
            None => Err(gdml_refusal(num, kind, keyword)),
        },
        _ => Err(gdml_refusal(num, kind, keyword)),
    }
}

/// In GDML an `SX`, `SY` or `SZ` card is an orb centred on the axis it
/// names, at the card's first value along that axis, with the card's second
/// value as radius; a plane card bounds a half-space across the axis it
/// names; an `RCC` along a single axis becomes a finite tube along that
/// axis, and a canted one is refused.
pub proof fn lemma_gdml_axis_solids(
    num: u32,
    kind: SurfKind,
    keyword: Seq<char>,
    rcc_nonzero: Seq<bool>,
    rcc_ascending: bool,
    box_nonzero: Seq<Seq<bool>>,
)
    ensures
        ({
            let r = gdml_surface_map(num, kind, keyword, rcc_nonzero, rcc_ascending, box_nonzero);
            &&& kind == SurfKind::Sx || kind == SurfKind::Sy || kind == SurfKind::Sz ==>
                ({
                    &&& r matches Ok(GdmlSolidMap::Orb { x, y, z, radius })
                    &&& on_axis_sphere(seq![x, y, z, radius], named_axis(kind))
                })
            &&& kind == SurfKind::Px || kind == SurfKind::X || kind == SurfKind::Py || kind == SurfKind::Y
                || kind == SurfKind::Pz || kind == SurfKind::Z ==>
                r == Ok::<GdmlSolidMap, ErrorView>(GdmlSolidMap::HalfSpace { axis: named_axis(kind) as usize })
            &&& kind == SurfKind::Rcc ==> match single_axis(rcc_nonzero) {
                Some(ax) => {
                    &&& r matches Ok(GdmlSolidMap::FiniteTube { axis, rotation: _ })
                    &&& axis == ax
                },
                None => r is Err,
            }
        }),
{
    let r = gdml_surface_map(num, kind, keyword, rcc_nonzero, rcc_ascending, box_nonzero);
    if kind == SurfKind::Sx || kind == SurfKind::Sy || kind == SurfKind::Sz {
        if let Ok(GdmlSolidMap::Orb { x, y, z, radius }) = r {
            assert(seq![x, y, z, radius][0] == x);
            assert(seq![x, y, z, radius][1] == y);
            assert(seq![x, y, z, radius][2] == z);
            assert(seq![x, y, z, radius][3] == radius);
        }
    }
}

fn axis_of(nonzero: [bool; 3]) -> (r: Option<usize>)
    ensures
        match (r, single_axis(nonzero@)) {
            (Some(a), Some(b)) => a == b,
            (None, None) => true,
            _ => false,
        },
{
    if nonzero[0] && !nonzero[1] && !nonzero[2] {
        Some(0)
    } else if !nonzero[0] && nonzero[1] && !nonzero[2] {
        Some(1)
    } else if !nonzero[0] && !nonzero[1] && nonzero[2] {
        Some(2)
    } else {
        None
    }
}

fn gdml_refuse(card: &SurfaceCard, detail: &str, macrobody: bool) -> (r: Error)
    ensures
        r@ == (if macrobody {
            ErrorView::MacrobodyOutOfScope(card.num, card.keyword@, detail@)
        } else {
            ErrorView::UnsupportedSurface(card.num, card.keyword@, detail@)
        }),
{
    if macrobody {
        Error::MacrobodyOutOfScope { surf: card.num, kind: card.keyword.clone(), detail: detail.to_string() }
    } else {
        Error::UnsupportedSurface { surf: card.num, kind: card.keyword.clone(), detail: detail.to_string() }
    }
}

/// The GDML solid of one surface card, or its refusal (see
/// [`gdml_surface_map`]).
pub fn map_gdml_surface(card: &SurfaceCard, rcc_nonzero: [bool; 3], rcc_ascending: bool, box_nonzero: [[bool; 3]; 3]) -> (r: Result<GdmlSolidMap, Error>)
    ensures
        match (r, gdml_surface_map(card.num, card.kind, card.keyword@, rcc_nonzero@, rcc_ascending, box_nonzero@.map_values(|e: [bool; 3]| e@))) {
            (Ok(m), Ok(n)) => m == n,
            (Err(e), Err(v)) => e@ == v,
            _ => false,
        },
{
    let ghost bx = box_nonzero@.map_values(|e: [bool; 3]| e@);
    match card.kind {
        SurfKind::Px | SurfKind::X => Ok(GdmlSolidMap::HalfSpace { axis: 0 }),
        SurfKind::Py | SurfKind::Y => Ok(GdmlSolidMap::HalfSpace { axis: 1 }),
        SurfKind::Pz | SurfKind::Z => Ok(GdmlSolidMap::HalfSpace { axis: 2 }),
        SurfKind::So => Ok(GdmlSolidMap::Orb { x: Coef::Zero, y: Coef::Zero, z: Coef::Zero, radius: Coef::Card(0) }),
        SurfKind::Sx => Ok(GdmlSolidMap::Orb { x: Coef::Card(0), y: Coef::Zero, z: Coef::Zero, radius: Coef::Card(1) }),
        SurfKind::Sy => Ok(GdmlSolidMap::Orb { x: Coef::Zero, y: Coef::Card(0), z: Coef::Zero, radius: Coef::Card(1) }),
        SurfKind::Sz => Ok(GdmlSolidMap::Orb { x: Coef::Zero, y: Coef::Zero, z: Coef::Card(0), radius: Coef::Card(1) }),
        SurfKind::S | SurfKind::Sph => Ok(GdmlSolidMap::Orb { x: Coef::Card(0), y: Coef::Card(1), z: Coef::Card(2), radius: Coef::Card(3) }),
        SurfKind::Cx => Ok(GdmlSolidMap::Tube { rotation: GdmlRotation::QuarterAboutY }),
        SurfKind::Cy => Ok(GdmlSolidMap::Tube { rotation: GdmlRotation::BackQuarterAboutX }),
        SurfKind::Cz => Ok(GdmlSolidMap::Tube { rotation: GdmlRotation::Identity }),
        SurfKind::Rpp => Ok(GdmlSolidMap::RppBox),
        SurfKind::McBox => {
            assert(bx[0] == box_nonzero[0]@ && bx[1] == box_nonzero[1]@ && bx[2] == box_nonzero[2]@);
            match (axis_of(box_nonzero[0]), axis_of(box_nonzero[1]), axis_of(box_nonzero[2])) {
                (Some(a), Some(b), Some(c)) => Ok(GdmlSolidMap::EdgeBox { first: a, second: b, third: c }),
                _ => Err(gdml_refuse(
                    card,
                    "gdml maps axis-aligned BOX edge vectors only (canted edges need arbitrary rotation composition)",
                    true,
                )),
            }
        },
        SurfKind::Rcc => match axis_of(rcc_nonzero) {
            Some(ax) => {
                let rotation = if ax == 0 {
                    if rcc_ascending { GdmlRotation::QuarterAboutY } else { GdmlRotation::BackQuarterAboutY }
                } else if ax == 1 {
                    if rcc_ascending { GdmlRotation::BackQuarterAboutX } else { GdmlRotation::QuarterAboutX }
                } else {
                    if rcc_ascending { GdmlRotation::Identity } else { GdmlRotation::HalfAboutZ }
                };
                Ok(GdmlSolidMap::FiniteTube { axis: ax, rotation })
            },
            None => Err(gdml_refuse(card, "only RCCs aligned with x, y, or z emit in gdml (canted cylinders have no exact GDML spelling)", true)),
        },
        SurfKind::P => Err(gdml_refuse(
            card,
            "the 9-coefficient three-point plane has no exact GDML spelling (half-space boxes cover PX/PY/PZ only)",
            false,
        )),
        SurfKind::Kx | SurfKind::Ky | SurfKind::Kz => Err(gdml_refuse(
            card,
            "the 5-coefficient cone (apex, slope, sheet selector) has no verified GDML cone/cone segment mapping",
            false,
        )),
        SurfKind::Sq | SurfKind::Gq => Err(gdml_refuse(
            card,
            "the MCNP quadric coefficient ordering against GDML quadric-family solids is unverified",
            false,
        )),
        SurfKind::Tx | SurfKind::Ty | SurfKind::Tz => Err(gdml_refuse(
            card,
            "the 6-coefficient torus ordering against GDML torus (rmin/rmax/r tor/r sect) is unverified",
            false,
        )),
        SurfKind::Rec | SurfKind::Wed | SurfKind::Rhp | SurfKind::Hex | SurfKind::Trc | SurfKind::Ell | SurfKind::Arb => Err(gdml_refuse(
            card,
            "gdml maps planes, spheres, on-axis cylinders, SPH/RPP/axis-aligned RCC and axis-aligned BOX only",
            true,
        )),
    }
}


/// The refusal of the first surface card, from `i` on, that GDML cannot
/// carry: one that links a transform, is reflecting, or has a periodic
/// pointer (checked in that order).
pub open spec fn gdml_card_error(cs: Seq<DeckSurface>, i: int) -> Option<ErrorView>
    decreases cs.len() - i,
{
    if i < 0 || i >= cs.len() {
        None
    } else {
        match cs[i].transform {
            Some(tr) => Some(ErrorView::TransformOutOfScope(
                "surface "@ + dec(cs[i].card.num as nat) + " links transform "@ + dec(tr as nat),
            )),
            None => if cs[i].reflecting {
                Some(ErrorView::GdmlBoundaryOutOfScope(cs[i].card.num, "reflective surface card has no gdml spelling"@))
            } else if cs[i].periodic is Some {
                Some(ErrorView::GdmlBoundaryOutOfScope(cs[i].card.num, "periodic surface pointer has no gdml spelling"@))
            } else {
                gdml_card_error(cs, i + 1)
            },
        }
    }
}

/// The solid of a deck surface card.
pub open spec fn card_solid(c: DeckSurface) -> Result<GdmlSolidMap, ErrorView> {
    gdml_surface_map(
        c.card.num,
        c.card.kind,
        c.card.keyword@,
        c.rcc_nonzero@,
        c.rcc_ascending,
        c.box_nonzero@.map_values(|e: [bool; 3]| e@),
    )
}

/// The solids of the surfaces `cs[i..]`, or the first refusal.
pub open spec fn gdml_surfaces(cs: Seq<DeckSurface>, i: int) -> Result<Seq<(u32, GdmlSolidMap)>, ErrorView>
    decreases cs.len() - i,
{
    if i < 0 || i >= cs.len() {
        Ok(Seq::empty())
    } else {
        match card_solid(cs[i]) {
            Err(e) => Err(e),
            Ok(m) => match gdml_surfaces(cs, i + 1) {
                Err(e) => Err(e),
                Ok(rest) => Ok(seq![(cs[i].card.num, m)] + rest),
            },
        }
    }
}

/// The note of a surface written as a named boolean solid.
pub open spec fn rcc_solid_note(num: u32) -> NoteView {
    NoteView {
        target: num,
        action: "macrobody-expansion"@,
        reason: "RCC "@ + dec(num as nat) + " emitted as named boolean solid sl"@ + dec(num as nat) + " (finite tube plus cap boxes)"@,
    }
}

/// The notes of the `RCC` cards among `cs[..n]`, in card order.
pub open spec fn rcc_notes(cs: Seq<DeckSurface>, n: int) -> Seq<NoteView>
    decreases n,
{
    if n <= 0 || n > cs.len() {
        Seq::empty()
    } else if cs[n - 1].card.kind == SurfKind::Rcc {
        rcc_notes(cs, n - 1).push(rcc_solid_note(cs[n - 1].card.num))
    } else {
        rcc_notes(cs, n - 1)
    }
}

/// The refusal of one literal of cell `cell`: a reflecting marker, or a
/// surface that is no deck surface.
pub open spec fn gdml_lit(known: Seq<u32>, cell: u32, surf: i32, refl: bool) -> Option<ErrorView> {
    if refl {
        Some(ErrorView::GdmlBoundaryOutOfScope(abs_id(surf), "cell "@ + dec(cell as nat) + " `*` marker has no gdml spelling"@))
    } else if !known.contains(abs_id(surf)) {
        Some(ErrorView::UnknownSurface(cell, abs_id(surf)))
    } else {
        None
    }
}

/// The first refusal among the negated literals `ls[i..]`.
pub open spec fn gdml_negs(known: Seq<u32>, cell: u32, ls: Seq<(i32, bool)>, i: int) -> Option<ErrorView>
    decreases ls.len() - i,
{
    if i < 0 || i >= ls.len() {
        None
    } else {
        match gdml_lit(known, cell, -ls[i].0 as i32, ls[i].1) {
            Some(e) => Some(e),
            None => gdml_negs(known, cell, ls, i + 1),
        }
    }
}

/// A `#target` complement in cell `cell`: the target must be a deck cell
/// with a flat region, whose negated literals must resolve.
pub open spec fn gdml_complement(known: Seq<u32>, cells: Seq<(u32, GeomView)>, cell: u32, target: i32) -> (Option<ErrorView>, Seq<NoteView>) {
    if target <= 0 {
        (Some(ErrorView::UnknownCell(cell, target)), Seq::empty())
    } else {
        match cell_region(cells, target as u32) {
            None => (Some(ErrorView::UnknownCell(cell, target)), Seq::empty()),
            Some(g) => if !flat(g) {
                (Some(ErrorView::ComplementTooComplex(cell, target)), Seq::empty())
            } else {
                (gdml_negs(known, cell, lits(g), 0), seq![complement_note(cell, target)])
            },
        }
    }
}

/// The region pass of one expression of cell `cell`: its first refusal,
/// left to right, and its complement notes.
pub open spec fn gdml_expr(known: Seq<u32>, cells: Seq<(u32, GeomView)>, cell: u32, g: GeomView) -> (Option<ErrorView>, Seq<NoteView>)
    decreases g, 0int,
{
    match g {
        GeomView::HalfSpace(s, r) => (gdml_lit(known, cell, s, r), Seq::empty()),
        GeomView::Intersect(ps) => gdml_parts(known, cells, cell, ps, 0),
        GeomView::Union(a, b) => {
            let (ea, na) = gdml_expr(known, cells, cell, *a);
            match ea {
                Some(e) => (Some(e), na),
                None => {
                    let (eb, nb) = gdml_expr(known, cells, cell, *b);
                    (eb, na + nb)
                },
            }
        },
        GeomView::Complement(a) => match *a {
            GeomView::HalfSpace(t, _) => gdml_complement(known, cells, cell, t),
            _ => (Some(ErrorView::ComplementTooComplex(cell, -1i32)), Seq::empty()),
        },
    }
}

/// The region pass of the operands `ps[i..]` of an intersection.
pub open spec fn gdml_parts(known: Seq<u32>, cells: Seq<(u32, GeomView)>, cell: u32, ps: Seq<GeomView>, i: int) -> (Option<ErrorView>, Seq<NoteView>)
    decreases ps, ps.len() - i,
{
    if i < 0 || i >= ps.len() {
        (None, Seq::empty())
    } else {
        let (e, n) = gdml_expr(known, cells, cell, ps[i]);
        match e {
            Some(x) => (Some(x), n),
            None => {
                let (e2, n2) = gdml_parts(known, cells, cell, ps, i + 1);
                (e2, n + n2)
            },
        }
    }
}

/// The region pass of the cells `cells[i..]`.
pub open spec fn gdml_cells(known: Seq<u32>, cells: Seq<(u32, GeomView)>, i: int) -> (Option<ErrorView>, Seq<NoteView>)
    decreases cells.len() - i,
{
    if i < 0 || i >= cells.len() {
        (None, Seq::empty())
    } else {
        let (e, n) = gdml_expr(known, cells, cells[i].0, cells[i].1);
        match e {
            Some(x) => (Some(x), n),
            None => {
                let (e2, n2) = gdml_cells(known, cells, i + 1);
                (e2, n + n2)
            },
        }
    }
}

/// The `halfspace-bounded` deck note with its reason.
pub open spec fn bound_note(reason: Seq<char>) -> NoteView {
    NoteView { target: 0, action: "halfspace-bounded"@, reason }
}


/// The cells of the planned lattices, in plan order.
pub open spec fn lattice_cells(ls: Seq<Result<LatticePlanView, ErrorView>>) -> Seq<u32> {
    ls.map_values(|r: Result<LatticePlanView, ErrorView>| match r {
        Ok(lp) => lp.cell,
        Err(_) => 0,
    })
}

/// The number of elements of a lattice.
pub open spec fn element_count(lp: LatticePlanView) -> nat {
    (lp.counts[0] * lp.counts[1] * lp.counts[2]) as nat
}

/// The `lattice-expanded` note of a lattice.
pub open spec fn expanded_note(lp: LatticePlanView) -> NoteView {
    NoteView {
        target: lp.cell,
        action: "lattice-expanded"@,
        reason: "cell "@ + dec(lp.cell as nat) + " rectangular lattice expanded to "@ + dec(element_count(lp))
            + " physvol placements of element assemblies"@,
    }
}

/// The `lattice-expanded` notes, by ascending lattice cell.
pub open spec fn expanded_notes(ls: Seq<Result<LatticePlanView, ErrorView>>) -> Seq<NoteView> {
    let o = writing_order(lattice_cells(ls), ls.len() as int);
    Seq::new(ls.len(), |k: int| expanded_note(ls[o[k] as int]->Ok_0))
}

/// Material `0` and the materials of the cells `cs[..n]` that no universe
/// or lattice fills, in cell order.
pub open spec fn stub_materials(cs: Seq<DeckCell>, up: crate::universe::PlanView, n: int) -> Seq<u32>
    decreases n,
{
    if n <= 0 || n > cs.len() {
        seq![0u32]
    } else if get(up.fills, cs[n - 1].num) is None && lattice_id(up.lattices, cs[n - 1].num) is None {
        stub_materials(cs, up, n - 1).push(cs[n - 1].mat)
    } else {
        stub_materials(cs, up, n - 1)
    }
}

/// The values of `s` listed by `o[..n]`, a value equal to the one before
/// it left out.
pub open spec fn distinct_along(s: Seq<u32>, o: Seq<usize>, n: int) -> Seq<u32>
    decreases n,
{
    if n <= 0 || n > o.len() {
        Seq::empty()
    } else {
        let prev = distinct_along(s, o, n - 1);
        let v = s[o[n - 1] as int];
        if prev.len() > 0 && prev.last() == v {
            prev
        } else {
            prev.push(v)
        }
    }
}

/// `mat<m>` for the first `n` materials, separated by single spaces.
pub open spec fn stub_list(ms: Seq<u32>, n: int) -> Seq<char>
    decreases n,
{
    if n <= 0 || n > ms.len() {
        Seq::empty()
    } else if n == 1 {
        "mat"@ + dec(ms[0] as nat)
    } else {
        stub_list(ms, n - 1) + " mat"@ + dec(ms[n - 1] as nat)
    }
}

/// The `material-stub` deck note naming the materials `ms`.
pub open spec fn stub_note(ms: Seq<u32>) -> NoteView {
    NoteView {
        target: 0,
        action: "material-stub"@,
        reason: "material stubs ("@ + stub_list(ms, ms.len() as int) + ") emitted with placeholder D/atom values; replace them with real definitions"@,
    }
}

/// The distinct stub materials, ascending.
pub open spec fn stub_set(cs: Seq<DeckCell>, up: crate::universe::PlanView) -> Seq<u32> {
    let ms = stub_materials(cs, up, cs.len() as int);
    distinct_along(ms, writing_order(ms, ms.len() as int), ms.len() as int)
}

/// The planned GDML geometry as values.
pub struct GdmlView {
    pub solids: Seq<(u32, GdmlSolidMap)>,
    pub universes: crate::universe::PlanView,
    pub drift: Seq<(DriftScope, NoteView)>,
}

/// The GDML plan of a deck whose lattice cells `rs` have bounds that
/// cannot be read, with `bound_reason` the reason text of the note on the
/// half-space cutoff: the shared passes, the surface cards (transforms,
/// reflecting cards and periodic pointers refused), the surface solids,
/// then the cell regions, the first refusal winning. The drift adds the
/// cutoff note, a note per `RCC` solid, the complement notes, a note per
/// lattice expanded to element placements (by ascending cell) and the note
/// on the material stubs (material `0` and those of the cells no universe
/// or lattice fills, distinct and ascending).
pub open spec fn gdml_outcome(d: OpenmcDeck, rs: Seq<(u32, ErrorView)>, bound_reason: Seq<char>) -> Result<GdmlView, ErrorView> {
    match front_outcome(d, rs) {
        Err(e) => Err(e),
        Ok(f) => match gdml_card_error(d.surfs@, 0) {
            Some(e) => Err(e),
            None => match gdml_surfaces(d.surfs@, 0) {
                Err(e) => Err(e),
                Ok(ss) => {
                    let (re, rn) = gdml_cells(card_nums(d.surfs@), cell_trees(d.cells@), 0);
                    match re {
                        Some(e) => Err(e),
                        None => Ok(GdmlView {
                            solids: ss,
                            universes: f.universes,
                            drift: f.drift + seq![(DriftScope::Deck, bound_note(bound_reason))] + tag(
                                DriftScope::Surface,
                                rcc_notes(d.surfs@, d.surfs@.len() as int),
                            ) + tag(DriftScope::Cell, rn) + tag(DriftScope::Cell, expanded_notes(f.universes.lattices)) + seq![
                                (DriftScope::Deck, stub_note(stub_set(d.cells@, f.universes))),
                            ],
                        }),
                    }
                },
            },
        },
    }
}

/// The plan of a GDML geometry.
#[derive(Debug)]
pub struct GdmlPlan {
    /// The solid of each surface card, in deck order.
    pub solids: Vec<(u32, GdmlSolidMap)>,
    /// Universes, fills and lattices (every lattice planned).
    pub universes: UniversePlan,
    pub drift: DriftTable,
}

/// `p` is the plan `v`.
pub open spec fn gdml_plan_is(p: GdmlPlan, v: GdmlView) -> bool {
    &&& p.solids@ == v.solids
    &&& p.universes@ == v.universes
    &&& tagged(p.drift.entries@) == v.drift
}

/// The conditions of [`plan_gdml`]: cell, universe and fill numbers that
/// leave room for lattice ids, lattice element counts that fit a `u64`,
/// and no literal `i32::MIN` in a flat cell region (a complement negates
/// each of its literals).
pub open spec fn gdml_fits(d: OpenmcDeck) -> bool {
    &&& numbers_fit(cell_nums(d.cells@), d.universes@, d.fills@)
    &&& universe_plan(d.lattices@, d.universes@, d.fills@, cell_nums(d.cells@)) matches Ok(up) ==> forall|k: int|
        0 <= k < up.lattices.len() ==> (#[trigger] up.lattices[k] matches Ok(lp) ==> element_count(lp) <= u64::MAX)
    &&& forall|k: int, j: int| 0 <= k < d.cells@.len() && flat(geom_view(d.cells@[k].geom)) && 0 <= j < lits(geom_view(d.cells@[k].geom)).len()
        ==> #[trigger] lits(geom_view(d.cells@[k].geom))[j].0 != i32::MIN
}



fn count_fits(lp: &crate::universe::LatticePlan) -> (r: bool)
    ensures
        r == (element_count(lp@) <= u64::MAX),
{
    let a = lp.counts[0] as u128;
    let b = lp.counts[1] as u128;
    let c = lp.counts[2] as u128;
    assert(a * b <= u128::MAX) by (nonlinear_arith)
        requires
            a <= u64::MAX,
            b <= u64::MAX,
    {
        assert(a * b <= (u64::MAX as int) * (u64::MAX as int));
    }
    let ab = a * b;
    if c == 0 {
        assert(a * b * c == 0) by (nonlinear_arith)
            requires
                c == 0,
        ;
        return true;
    }
    if ab > u64::MAX as u128 {
        assert(a * b * c >= a * b) by (nonlinear_arith)
            requires
                c >= 1,
                a >= 0,
                b >= 0,
        ;
        return false;
    }
    assert(ab * c <= u128::MAX) by (nonlinear_arith)
        requires
            ab <= u64::MAX,
            c <= u64::MAX,
    {
        assert(ab * c <= (u64::MAX as int) * (u64::MAX as int));
    }
    assert(ab * c == a * b * c) by (nonlinear_arith)
        requires
            ab == a * b,
    ;
    ab * c <= u64::MAX as u128
}

/// Whether a deck meets [`gdml_fits`], the conditions of [`plan_gdml`].
#[verifier::loop_isolation(false)]
pub fn check_gdml_fits(deck: &OpenmcDeck) -> (r: bool)
    ensures
        r == gdml_fits(*deck),
{
    if !crate::openmc::check_numbers_fit(deck) {
        return false;
    }
    let nums = crate::openmc::numbers_of_cells(&deck.cells);
    match crate::universe::resolve_universes(&deck.lattices, &deck.universes, &deck.fills, &nums) {
        Err(_) => {},
        Ok(up) => {
            let ghost upv = up@;
            let mut k: usize = 0;
            while k < up.lattices.len()
                invariant
                    k <= up.lattices.len(),
                    upv == up@,
                    forall|j: int| 0 <= j < k ==> (#[trigger] upv.lattices[j] matches Ok(lp) ==> element_count(lp) <= u64::MAX),
                decreases up.lattices.len() - k,
            {
                assert(upv.lattices[k as int] == crate::universe::lattice_result_view(up.lattices@[k as int]));
                match &up.lattices[k] {
                    Ok(lp) => {
                        if !count_fits(lp) {
                            return false;
                        }
                    },
                    Err(_) => {},
                }
                k = k + 1;
            }
        },
    }
    let mut c: usize = 0;
    while c < deck.cells.len()
        invariant
            c <= deck.cells.len(),
            forall|k: int, j: int| 0 <= k < c && flat(geom_view(deck.cells@[k].geom)) && 0 <= j < lits(geom_view(deck.cells@[k].geom)).len()
                ==> #[trigger] lits(geom_view(deck.cells@[k].geom))[j].0 != i32::MIN,
        decreases deck.cells.len() - c,
    {
        let g = &deck.cells[c].geom;
        if is_flat(g) {
            let mut ls: Vec<(i32, bool)> = Vec::new();
            collect_lits(g, &mut ls);
            assert(ls@ =~= lits(geom_view(*g)));
            let mut j: usize = 0;
            while j < ls.len()
                invariant
                    j <= ls.len(),
                    ls@ == lits(geom_view(*g)),
                    forall|t: int| 0 <= t < j ==> #[trigger] ls@[t].0 != i32::MIN,
                decreases ls.len() - j,
            {
                if ls[j].0 == i32::MIN {
                    assert(deck.cells@[c as int].geom == *g);
                    assert(lits(geom_view(deck.cells@[c as int].geom))[j as int].0 == i32::MIN);
                    return false;
                }
                j = j + 1;
            }
        }
        c = c + 1;
    }
    true
}

fn gdml_card_check(surfs: &Vec<DeckSurface>) -> (r: Result<(), Error>)
    ensures
        match (r, gdml_card_error(surfs@, 0)) {
            (Ok(()), None) => true,
            (Err(e), Some(v)) => e@ == v,
            _ => false,
        },
{
    let mut i: usize = 0;
    while i < surfs.len()
        invariant
            i <= surfs.len(),
            gdml_card_error(surfs@, 0) == gdml_card_error(surfs@, i as int),
        decreases surfs.len() - i,
    {
        if let Some(tr) = surfs[i].transform {
            let mut d: Vec<char> = Vec::new();
            append_str(&mut d, "surface ");
            append_dec(&mut d, surfs[i].card.num as u64);
            append_str(&mut d, " links transform ");
            append_dec(&mut d, tr as u64);
            let detail = string_from_chars(d.as_slice());
            return Err(Error::TransformOutOfScope { detail });
        }
        if surfs[i].reflecting {
            return Err(Error::GdmlBoundaryOutOfScope {
                surf: surfs[i].card.num,
                detail: "reflective surface card has no gdml spelling".to_string(),
            });
        }
        if surfs[i].periodic.is_some() {
            return Err(Error::GdmlBoundaryOutOfScope {
                surf: surfs[i].card.num,
                detail: "periodic surface pointer has no gdml spelling".to_string(),
            });
        }
        i = i + 1;
    }
    Ok(())
}

fn gdml_solids(surfs: &Vec<DeckSurface>) -> (r: Result<Vec<(u32, GdmlSolidMap)>, Error>)
    ensures
        match (r, gdml_surfaces(surfs@, 0)) {
            (Ok(v), Ok(w)) => v@ == w,
            (Err(e), Err(w)) => e@ == w,
            _ => false,
        },
{
    let mut out: Vec<(u32, GdmlSolidMap)> = Vec::new();
    let mut i: usize = 0;
    while i < surfs.len()
        invariant
            i <= surfs.len(),
            gdml_surfaces(surfs@, 0) == match gdml_surfaces(surfs@, i as int) {
                Err(e) => Err(e),
                Ok(rest) => Ok(out@ + rest),
            },
        decreases surfs.len() - i,
    {
        let c = &surfs[i];
        match map_gdml_surface(&c.card, c.rcc_nonzero, c.rcc_ascending, c.box_nonzero) {
            Err(e) => {
                return Err(e);
            },
            Ok(m) => {
                let ghost before = out@;
                out.push((c.card.num, m));
                proof {
                    match gdml_surfaces(surfs@, i + 1) {
                        Err(e) => {},
                        Ok(rest) => {
                            assert(before + (seq![(c.card.num, m)] + rest) =~= out@ + rest);
                        },
                    }
                }
            },
        }
        i = i + 1;
    }
    assert(out@ + Seq::empty() =~= out@);
    Ok(out)
}

fn holds_id(v: &Vec<u32>, x: u32) -> (r: bool)
    ensures
        r == v@.contains(x),
{
    let mut i: usize = 0;
    while i < v.len()
        invariant
            i <= v.len(),
            forall|k: int| 0 <= k < i ==> v@[k] != x,
        decreases v.len() - i,
    {
        if v[i] == x {
            assert(v@[i as int] == x);
            return true;
        }
        i = i + 1;
    }
    false
}

fn gdml_lit_check(known: &Vec<u32>, cell: u32, surf: i32, refl: bool) -> (r: Result<(), Error>)
    ensures
        match (r, gdml_lit(known@, cell, surf, refl)) {
            (Ok(()), None) => true,
            (Err(e), Some(v)) => e@ == v,
            _ => false,
        },
{
    let id = surface_id(surf);
    if refl {
        let mut d: Vec<char> = Vec::new();
        append_str(&mut d, "cell ");
        append_dec(&mut d, cell as u64);
        append_str(&mut d, " `*` marker has no gdml spelling");
        let detail = string_from_chars(d.as_slice());
        return Err(Error::GdmlBoundaryOutOfScope { surf: id, detail });
    }
    if !holds_id(known, id) {
        return Err(Error::UnknownSurface { cell, surf: id });
    }
    Ok(())
}

fn push_cell_note(out: &mut Vec<DriftEntry>, e: DriftEntry)
    requires
        e.scope == DriftScope::Cell,
    ensures
        tagged(final(out)@) == tagged(old(out)@) + tag(DriftScope::Cell, seq![note_view(e)]),
{
    out.push(e);
    assert(tagged(out@) =~= tagged(old(out)@) + tag(DriftScope::Cell, seq![note_view(e)]));
}

#[verifier::loop_isolation(false)]
fn gdml_complement_check(
    known: &Vec<u32>,
    cells: &Vec<(u32, GeomExpr)>,
    cell: u32,
    target: i32,
    out: &mut Vec<DriftEntry>,
) -> (r: Result<(), Error>)
    requires
        ({
            let cv = cells@.map_values(|c: (u32, GeomExpr)| (c.0, geom_view(c.1)));
            forall|k: int, j: int| 0 <= k < cv.len() && flat(cv[k].1) && 0 <= j < lits(cv[k].1).len() ==> #[trigger] lits(cv[k].1)[j].0
                != i32::MIN
        }),
    ensures
        ({
            let cv = cells@.map_values(|c: (u32, GeomExpr)| (c.0, geom_view(c.1)));
            let (e, ns) = gdml_complement(known@, cv, cell, target);
            match (r, e) {
                (Ok(()), None) => tagged(final(out)@) == tagged(old(out)@) + tag(DriftScope::Cell, ns),
                (Err(x), Some(v)) => x@ == v,
                _ => false,
            }
        }),
{
    let ghost cv = cells@.map_values(|c: (u32, GeomExpr)| (c.0, geom_view(c.1)));
    if target <= 0 {
        return Err(Error::UnknownCell { cell, target });
    }
    let k = match find_cell(cells, target as u32) {
        None => {
            return Err(Error::UnknownCell { cell, target });
        },
        Some(k) => k,
    };
    let g = &cells[k].1;
    let ghost gv = geom_view(*g);
    assert(cv[k as int] == (cells@[k as int].0, gv));
    if !is_flat(g) {
        return Err(Error::ComplementTooComplex { cell, target });
    }
    let mut reason: Vec<char> = Vec::new();
    append_str(&mut reason, "#");
    append_dec(&mut reason, target as u64);
    append_str(&mut reason, " inlined as the negated region of cell ");
    append_dec(&mut reason, target as u64);
    let note = cell_note(cell, "complement-expansion", reason);
    assert(note_view(note) == complement_note(cell, target));
    let mut raw: Vec<(i32, bool)> = Vec::new();
    collect_lits(g, &mut raw);
    assert(raw@ =~= lits(gv));
    let mut i: usize = 0;
    while i < raw.len()
        invariant
            i <= raw.len(),
            raw@ == lits(gv),
            flat(gv),
            forall|j: int| 0 <= j < raw@.len() ==> #[trigger] raw@[j].0 != i32::MIN,
            gdml_negs(known@, cell, raw@, 0) == gdml_negs(known@, cell, raw@, i as int),
        decreases raw.len() - i,
    {
        let (s, refl) = raw[i];
        assert(raw@[i as int].0 != i32::MIN);
        assert(raw@[i as int] == (s, refl));
        match gdml_lit_check(known, cell, -s, refl) {
            Err(e) => {
                proof {
                    assert(gdml_lit(known@, cell, -raw@[i as int].0 as i32, raw@[i as int].1) is Some);
                    assert(gdml_negs(known@, cell, raw@, i as int) == gdml_lit(known@, cell, (-s) as i32, refl));
                    assert(cell_region(cv, target as u32) == Some(gv));
                }
                return Err(e);
            },
            Ok(()) => {},
        }
        i = i + 1;
    }
    push_cell_note(out, note);
    Ok(())
}

fn gdml_region(known: &Vec<u32>, cells: &Vec<(u32, GeomExpr)>, cell: u32, g: &GeomExpr, out: &mut Vec<DriftEntry>) -> (r: Result<(), Error>)
    requires
        ({
            let cv = cells@.map_values(|c: (u32, GeomExpr)| (c.0, geom_view(c.1)));
            forall|k: int, j: int| 0 <= k < cv.len() && flat(cv[k].1) && 0 <= j < lits(cv[k].1).len() ==> #[trigger] lits(cv[k].1)[j].0
                != i32::MIN
        }),
    ensures
        ({
            let cv = cells@.map_values(|c: (u32, GeomExpr)| (c.0, geom_view(c.1)));
            let (e, ns) = gdml_expr(known@, cv, cell, geom_view(*g));
            match (r, e) {
                (Ok(()), None) => tagged(final(out)@) == tagged(old(out)@) + tag(DriftScope::Cell, ns),
                (Err(x), Some(v)) => x@ == v,
                _ => false,
            }
        }),
    decreases *g,
{
    let ghost cv = cells@.map_values(|c: (u32, GeomExpr)| (c.0, geom_view(c.1)));
    match g {
        GeomExpr::HalfSpace(h) => {
            let r = gdml_lit_check(known, cell, h.surf, h.reflecting);
            assert(tagged(out@) =~= tagged(old(out)@) + tag(DriftScope::Cell, Seq::empty()));
            r
        },
        GeomExpr::Intersect(parts) => {
            let ghost views = geom_views(*parts, parts.len() as int);
            proof {
                lemma_geom_views_len(*parts, parts.len() as int);
            }
            let ghost mut acc: Seq<NoteView> = Seq::empty();
            assert(tagged(out@) =~= tagged(old(out)@) + tag(DriftScope::Cell, acc));
            assert(acc + gdml_parts(known@, cv, cell, views, 0).1 =~= gdml_parts(known@, cv, cell, views, 0).1);
            let mut i: usize = 0;
            while i < parts.len()
                invariant
                    i <= parts.len(),
                    cv == cells@.map_values(|c: (u32, GeomExpr)| (c.0, geom_view(c.1))),
                    forall|k: int, j: int| 0 <= k < cv.len() && flat(cv[k].1) && 0 <= j < lits(cv[k].1).len() ==> #[trigger] lits(
                        cv[k].1,
                    )[j].0 != i32::MIN,
                    views == geom_views(*parts, parts.len() as int),
                    views.len() == parts.len(),
                    forall|k: int| 0 <= k < parts.len() ==> #[trigger] views[k] == geom_view(parts[k]),
                    *g == GeomExpr::Intersect(*parts),
                    gdml_parts(known@, cv, cell, views, 0).0 == gdml_parts(known@, cv, cell, views, i as int).0,
                    gdml_parts(known@, cv, cell, views, 0).0 is None ==> gdml_parts(known@, cv, cell, views, 0).1 == acc
                        + gdml_parts(known@, cv, cell, views, i as int).1,
                    tagged(out@) == tagged(old(out)@) + tag(DriftScope::Cell, acc),
                decreases parts.len() - i,
            {
                let p = &parts[i];
                proof {
                    vstd::std_specs::vec::axiom_vec_index_decreases(*parts, i as int);
                    assert(decreases_to!(*g => g->Intersect_0));
                    assert(decreases_to!(*g => *p));
                }
                let ghost before = out@;
                match gdml_region(known, cells, cell, p, out) {
                    Err(e) => {
                        return Err(e);
                    },
                    Ok(()) => {},
                }
                proof {
                    let (e1, n1) = gdml_expr(known@, cv, cell, views[i as int]);
                    let rest = gdml_parts(known@, cv, cell, views, i + 1);
                    assert(tag(DriftScope::Cell, acc) + tag(DriftScope::Cell, n1) =~= tag(DriftScope::Cell, acc + n1));
                    assert(tagged(out@) =~= tagged(old(out)@) + tag(DriftScope::Cell, acc + n1));
                    assert(acc + (n1 + rest.1) =~= (acc + n1) + rest.1);
                    acc = acc + n1;
                }
                i = i + 1;
            }
            assert(acc + Seq::<NoteView>::empty() =~= acc);
            assert(geom_view(*g) == GeomView::Intersect(views));
            assert(gdml_expr(known@, cv, cell, geom_view(*g)) == gdml_parts(known@, cv, cell, views, 0));
            Ok(())
        },
        GeomExpr::Union(a, b) => {
            match gdml_region(known, cells, cell, a, out) {
                Err(e) => {
                    return Err(e);
                },
                Ok(()) => {},
            }
            let ghost mid = out@;
            match gdml_region(known, cells, cell, b, out) {
                Err(e) => {
                    return Err(e);
                },
                Ok(()) => {},
            }
            proof {
                let na = gdml_expr(known@, cv, cell, geom_view(**a)).1;
                let nb = gdml_expr(known@, cv, cell, geom_view(**b)).1;
                assert(tag(DriftScope::Cell, na) + tag(DriftScope::Cell, nb) =~= tag(DriftScope::Cell, na + nb));
                assert(tagged(old(out)@) + tag(DriftScope::Cell, na) + tag(DriftScope::Cell, nb) =~= tagged(old(out)@) + tag(
                    DriftScope::Cell,
                    na + nb,
                ));
            }
            Ok(())
        },
        GeomExpr::Complement(a) => {
            match &**a {
                GeomExpr::HalfSpace(h) => {
                    assert(geom_view(**a) == GeomView::HalfSpace(h.surf, h.reflecting));
                    gdml_complement_check(known, cells, cell, h.surf, out)
                },
                _ => {
                    assert(!(geom_view(**a) is HalfSpace));
                    Err(Error::ComplementTooComplex { cell, target: -1 })
                },
            }
        },
    }
}

fn rcc_entry(num: u32) -> (r: DriftEntry)
    ensures
        r.scope == DriftScope::Surface,
        note_view(r) == rcc_solid_note(num),
{
    let mut d: Vec<char> = Vec::new();
    append_str(&mut d, "RCC ");
    append_dec(&mut d, num as u64);
    append_str(&mut d, " emitted as named boolean solid sl");
    append_dec(&mut d, num as u64);
    append_str(&mut d, " (finite tube plus cap boxes)");
    DriftEntry {
        scope: DriftScope::Surface,
        target: num,
        action: "macrobody-expansion".to_string(),
        reason: string_from_chars(d.as_slice()),
    }
}


proof fn lemma_lattice_stage_ok(ls: Seq<Result<LatticePlanView, ErrorView>>, rs: Seq<(u32, ErrorView)>, i: int)
    requires
        0 <= i,
        lattice_stage(ls, rs, i).0 is Ok,
    ensures
        forall|j: int| i <= j < ls.len() ==> #[trigger] ls[j] is Ok,
    decreases ls.len() - i,
{
    if i < ls.len() {
        lemma_lattice_stage_ok(ls, rs, i + 1);
    }
}

fn lattice_cells_exec(up: &UniversePlan) -> (r: Vec<u32>)
    ensures
        r@ == lattice_cells(up@.lattices),
{
    let mut r: Vec<u32> = Vec::new();
    let mut k: usize = 0;
    while k < up.lattices.len()
        invariant
            k <= up.lattices.len(),
            r@ == lattice_cells(up@.lattices).take(k as int),
        decreases up.lattices.len() - k,
    {
        let c = match &up.lattices[k] {
            Ok(lp) => lp.cell,
            Err(_) => 0,
        };
        r.push(c);
        assert(r@ =~= lattice_cells(up@.lattices).take(k + 1));
        k = k + 1;
    }
    assert(lattice_cells(up@.lattices).take(k as int) =~= lattice_cells(up@.lattices));
    r
}

fn expanded_entry(lp: &crate::universe::LatticePlan) -> (r: DriftEntry)
    requires
        element_count(lp@) <= u64::MAX,
    ensures
        r.scope == DriftScope::Cell,
        note_view(r) == expanded_note(lp@),
{
    let a = lp.counts[0] as u128;
    let b = lp.counts[1] as u128;
    let c = lp.counts[2] as u128;
    assert(a * b <= u128::MAX) by (nonlinear_arith)
        requires
            a <= u64::MAX,
            b <= u64::MAX,
    {
        assert(a * b <= (u64::MAX as int) * (u64::MAX as int));
    }
    let ab = a * b;
    assert(ab * c == a * b * c) by (nonlinear_arith)
        requires
            ab == a * b,
    ;
    assert(ab * c <= u64::MAX);
    let n = (ab * c) as u64;
    let mut d: Vec<char> = Vec::new();
    append_str(&mut d, "cell ");
    append_dec(&mut d, lp.cell as u64);
    append_str(&mut d, " rectangular lattice expanded to ");
    append_dec(&mut d, n);
    append_str(&mut d, " physvol placements of element assemblies");
    cell_note(lp.cell, "lattice-expanded", d)
}

fn stub_materials_exec(cells: &Vec<DeckCell>, up: &UniversePlan) -> (r: Vec<u32>)
    ensures
        r@ == stub_materials(cells@, up@, cells@.len() as int),
{
    let mut r: Vec<u32> = Vec::new();
    r.push(0);
    let mut k: usize = 0;
    assert(r@ =~= stub_materials(cells@, up@, 0));
    while k < cells.len()
        invariant
            k <= cells.len(),
            r@ == stub_materials(cells@, up@, k as int),
        decreases cells.len() - k,
    {
        if get_entry(&up.fills, cells[k].num).is_none() && lattice_of(up, cells[k].num).is_none() {
            r.push(cells[k].mat);
        }
        k = k + 1;
    }
    r
}

fn distinct_exec(s: &Vec<u32>, o: &Vec<usize>) -> (r: Vec<u32>)
    requires
        forall|k: int| 0 <= k < o.len() ==> #[trigger] o@[k] < s.len(),
    ensures
        r@ == distinct_along(s@, o@, o@.len() as int),
{
    let mut r: Vec<u32> = Vec::new();
    let mut k: usize = 0;
    while k < o.len()
        invariant
            k <= o.len(),
            forall|t: int| 0 <= t < o.len() ==> #[trigger] o@[t] < s.len(),
            r@ == distinct_along(s@, o@, k as int),
        decreases o.len() - k,
    {
        let v = s[o[k]];
        if r.len() > 0 && r[r.len() - 1] == v {
        } else {
            r.push(v);
        }
        k = k + 1;
    }
    r
}

fn stub_entry(ms: &Vec<u32>) -> (r: DriftEntry)
    ensures
        r.scope == DriftScope::Deck,
        note_view(r) == stub_note(ms@),
{
    let mut d: Vec<char> = Vec::new();
    append_str(&mut d, "material stubs (");
    let ghost start = d@;
    let mut j: usize = 0;
    while j < ms.len()
        invariant
            j <= ms.len(),
            d@ == start + stub_list(ms@, j as int),
        decreases ms.len() - j,
    {
        if j > 0 {
            append_str(&mut d, " mat");
        } else {
            append_str(&mut d, "mat");
        }
        append_dec(&mut d, ms[j] as u64);
        assert(d@ =~= start + stub_list(ms@, j + 1));
        j = j + 1;
    }
    append_str(&mut d, ") emitted with placeholder D/atom values; replace them with real definitions");
    assert(d@ =~= stub_note(ms@).reason);
    DriftEntry { scope: DriftScope::Deck, target: 0, action: "material-stub".to_string(), reason: string_from_chars(d.as_slice()) }
}

/// Plan the GDML geometry of a deck (see [`gdml_outcome`]); `refusals` are
/// the lattice cells whose bounds cannot be read, with their refusal, and
/// `bound_reason` the reason text of the cutoff note.
#[verifier::rlimit(50)]
#[verifier::loop_isolation(false)]
pub fn plan_gdml(deck: &OpenmcDeck, refusals: &Vec<(u32, Error)>, bound_reason: &String) -> (r: Result<GdmlPlan, Error>)
    requires
        gdml_fits(*deck),
    ensures
        match (r, gdml_outcome(*deck, refusal_views(refusals@), bound_reason@)) {
            (Ok(p), Ok(v)) => gdml_plan_is(p, v),
            (Err(e), Err(v)) => e@ == v,
            _ => false,
        },
{
    let (up, mut drift) = match plan_front(deck, refusals) {
        Err(e) => {
            return Err(e);
        },
        Ok(x) => x,
    };
    match gdml_card_check(&deck.surfs) {
        Err(e) => {
            return Err(e);
        },
        Ok(()) => {},
    }
    let solids = match gdml_solids(&deck.surfs) {
        Err(e) => {
            return Err(e);
        },
        Ok(v) => v,
    };
    let known = numbers_of_surfaces(&deck.surfs);
    let geoms = cell_geometries(&deck.cells);
    let ghost cv = geoms@.map_values(|c: (u32, GeomExpr)| (c.0, geom_view(c.1)));
    assert(cv == cell_trees(deck.cells@));
    assert forall|k: int, j: int| 0 <= k < cv.len() && flat(cv[k].1) && 0 <= j < lits(cv[k].1).len() implies #[trigger] lits(
        cv[k].1,
    )[j].0 != i32::MIN by {
        assert(cv[k].1 == geom_view(deck.cells@[k].geom));
    }
    let mut notes: Vec<DriftEntry> = Vec::new();
    let ghost mut acc: Seq<NoteView> = Seq::empty();
    assert(tagged(notes@) =~= tag(DriftScope::Cell, acc));
    let mut c: usize = 0;
    assert(acc + gdml_cells(known@, cv, 0).1 =~= gdml_cells(known@, cv, 0).1);
    while c < geoms.len()
        invariant
            c <= geoms.len(),
            cv == geoms@.map_values(|c: (u32, GeomExpr)| (c.0, geom_view(c.1))),
            forall|k: int, j: int| 0 <= k < cv.len() && flat(cv[k].1) && 0 <= j < lits(cv[k].1).len() ==> #[trigger] lits(
                cv[k].1,
            )[j].0 != i32::MIN,
            gdml_cells(known@, cv, 0).0 == gdml_cells(known@, cv, c as int).0,
            gdml_cells(known@, cv, 0).0 is None ==> gdml_cells(known@, cv, 0).1 == acc + gdml_cells(known@, cv, c as int).1,
            tagged(notes@) == tag(DriftScope::Cell, acc),
        decreases geoms.len() - c,
    {
        let ghost before = notes@;
        assert(cv[c as int] == (geoms@[c as int].0, geom_view(geoms@[c as int].1)));
        match gdml_region(&known, &geoms, geoms[c].0, &geoms[c].1, &mut notes) {
            Err(e) => {
                proof {
                    assert(gdml_cells(known@, cv, c as int).0 == gdml_expr(known@, cv, cv[c as int].0, cv[c as int].1).0);
                }
                return Err(e);
            },
            Ok(()) => {},
        }
        proof {
            let (e1, n1) = gdml_expr(known@, cv, cv[c as int].0, cv[c as int].1);
            let rest = gdml_cells(known@, cv, c + 1);
            assert(tag(DriftScope::Cell, acc) + tag(DriftScope::Cell, n1) =~= tag(DriftScope::Cell, acc + n1));
            assert(acc + (n1 + rest.1) =~= (acc + n1) + rest.1);
            acc = acc + n1;
        }
        c = c + 1;
    }
    assert(acc + Seq::<NoteView>::empty() =~= acc);
    let ghost t0 = tagged(drift.entries@);
    let bound = DriftEntry {
        scope: DriftScope::Deck,
        target: 0,
        action: "halfspace-bounded".to_string(),
        reason: bound_reason.clone(),
    };
    drift.entries.push(bound);
    assert(tagged(drift.entries@) =~= t0 + seq![(DriftScope::Deck, bound_note(bound_reason@))]);
    let ghost t1 = tagged(drift.entries@);
    let mut s: usize = 0;
    assert(t1 + tag(DriftScope::Surface, rcc_notes(deck.surfs@, 0)) =~= t1);
    while s < deck.surfs.len()
        invariant
            s <= deck.surfs.len(),
            tagged(drift.entries@) == t1 + tag(DriftScope::Surface, rcc_notes(deck.surfs@, s as int)),
        decreases deck.surfs.len() - s,
    {
        let ghost before = drift.entries@;
        if deck.surfs[s].card.kind == SurfKind::Rcc {
            let e = rcc_entry(deck.surfs[s].card.num);
            drift.entries.push(e);
            proof {
                let n = deck.surfs@[s as int].card.num;
                assert(rcc_notes(deck.surfs@, s + 1) == rcc_notes(deck.surfs@, s as int).push(rcc_solid_note(n)));
                assert(tagged(drift.entries@) =~= tagged(before).push((DriftScope::Surface, rcc_solid_note(n))));
                assert(tag(DriftScope::Surface, rcc_notes(deck.surfs@, s + 1)) =~= tag(DriftScope::Surface, rcc_notes(deck.surfs@, s as int)).push(
                    (DriftScope::Surface, rcc_solid_note(n)),
                ));
            }
            assert(tagged(drift.entries@) =~= t1 + tag(DriftScope::Surface, rcc_notes(deck.surfs@, s + 1)));
        } else {
            assert(rcc_notes(deck.surfs@, s + 1) == rcc_notes(deck.surfs@, s as int));
        }
        s = s + 1;
    }
    let ghost t2 = tagged(drift.entries@);
    let mut k: usize = 0;
    while k < notes.len()
        invariant
            k <= notes.len(),
            tagged(drift.entries@) == t2 + tagged(notes@.take(k as int)),
        decreases notes.len() - k,
    {
        let ghost before = drift.entries@;
        let e = crate::openmc::copy_entry(&notes[k]);
        drift.entries.push(e);
        assert(notes@.take(k + 1) =~= notes@.take(k as int).push(notes@[k as int]));
        assert(tagged(notes@.take(k + 1)) =~= tagged(notes@.take(k as int)).push((e.scope, note_view(e))));
        assert(tagged(drift.entries@) =~= tagged(before).push((e.scope, note_view(e))));
        assert(tagged(drift.entries@) =~= t2 + tagged(notes@.take(k + 1)));
        k = k + 1;
    }
    assert(notes@.take(notes@.len() as int) =~= notes@);
    let ghost upv = up@;
    let ghost fr = front_outcome(*deck, refusal_views(refusals@))->Ok_0;
    proof {
        lemma_lattice_stage_ok(upv.lattices, refusal_views(refusals@), 0);
        assert(tagged(drift.entries@) == fr.drift + seq![(DriftScope::Deck, bound_note(bound_reason@))] + tag(
            DriftScope::Surface,
            rcc_notes(deck.surfs@, deck.surfs@.len() as int),
        ) + tag(DriftScope::Cell, acc));
    }
    let cells_v = lattice_cells_exec(&up);
    let order = ascending_positions(&cells_v);
    let ghost t3 = tagged(drift.entries@);
    let mut k: usize = 0;
    while k < order.len()
        invariant
            k <= order.len(),
            upv == up@,
            order@ == writing_order(lattice_cells(upv.lattices), upv.lattices.len() as int),
            order.len() == upv.lattices.len(),
            forall|t: int| 0 <= t < order.len() ==> #[trigger] order@[t] < upv.lattices.len(),
            forall|j: int| 0 <= j < upv.lattices.len() ==> #[trigger] upv.lattices[j] is Ok,
            forall|j: int| 0 <= j < upv.lattices.len() ==> (#[trigger] upv.lattices[j] matches Ok(lp) ==> element_count(lp) <= u64::MAX),
            tagged(drift.entries@) == t3 + tag(DriftScope::Cell, expanded_notes(upv.lattices).take(k as int)),
        decreases order.len() - k,
    {
        let pos = order[k];
        assert(upv.lattices[pos as int] == crate::universe::lattice_result_view(up.lattices@[pos as int]));
        match &up.lattices[pos] {
            Ok(lp) => {
                let e = expanded_entry(lp);
                let ghost before = drift.entries@;
                drift.entries.push(e);
                proof {
                    assert(expanded_notes(upv.lattices)[k as int] == expanded_note(lp@));
                    assert(expanded_notes(upv.lattices).take(k + 1) =~= expanded_notes(upv.lattices).take(k as int).push(expanded_note(lp@)));
                    assert(tagged(drift.entries@) =~= tagged(before).push((DriftScope::Cell, expanded_note(lp@))));
                    assert(tag(DriftScope::Cell, expanded_notes(upv.lattices).take(k + 1)) =~= tag(
                        DriftScope::Cell,
                        expanded_notes(upv.lattices).take(k as int),
                    ).push((DriftScope::Cell, expanded_note(lp@))));
                }
            },
            Err(_) => {
                proof {
                    assert(upv.lattices[pos as int] is Ok);
                }
            },
        }
        k = k + 1;
    }
    assert(expanded_notes(upv.lattices).take(k as int) =~= expanded_notes(upv.lattices));
    let mats = stub_materials_exec(&deck.cells, &up);
    let morder = ascending_positions(&mats);
    let uniq = distinct_exec(&mats, &morder);
    let stub = stub_entry(&uniq);
    let ghost t4 = tagged(drift.entries@);
    drift.entries.push(stub);
    proof {
        assert(morder@.len() == mats@.len());
        assert(uniq@ == stub_set(deck.cells@, upv));
        assert(tagged(drift.entries@) =~= t4.push((DriftScope::Deck, stub_note(stub_set(deck.cells@, upv)))));
        assert(tagged(drift.entries@) =~= fr.drift + seq![(DriftScope::Deck, bound_note(bound_reason@))] + tag(
            DriftScope::Surface,
            rcc_notes(deck.surfs@, deck.surfs@.len() as int),
        ) + tag(DriftScope::Cell, acc) + tag(DriftScope::Cell, expanded_notes(upv.lattices)) + seq![
            (DriftScope::Deck, stub_note(stub_set(deck.cells@, upv))),
        ]);
    }
    Ok(GdmlPlan { solids, universes: up, drift })
}

} // verus!
