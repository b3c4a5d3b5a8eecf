//! Macrobody expansion: an `RPP` becomes six axis planes and an axis-aligned
//! `RCC` a cylinder with two cap planes, under fresh surface ids, with the
//! signed facet ids whose intersection is the macrobody's interior.

use vstd::prelude::*;
use crate::drift::{DriftEntry, DriftScope, DriftTable};
use crate::surface::{Coef, SurfaceCard, SurfaceMap, SurfaceMapView, map_surface, surface_map};
use crate::text::{dec, append_str, append_dec, string_from_chars};
use crate::universe::{note_view, NoteView, put, put_entry, seq_max};
use crate::xlate::{Error, ErrorView};

verus! {

/// One generated facet surface.
#[derive(Debug, Clone, PartialEq, Eq)]
pub struct Facet {
    pub id: u32,
    /// OpenMC surface type.
    pub stype: &'static str,
    /// Where each OpenMC coefficient comes from.
    pub coeffs: Vec<Coef>,
}

pub struct FacetView {
    pub id: u32,
    pub stype: Seq<char>,
    pub coeffs: Seq<Coef>,
}

impl View for Facet {
    type V = FacetView;

    open spec fn view(&self) -> FacetView {
        FacetView { id: self.id, stype: self.stype@, coeffs: self.coeffs@ }
    }
}

/// The facets of one macrobody and the signed facet ids whose intersection
/// is its interior.
#[derive(Debug, Clone, PartialEq, Eq)]
pub struct MacroExpansion {
    pub facets: Vec<Facet>,
    pub interior: Vec<i32>,
}

pub struct ExpansionView {
    pub facets: Seq<FacetView>,
    pub interior: Seq<i32>,
}

impl View for MacroExpansion {
    type V = ExpansionView;

    open spec fn view(&self) -> ExpansionView {
        ExpansionView { facets: self.facets@.map_values(|f: Facet| f@), interior: self.interior@ }
    }
}

/// The type of the axis planes along axis `ax` (0, 1, 2 for x, y, z).
pub open spec fn plane_type(ax: int) -> Seq<char> {
    if ax == 0 {
        "x-plane"@
    } else if ax == 1 {
        "y-plane"@
    } else {
        "z-plane"@
    }
}

/// The six planes of an `RPP` with ids from `start`: minimum and maximum
/// planes along x, y, z, each taking the card coefficient at its position.
pub open spec fn rpp_expansion(start: u32) -> ExpansionView {
    ExpansionView {
        facets: Seq::new(6, |i: int| FacetView {
            id: (start + i) as u32,
            stype: plane_type(i / 2),
            coeffs: seq![Coef::Card(i as usize)],
        }),
        interior: Seq::new(6, |i: int| if i % 2 == 0 { (start + i) as i32 } else { -(start + i) as i32 }),
    }
}

/// The ids `start .. start + n`, each after a space.
pub open spec fn spaced_ids(start: u32, n: int) -> Seq<char>
    decreases n,
{
    if n <= 0 {
        Seq::empty()
    } else {
        spaced_ids(start, n - 1) + " "@ + dec((start + n - 1) as nat)
    }
}

/// The drift note of an `RPP` expansion.
pub open spec fn rpp_note(num: u32, start: u32) -> NoteView {
    NoteView {
        target: num,
        action: "macrobody-expansion"@,
        reason: "RPP "@ + dec(num as nat) + " expanded to 6 axis planes"@ + spaced_ids(start, 6),
    }
}

/// The type of the cylinder along axis `ax`.
pub open spec fn cylinder_type(ax: int) -> Seq<char> {
    if ax == 0 {
        "x-cylinder"@
    } else if ax == 1 {
        "y-cylinder"@
    } else {
        "z-cylinder"@
    }
}

/// The cylinder coefficients along axis `ax`: the two other base
/// coordinates and the radius (card positions 0..3 base, 3..6 axis, 6 radius).
pub open spec fn cylinder_coeffs(ax: int) -> Seq<Coef> {
    if ax == 0 {
        seq![Coef::Card(1), Coef::Card(2), Coef::Card(6)]
    } else if ax == 1 {
        seq![Coef::Card(0), Coef::Card(2), Coef::Card(6)]
    } else {
        seq![Coef::Card(0), Coef::Card(1), Coef::Card(6)]
    }
}

/// The cylinder and cap planes of an `RCC` along axis `ax`, with ids from
/// `start`: the interior is inside the cylinder, above the low cap and
/// below the high cap.
pub open spec fn rcc_expansion(ax: int, start: u32) -> ExpansionView {
    ExpansionView {
        facets: seq![
            FacetView { id: start, stype: cylinder_type(ax), coeffs: cylinder_coeffs(ax) },
            FacetView { id: (start + 1) as u32, stype: plane_type(ax), coeffs: seq![Coef::CapLow(ax as usize)] },
            FacetView { id: (start + 2) as u32, stype: plane_type(ax), coeffs: seq![Coef::CapHigh(ax as usize)] },
        ],
        interior: seq![-(start as i32) as i32, (start + 1) as i32, -(start + 2) as i32],
    }
}

/// The letter that names axis `ax` (0, 1, 2 for x, y, z).
pub open spec fn axis_letter(ax: int) -> char {
    if ax == 0 {
        'x'
    } else if ax == 1 {
        'y'
    } else {
        'z'
    }
}

/// An `RCC` along axis `ax` expands to three surfaces: a cylinder named after
/// that axis whose coefficients are the two base coordinates other than `ax`,
/// in x, y, z order, followed by the radius (card position 6); and two planes
/// normal to `ax` at the low and the high end of the axis segment. Its
/// interior is inside the cylinder, above the low cap and below the high cap.
pub proof fn lemma_rcc_expansion_geometry(ax: int, start: u32)
    requires
        0 <= ax < 3,
        start + 3 < 0x8000_0000,
    ensures
        ({
            let m = rcc_expansion(ax, start);
            let cyl = m.facets[0];
            &&& m.facets.len() == 3
            &&& cyl.id == start
            &&& cyl.stype == seq![axis_letter(ax)] + "-cylinder"@
            &&& cyl.coeffs.len() == 3
            &&& cyl.coeffs[0] matches Coef::Card(i) && cyl.coeffs[1] matches Coef::Card(j)
                && i < j < 3 && i != ax && j != ax
            &&& cyl.coeffs[2] == Coef::Card(6)
            &&& m.facets[1].id == start + 1
            &&& m.facets[1].stype == seq![axis_letter(ax)] + "-plane"@
            &&& m.facets[1].coeffs == seq![Coef::CapLow(ax as usize)]
            &&& m.facets[2].id == start + 2
            &&& m.facets[2].stype == seq![axis_letter(ax)] + "-plane"@
            &&& m.facets[2].coeffs == seq![Coef::CapHigh(ax as usize)]
            &&& m.interior.len() == 3
            &&& m.interior[0] == -(m.facets[0].id as int)
            &&& m.interior[1] == m.facets[1].id as int
            &&& m.interior[2] == -(m.facets[2].id as int)
        }),
{
    reveal_strlit("x-cylinder");
    reveal_strlit("y-cylinder");
    reveal_strlit("z-cylinder");
    reveal_strlit("-cylinder");
    reveal_strlit("x-plane");
    reveal_strlit("y-plane");
    reveal_strlit("z-plane");
    reveal_strlit("-plane");
    let m = rcc_expansion(ax, start);
    assert(m.facets[0].stype =~= seq![axis_letter(ax)] + "-cylinder"@);
    assert(m.facets[1].stype =~= seq![axis_letter(ax)] + "-plane"@);
}

/// An `RPP` expands to six planes: the `i`-th is normal to axis `i / 2`,
/// takes card coefficient `i`, and bounds the interior from below for a
/// minimum (even `i`) and from above for a maximum (odd `i`).
pub proof fn lemma_rpp_expansion_geometry(start: u32, i: int)
    requires
        start + 6 < 0x8000_0000,
        0 <= i < 6,
    ensures
        ({
            let m = rpp_expansion(start);
            &&& m.facets.len() == 6
            &&& m.interior.len() == 6
            &&& m.facets[i].id == start + i
            &&& m.facets[i].stype == seq![axis_letter(i / 2)] + "-plane"@
            &&& m.facets[i].coeffs == seq![Coef::Card(i as usize)]
            &&& m.interior[i] == (if i % 2 == 0 { m.facets[i].id as int } else { -(m.facets[i].id as int) })
        }),
{
    reveal_strlit("x-plane");
    reveal_strlit("y-plane");
    reveal_strlit("z-plane");
    reveal_strlit("-plane");
    let m = rpp_expansion(start);
    assert(m.facets[i].stype =~= seq![axis_letter(i / 2)] + "-plane"@);
}

/// The drift note of an `RCC` expansion.
pub open spec fn rcc_note(num: u32, ax: int, start: u32) -> NoteView {
    NoteView {
        target: num,
        action: "macrobody-expansion"@,
        reason: "RCC "@ + dec(num as nat) + " expanded to "@ + cylinder_type(ax) + " "@ + dec(start as nat)
            + " and 2 cap planes ("@ + dec((start + 1) as nat) + " "@ + dec((start + 2) as nat) + ")"@,
    }
}

/// The axis of an `RCC` whose axis vector has exactly one nonzero
/// component (`None` for a canted one).
pub open spec fn single_axis(nonzero: Seq<bool>) -> Option<int> {
    if nonzero[0] && !nonzero[1] && !nonzero[2] {
        Some(0)
    } else if !nonzero[0] && nonzero[1] && !nonzero[2] {
        Some(1)
    } else if !nonzero[0] && !nonzero[1] && nonzero[2] {
        Some(2)
    } else {
        None
    }
}

/// Why a canted `RCC` is refused.
pub open spec fn canted_detail() -> Seq<char> {
    "only RCCs aligned with x, y, or z expand in v1 (canted cylinders have no verified OpenMC spelling)"@
}

fn push_surface_note(drift: &mut DriftTable, target: u32, reason: Vec<char>)
    ensures
        final(drift).entries@.len() == old(drift).entries@.len() + 1,
        final(drift).entries@.drop_last() == old(drift).entries@,
        final(drift).entries@.last().scope == DriftScope::Surface,
        note_view(final(drift).entries@.last()) == (NoteView { target, action: "macrobody-expansion"@, reason: reason@ }),
{
    let a = crate::text::chars_of("macrobody-expansion");
    let e = DriftEntry {
        scope: DriftScope::Surface,
        target,
        action: string_from_chars(a.as_slice()),
        reason: string_from_chars(reason.as_slice()),
    };
    drift.entries.push(e);
    assert(drift.entries@.drop_last() =~= old(drift).entries@);
}

fn plane_facet(id: u32, ax: usize, c: Coef) -> (r: Facet)
    requires
        ax < 3,
    ensures
        r@ == (FacetView { id, stype: plane_type(ax as int), coeffs: seq![c] }),
{
    let stype = if ax == 0 {
        "x-plane"
    } else if ax == 1 {
        "y-plane"
    } else {
        "z-plane"
    };
    let coeffs = vec![c];
    assert(coeffs@ =~= seq![c]);
    Facet { id, stype, coeffs }
}

/// Expand an `RPP` surface card `num` to six axis planes with ids from
/// `*next_id`, noting the expansion.
pub fn expand_rpp(next_id: &mut u32, drift: &mut DriftTable, num: u32) -> (r: MacroExpansion)
    requires
        *old(next_id) + 6 < 0x8000_0000,
    ensures
        *final(next_id) == *old(next_id) + 6,
        r@ == rpp_expansion(*old(next_id)),
        final(drift).entries@.len() == old(drift).entries@.len() + 1,
        final(drift).entries@.drop_last() == old(drift).entries@,
        final(drift).entries@.last().scope == DriftScope::Surface,
        note_view(final(drift).entries@.last()) == rpp_note(num, *old(next_id)),
{
    let start = *next_id;
    let mut facets: Vec<Facet> = Vec::new();
    let mut interior: Vec<i32> = Vec::new();
    let mut reason: Vec<char> = Vec::new();
    append_str(&mut reason, "RPP ");
    append_dec(&mut reason, num as u64);
    append_str(&mut reason, " expanded to 6 axis planes");
    assert(reason@ =~= "RPP "@ + dec(num as nat) + " expanded to 6 axis planes"@ + spaced_ids(start, 0));
    let ghost spec = rpp_expansion(start);
    let mut i: usize = 0;
    while i < 6
        invariant
            i <= 6,
            *next_id == start + i,
            start + 6 < 0x8000_0000,
            spec == rpp_expansion(start),
            facets@.map_values(|f: Facet| f@) == spec.facets.take(i as int),
            interior@ == spec.interior.take(i as int),
            reason@ == "RPP "@ + dec(num as nat) + " expanded to 6 axis planes"@ + spaced_ids(start, i as int),
        decreases 6 - i,
    {
        let id = *next_id;
        *next_id = *next_id + 1;
        let f = plane_facet(id, i / 2, Coef::Card(i));
        let ghost fs = facets@.map_values(|f: Facet| f@);
        facets.push(f);
        assert(facets@.map_values(|f: Facet| f@) =~= fs.push(f@));
        assert(spec.facets.take(i + 1) =~= spec.facets.take(i as int).push(spec.facets[i as int]));
        if i % 2 == 0 {
            interior.push(id as i32);
        } else {
            interior.push(-(id as i32));
        }
        assert(spec.interior.take(i + 1) =~= spec.interior.take(i as int).push(spec.interior[i as int]));
        let ghost r0 = reason@;
        append_str(&mut reason, " ");
        append_dec(&mut reason, id as u64);
        assert(reason@ =~= r0 + " "@ + dec(id as nat));
        i = i + 1;
    }
    assert(spec.facets.take(6) =~= spec.facets);
    assert(spec.interior.take(6) =~= spec.interior);
    push_surface_note(drift, num, reason);
    MacroExpansion { facets, interior }
}

/// Expand an `RCC` surface card `num` whose axis vector has the nonzero
/// components `nonzero` (x, y, z) to a cylinder and two cap planes with ids
/// from `*next_id`, noting the expansion; a canted `RCC` is refused.
pub fn expand_rcc(next_id: &mut u32, drift: &mut DriftTable, num: u32, keyword: &String, nonzero: [bool; 3]) -> (r: Result<MacroExpansion, Error>)
    requires
        *old(next_id) + 3 < 0x8000_0000,
    ensures
        match single_axis(nonzero@) {
            None => {
                &&& r matches Err(e) && e@ == ErrorView::MacrobodyOutOfScope(num, keyword@, canted_detail())
                &&& *final(next_id) == *old(next_id)
                &&& final(drift).entries@ == old(drift).entries@
            },
            Some(ax) => {
                &&& r matches Ok(m) && m@ == rcc_expansion(ax, *old(next_id))
                &&& *final(next_id) == *old(next_id) + 3
                &&& final(drift).entries@.len() == old(drift).entries@.len() + 1
                &&& final(drift).entries@.drop_last() == old(drift).entries@
                &&& final(drift).entries@.last().scope == DriftScope::Surface
                &&& note_view(final(drift).entries@.last()) == rcc_note(num, ax, *old(next_id))
            },
        },
{
    let ax: usize = if nonzero[0] && !nonzero[1] && !nonzero[2] {
        0
    } else if !nonzero[0] && nonzero[1] && !nonzero[2] {
        1
    } else if !nonzero[0] && !nonzero[1] && nonzero[2] {
        2
    } else {
        return Err(Error::MacrobodyOutOfScope {
            surf: num,
            kind: keyword.clone(),
            detail: "only RCCs aligned with x, y, or z expand in v1 (canted cylinders have no verified OpenMC spelling)".to_string(),
        });
    };
    let (cyl_type, cyl_coeffs) = if ax == 0 {
        ("x-cylinder", vec![Coef::Card(1), Coef::Card(2), Coef::Card(6)])
    } else if ax == 1 {
        ("y-cylinder", vec![Coef::Card(0), Coef::Card(2), Coef::Card(6)])
    } else {
        ("z-cylinder", vec![Coef::Card(0), Coef::Card(1), Coef::Card(6)])
    };
    assert(cyl_coeffs@ =~= cylinder_coeffs(ax as int));
    assert(cyl_type@ == cylinder_type(ax as int));
    let cyl_id = *next_id;
    *next_id = *next_id + 1;
    let lo_id = *next_id;
    *next_id = *next_id + 1;
    let hi_id = *next_id;
    *next_id = *next_id + 1;
    let cyl = Facet { id: cyl_id, stype: cyl_type, coeffs: cyl_coeffs };
    let lo = plane_facet(lo_id, ax, Coef::CapLow(ax));
    let hi = plane_facet(hi_id, ax, Coef::CapHigh(ax));
    let facets = vec![cyl, lo, hi];
    let inside_cyl: i32 = -(cyl_id as i32);
    let below_hi: i32 = -(hi_id as i32);
    let interior = vec![inside_cyl, lo_id as i32, below_hi];
    let mut reason: Vec<char> = Vec::new();
    append_str(&mut reason, "RCC ");
    append_dec(&mut reason, num as u64);
    append_str(&mut reason, " expanded to ");
    append_str(&mut reason, cyl_type);
    append_str(&mut reason, " ");
    append_dec(&mut reason, cyl_id as u64);
    append_str(&mut reason, " and 2 cap planes (");
    append_dec(&mut reason, lo_id as u64);
    append_str(&mut reason, " ");
    append_dec(&mut reason, hi_id as u64);
    append_str(&mut reason, ")");
    assert(reason@ =~= rcc_note(num, ax as int, cyl_id).reason);
    push_surface_note(drift, num, reason);
    let r = MacroExpansion { facets, interior };
    assert(r@.facets =~= rcc_expansion(ax as int, cyl_id).facets);
    assert(r@.interior =~= rcc_expansion(ax as int, cyl_id).interior);
    Ok(r)
}

/// One deck surface card with what the surface pass reads of it.
#[derive(Debug, Clone, PartialEq, Eq)]
pub struct DeckSurface {
    pub card: SurfaceCard,
    /// Transform number linked by the card.
    pub transform: Option<u32>,
    /// Which components (x, y, z) of an `RCC` axis vector are nonzero.
    pub rcc_nonzero: [bool; 3],
    /// The nonzero component of an `RCC` axis vector is positive.
    pub rcc_ascending: bool,
    /// Which components of each `BOX` edge vector are nonzero.
    pub box_nonzero: [[bool; 3]; 3],
    /// Periodic partner surface named by the card.
    pub periodic: Option<u32>,
    /// The card carries the reflecting marker `*`.
    pub reflecting: bool,
}

/// What the surface pass produces: the surfaces that map directly (in deck
/// order), the expanded macrobodies by surface number, and the next free
/// surface id.
#[derive(Debug, Clone, PartialEq, Eq)]
pub struct SurfacePlan {
    pub direct: Vec<Facet>,
    pub macros: Vec<(u32, MacroExpansion)>,
    pub next_id: u32,
}

pub struct PlanView {
    pub direct: Seq<FacetView>,
    pub macros: Seq<(u32, ExpansionView)>,
    pub next_id: u32,
    pub notes: Seq<NoteView>,
}

/// The macrobodies with their expansions as views.
pub open spec fn macro_views(m: Seq<(u32, MacroExpansion)>) -> Seq<(u32, ExpansionView)> {
    m.map_values(|e: (u32, MacroExpansion)| (e.0, e.1@))
}

proof fn lemma_macro_views_put(m: Seq<(u32, MacroExpansion)>, k: u32, v: MacroExpansion)
    ensures
        macro_views(put(m, k, v)) == put(macro_views(m), k, v@),
    decreases m.len(),
{
    if m.len() == 0 {
        assert(macro_views(put(m, k, v)) =~= put(macro_views(m), k, v@));
    } else if m[0].0 == k {
        assert(macro_views(m).drop_first() =~= macro_views(m.drop_first()));
        assert(macro_views(put(m, k, v)) =~= put(macro_views(m), k, v@));
    } else if m[0].0 > k {
        assert(macro_views(put(m, k, v)) =~= put(macro_views(m), k, v@));
    } else {
        lemma_macro_views_put(m.drop_first(), k, v);
        assert(macro_views(m).drop_first() =~= macro_views(m.drop_first()));
        assert(macro_views(put(m, k, v)) =~= seq![macro_views(m)[0]] + macro_views(put(m.drop_first(), k, v)));
    }
}

/// The surface pass on one card.
pub open spec fn surf_step(st: PlanView, c: DeckSurface) -> (Result<(), ErrorView>, PlanView) {
    let num = c.card.num;
    match c.transform {
        Some(tr) => (Err(ErrorView::TransformOutOfScope("surface "@ + dec(num as nat) + " links transform "@ + dec(tr as nat))), st),
        None => match surface_map(num, c.card.kind, c.card.keyword@) {
            Err(e) => (Err(e), st),
            Ok(SurfaceMapView::Direct(t, cs)) => (Ok(()), PlanView {
                direct: st.direct.push(FacetView { id: num, stype: t, coeffs: cs }),
                ..st
            }),
            Ok(SurfaceMapView::Rpp) => (Ok(()), PlanView {
                macros: put(st.macros, num, rpp_expansion(st.next_id)),
                next_id: (st.next_id + 6) as u32,
                notes: st.notes.push(rpp_note(num, st.next_id)),
                ..st
            }),
            Ok(SurfaceMapView::Rcc) => match single_axis(c.rcc_nonzero@) {
                None => (Err(ErrorView::MacrobodyOutOfScope(num, c.card.keyword@, canted_detail())), st),
                Some(ax) => (Ok(()), PlanView {
                    macros: put(st.macros, num, rcc_expansion(ax, st.next_id)),
                    next_id: (st.next_id + 3) as u32,
                    notes: st.notes.push(rcc_note(num, ax, st.next_id)),
                    ..st
                }),
            },
        },
    }
}

/// The surface pass on cards `cs[i..]`, stopping at the first error.
pub open spec fn surfs_step(st: PlanView, cs: Seq<DeckSurface>, i: int) -> (Result<(), ErrorView>, PlanView)
    decreases cs.len() - i,
{
    if i < 0 || i >= cs.len() {
        (Ok(()), st)
    } else {
        let (r, s1) = surf_step(st, cs[i]);
        match r {
            Err(e) => (Err(e), s1),
            Ok(()) => surfs_step(s1, cs, i + 1),
        }
    }
}

/// The surface numbers of the cards.
pub open spec fn card_nums(cs: Seq<DeckSurface>) -> Seq<u32> {
    cs.map_values(|c: DeckSurface| c.card.num)
}

/// The pass over the deck's surface cards, from ids above every card number.
pub open spec fn surface_pass(cs: Seq<DeckSurface>) -> (Result<(), ErrorView>, PlanView) {
    surfs_step(
        PlanView { direct: Seq::empty(), macros: Seq::empty(), next_id: (seq_max(card_nums(cs)) + 1) as u32, notes: Seq::empty() },
        cs,
        0,
    )
}

pub(crate) proof fn lemma_seq_max_bound(s: Seq<u32>, b: int)
    requires
        forall|i: int| 0 <= i < s.len() ==> s[i] < b,
        b > 0,
    ensures
        seq_max(s) < b,
    decreases s.len(),
{
    if s.len() > 0 {
        lemma_seq_max_bound(s.drop_last(), b);
    }
}

proof fn lemma_surfs_next_id(st: PlanView, cs: Seq<DeckSurface>, i: int)
    requires
        0 <= i <= cs.len(),
        st.next_id + 6 * (cs.len() - i) < 0x8000_0000,
    ensures
        surfs_step(st, cs, i).1.next_id <= st.next_id + 6 * (cs.len() - i),
    decreases cs.len() - i,
{
    if i < cs.len() {
        let (r, s1) = surf_step(st, cs[i]);
        if r is Ok {
            lemma_surfs_next_id(s1, cs, i + 1);
        }
    }
}

/// The surface pass of a conversion: refuse cards that link a transform,
/// map each card (see [`map_surface`]), and expand `RPP`s and axis-aligned
/// `RCC`s (see [`expand_rpp`], [`expand_rcc`]) under fresh ids above every
/// card number, noting each expansion; it stops at the first error.
pub fn plan_surfaces(surfs: &Vec<DeckSurface>, drift: &mut DriftTable) -> (r: Result<SurfacePlan, Error>)
    requires
        forall|i: int| 0 <= i < surfs.len() ==> #[trigger] surfs@[i].card.num + 6 * surfs.len() + 1 < 0x8000_0000,
    ensures
        ({
            let (res, pv) = surface_pass(surfs@);
            let n = old(drift).entries@.len();
            &&& match (r, res) {
                (Ok(plan), Ok(())) => {
                    &&& plan.direct@.map_values(|f: Facet| f@) == pv.direct
                    &&& macro_views(plan.macros@) == pv.macros
                    &&& plan.next_id == pv.next_id
                },
                (Err(e), Err(v)) => e@ == v,
                _ => false,
            }
            &&& final(drift).entries@.len() == n + pv.notes.len()
            &&& final(drift).entries@.take(n as int) == old(drift).entries@
            &&& forall|i: int| 0 <= i < pv.notes.len() ==> {
                &&& (#[trigger] final(drift).entries@[n + i]).scope == DriftScope::Surface
                &&& note_view(final(drift).entries@[n + i]) == pv.notes[i]
            }
        }),
{
    let ghost nums = card_nums(surfs@);
    let mut top: u32 = 0;
    let mut k: usize = 0;
    while k < surfs.len()
        invariant
            k <= surfs.len(),
            nums == card_nums(surfs@),
            top == seq_max(nums.take(k as int)),
        decreases surfs.len() - k,
    {
        assert(nums.take(k + 1).drop_last() =~= nums.take(k as int));
        if surfs[k].card.num > top {
            top = surfs[k].card.num;
        }
        k = k + 1;
    }
    assert(nums.take(nums.len() as int) =~= nums);
    proof {
        if surfs.len() > 0 {
            lemma_seq_max_bound(nums, 0x8000_0000 - 6 * surfs.len() - 1);
        }
    }
    let mut next_id: u32 = top + 1;
    let ghost st0 = PlanView { direct: Seq::empty(), macros: Seq::empty(), next_id, notes: Seq::empty() };
    let mut direct: Vec<Facet> = Vec::new();
    let mut macros: Vec<(u32, MacroExpansion)> = Vec::new();
    let ghost n = drift.entries@.len();
    let ghost e0 = drift.entries@;
    assert(drift.entries@.take(n as int) =~= e0);
    proof {
        lemma_surfs_next_id(st0, surfs@, 0);
        assert(direct@.map_values(|f: Facet| f@) =~= Seq::<FacetView>::empty());
        assert(macro_views(macros@) =~= Seq::<(u32, ExpansionView)>::empty());
        assert(drift.entries@.skip(n as int).map_values(|e: DriftEntry| note_view(e)) =~= Seq::<NoteView>::empty());
    }
    let mut i: usize = 0;
    while i < surfs.len()
        invariant
            i <= surfs.len(),
            n == e0.len(),
            e0 == old(drift).entries@,
            surface_pass(surfs@) == surfs_step(st0, surfs@, 0),
            ({
                let cur = PlanView {
                    direct: direct@.map_values(|f: Facet| f@),
                    macros: macro_views(macros@),
                    next_id,
                    notes: drift.entries@.skip(n as int).map_values(|e: DriftEntry| note_view(e)),
                };
                &&& surfs_step(st0, surfs@, 0) == surfs_step(cur, surfs@, i as int)
                &&& next_id + 6 * (surfs.len() - i) < 0x8000_0000
            }),
            drift.entries@.len() >= n,
            drift.entries@.take(n as int) == e0,
            forall|t: int| n <= t < drift.entries@.len() ==> (#[trigger] drift.entries@[t]).scope == DriftScope::Surface,
        decreases surfs.len() - i,
    {
        let c = &surfs[i];
        let ghost cur = PlanView {
            direct: direct@.map_values(|f: Facet| f@),
            macros: macro_views(macros@),
            next_id,
            notes: drift.entries@.skip(n as int).map_values(|e: DriftEntry| note_view(e)),
        };
        if let Some(tr) = c.transform {
            let mut d: Vec<char> = Vec::new();
            append_str(&mut d, "surface ");
            append_dec(&mut d, c.card.num as u64);
            append_str(&mut d, " links transform ");
            append_dec(&mut d, tr as u64);
            assert(d@ =~= "surface "@ + dec(c.card.num as nat) + " links transform "@ + dec(tr as nat));
            return Err(Error::TransformOutOfScope { detail: string_from_chars(d.as_slice()) });
        }
        let ghost before = drift.entries@;
        match map_surface(&c.card) {
            Err(e) => {
                return Err(e);
            },
            Ok(SurfaceMap::Direct { stype, coeffs }) => {
                let f = Facet { id: c.card.num, stype, coeffs };
                direct.push(f);
                assert(direct@.map_values(|f: Facet| f@) =~= cur.direct.push(f@));
            },
            Ok(SurfaceMap::Rpp) => {
                let e = expand_rpp(&mut next_id, drift, c.card.num);
                proof {
                    lemma_macro_views_put(macros@, c.card.num, e);
                }
                put_entry(&mut macros, c.card.num, e);
                assert(drift.entries@.skip(n as int).map_values(|e: DriftEntry| note_view(e)) =~= cur.notes.push(note_view(drift.entries@.last())));
                assert(drift.entries@.take(n as int) =~= before.take(n as int));
            },
            Ok(SurfaceMap::Rcc) => {
                match expand_rcc(&mut next_id, drift, c.card.num, &c.card.keyword, c.rcc_nonzero) {
                    Err(e) => {
                        return Err(e);
                    },
                    Ok(e) => {
                        proof {
                            lemma_macro_views_put(macros@, c.card.num, e);
                        }
                        put_entry(&mut macros, c.card.num, e);
                        assert(drift.entries@.skip(n as int).map_values(|e: DriftEntry| note_view(e)) =~= cur.notes.push(note_view(drift.entries@.last())));
                        assert(drift.entries@.take(n as int) =~= before.take(n as int));
                    },
                }
            },
        }
        assert forall|t: int| n <= t < drift.entries@.len() implies (#[trigger] drift.entries@[t]).scope == DriftScope::Surface by {
            if t < before.len() && drift.entries@.len() > before.len() {
                assert(drift.entries@.drop_last() == before);
                assert(before[t] == drift.entries@[t]);
            }
        }
        i = i + 1;
    }
    Ok(SurfacePlan { direct, macros, next_id })
}

/// The ids of the facets of each macrobody, in order.
pub open spec fn facet_ids(ms: Seq<(u32, ExpansionView)>) -> Seq<u32>
    decreases ms.len(),
{
    if ms.len() == 0 {
        Seq::empty()
    } else {
        facet_ids(ms.drop_last()) + ms.last().1.facets.map_values(|f: FacetView| f.id)
    }
}

/// The ids of every emitted surface: the direct ones, then the facets of
/// each macrobody by surface number.
pub open spec fn emitted(direct: Seq<FacetView>, ms: Seq<(u32, ExpansionView)>) -> Seq<u32> {
    direct.map_values(|f: FacetView| f.id) + facet_ids(ms)
}

impl SurfacePlan {
    /// The ids of every emitted surface: the direct ones, then the facets
    /// of each macrobody by surface number.
    pub fn emitted_ids(&self) -> (r: Vec<u32>)
        ensures
            r@ == emitted(self.direct@.map_values(|f: Facet| f@), macro_views(self.macros@)),
    {
        let ghost dv = self.direct@.map_values(|f: Facet| f@);
        let ghost mv = macro_views(self.macros@);
        let mut r: Vec<u32> = Vec::new();
        let mut i: usize = 0;
        while i < self.direct.len()
            invariant
                i <= self.direct.len(),
                dv == self.direct@.map_values(|f: Facet| f@),
                r@ == dv.map_values(|f: FacetView| f.id).take(i as int),
            decreases self.direct.len() - i,
        {
            r.push(self.direct[i].id);
            assert(r@ =~= dv.map_values(|f: FacetView| f.id).take(i + 1));
            i = i + 1;
        }
        assert(dv.map_values(|f: FacetView| f.id).take(i as int) =~= dv.map_values(|f: FacetView| f.id));
        let ghost head = r@;
        let mut k: usize = 0;
        while k < self.macros.len()
            invariant
                k <= self.macros.len(),
                mv == macro_views(self.macros@),
                r@ == head + facet_ids(mv.take(k as int)),
            decreases self.macros.len() - k,
        {
            let fs = &self.macros[k].1.facets;
            let ghost fv = mv[k as int].1.facets;
            assert(fv == fs@.map_values(|f: Facet| f@));
            let ghost r0 = r@;
            let mut j: usize = 0;
            while j < fs.len()
                invariant
                    j <= fs.len(),
                    fv == fs@.map_values(|f: Facet| f@),
                    r@ == r0 + fv.map_values(|f: FacetView| f.id).take(j as int),
                decreases fs.len() - j,
            {
                r.push(fs[j].id);
                assert(r@ =~= r0 + fv.map_values(|f: FacetView| f.id).take(j + 1));
                j = j + 1;
            }
            assert(fv.map_values(|f: FacetView| f.id).take(j as int) =~= fv.map_values(|f: FacetView| f.id));
            assert(mv.take(k + 1).drop_last() =~= mv.take(k as int));
            assert(r@ =~= head + facet_ids(mv.take(k + 1)));
            k = k + 1;
        }
        assert(mv.take(k as int) =~= mv);
        r
    }

    /// Each macrobody's surface number with the signed facet ids whose
    /// intersection is its interior.
    pub fn interiors(&self) -> (r: Vec<(u32, Vec<i32>)>)
        ensures
            r@.map_values(|m: (u32, Vec<i32>)| (m.0, m.1@)) == macro_views(self.macros@).map_values(
                |m: (u32, ExpansionView)| (m.0, m.1.interior),
            ),
    {
        let ghost target = macro_views(self.macros@).map_values(|m: (u32, ExpansionView)| (m.0, m.1.interior));
        let mut r: Vec<(u32, Vec<i32>)> = Vec::new();
        let mut k: usize = 0;
        while k < self.macros.len()
            invariant
                k <= self.macros.len(),
                target == macro_views(self.macros@).map_values(|m: (u32, ExpansionView)| (m.0, m.1.interior)),
                r@.map_values(|m: (u32, Vec<i32>)| (m.0, m.1@)) == target.take(k as int),
            decreases self.macros.len() - k,
        {
            let src = &self.macros[k].1.interior;
            let mut copy: Vec<i32> = Vec::new();
            let mut j: usize = 0;
            while j < src.len()
                invariant
                    j <= src.len(),
                    copy@ == src@.take(j as int),
                decreases src.len() - j,
            {
                copy.push(src[j]);
                assert(copy@ =~= src@.take(j + 1));
                j = j + 1;
            }
            assert(src@.take(j as int) =~= src@);
            let ghost before = r@.map_values(|m: (u32, Vec<i32>)| (m.0, m.1@));
            r.push((self.macros[k].0, copy));
            assert(r@.map_values(|m: (u32, Vec<i32>)| (m.0, m.1@)) =~= before.push((self.macros@[k as int].0, src@)));
            assert(target.take(k + 1) =~= target.take(k as int).push(target[k as int]));
            k = k + 1;
        }
        assert(target.take(k as int) =~= target);
        r
    }
}

/// Every facet id of the macrobodies `ms` lies in `lo .. hi`.
pub open spec fn facets_within(ms: Seq<(u32, ExpansionView)>, lo: int, hi: int) -> bool {
    forall|k: int, j: int| 0 <= k < ms.len() && 0 <= j < ms[k].1.facets.len() ==> lo <= #[trigger] ms[k].1.facets[j].id < hi
}

proof fn lemma_put_elements<V>(m: Seq<(u32, V)>, k: u32, v: V, i: int)
    requires
        0 <= i < put(m, k, v).len(),
    ensures
        put(m, k, v)[i] == (k, v) || exists|t: int| 0 <= t < m.len() && m[t] == put(m, k, v)[i],
    decreases m.len(),
{
    if m.len() == 0 {
    } else if m[0].0 == k {
        if i > 0 {
            assert(m[i] == put(m, k, v)[i]);
        }
    } else if m[0].0 > k {
        if i > 0 {
            assert(m[i - 1] == put(m, k, v)[i]);
        }
    } else {
        if i == 0 {
            assert(m[0] == put(m, k, v)[0]);
        } else {
            lemma_put_elements(m.drop_first(), k, v, i - 1);
            if put(m, k, v)[i] != (k, v) {
                let t = choose|t: int| 0 <= t < m.drop_first().len() && m.drop_first()[t] == put(m.drop_first(), k, v)[i - 1];
                assert(m[t + 1] == put(m, k, v)[i]);
            }
        }
    }
}

proof fn lemma_put_within(ms: Seq<(u32, ExpansionView)>, k: u32, v: ExpansionView, lo: int, hi: int)
    requires
        facets_within(ms, lo, hi),
        forall|j: int| 0 <= j < v.facets.len() ==> lo <= #[trigger] v.facets[j].id < hi,
    ensures
        facets_within(put(ms, k, v), lo, hi),
{
    let p = put(ms, k, v);
    assert forall|a: int, j: int| 0 <= a < p.len() && 0 <= j < p[a].1.facets.len() implies lo <= #[trigger] p[a].1.facets[j].id < hi by {
        lemma_put_elements(ms, k, v, a);
        if p[a] != (k, v) {
            let t = choose|t: int| 0 <= t < ms.len() && ms[t] == p[a];
            assert(ms[t].1.facets[j].id == p[a].1.facets[j].id);
        }
    }
}

proof fn lemma_within_widen(ms: Seq<(u32, ExpansionView)>, lo: int, hi: int, hi2: int)
    requires
        facets_within(ms, lo, hi),
        hi <= hi2,
    ensures
        facets_within(ms, lo, hi2),
{
}

proof fn lemma_step_fresh(st: PlanView, c: DeckSurface, lo: int)
    requires
        facets_within(st.macros, lo, st.next_id as int),
        lo <= st.next_id,
        st.next_id + 6 < 0x8000_0000,
    ensures
        facets_within(surf_step(st, c).1.macros, lo, surf_step(st, c).1.next_id as int),
        st.next_id <= surf_step(st, c).1.next_id <= st.next_id + 6,
{
    let (r, s1) = surf_step(st, c);
    match c.transform {
        Some(_) => {},
        None => match surface_map(c.card.num, c.card.kind, c.card.keyword@) {
            Ok(SurfaceMapView::Rpp) => {
                lemma_within_widen(st.macros, lo, st.next_id as int, st.next_id + 6);
                lemma_put_within(st.macros, c.card.num, rpp_expansion(st.next_id), lo, st.next_id + 6);
            },
            Ok(SurfaceMapView::Rcc) => match single_axis(c.rcc_nonzero@) {
                Some(ax) => {
                    lemma_within_widen(st.macros, lo, st.next_id as int, st.next_id + 3);
                    lemma_put_within(st.macros, c.card.num, rcc_expansion(ax, st.next_id), lo, st.next_id + 3);
                },
                None => {},
            },
            _ => {},
        },
    }
}

proof fn lemma_surfs_fresh(st: PlanView, cs: Seq<DeckSurface>, i: int, lo: int)
    requires
        0 <= i <= cs.len(),
        facets_within(st.macros, lo, st.next_id as int),
        lo <= st.next_id,
        st.next_id + 6 * (cs.len() - i) < 0x8000_0000,
    ensures
        facets_within(surfs_step(st, cs, i).1.macros, lo, surfs_step(st, cs, i).1.next_id as int),
    decreases cs.len() - i,
{
    if i < cs.len() {
        lemma_step_fresh(st, cs[i], lo);
        let (r, s1) = surf_step(st, cs[i]);
        if r is Ok {
            lemma_surfs_fresh(s1, cs, i + 1, lo);
        }
    }
}

/// Facet ids are fresh: every id of an expanded macrobody's facets lies
/// above every surface number of the deck and below the next free id, so
/// no facet shares its id with a deck surface.
pub proof fn lemma_facet_ids_above_deck(cs: Seq<DeckSurface>)
    requires
        forall|i: int| 0 <= i < cs.len() ==> #[trigger] cs[i].card.num + 6 * cs.len() + 1 < 0x8000_0000,
    ensures
        facets_within(
            surface_pass(cs).1.macros,
            seq_max(card_nums(cs)) + 1,
            surface_pass(cs).1.next_id as int,
        ),
{
    let nums = card_nums(cs);
    if cs.len() > 0 {
        assert forall|i: int| 0 <= i < nums.len() implies nums[i] < 0x8000_0000 - 6 * cs.len() - 1 by {
            assert(nums[i] == cs[i].card.num);
        }
        assert(cs[0].card.num + 6 * cs.len() + 1 < 0x8000_0000);
        lemma_seq_max_bound(nums, 0x8000_0000 - 6 * cs.len() - 1);
    }
    let st0 = PlanView {
        direct: Seq::empty(),
        macros: Seq::empty(),
        next_id: (seq_max(nums) + 1) as u32,
        notes: Seq::empty(),
    };
    lemma_surfs_fresh(st0, cs, 0, seq_max(nums) + 1);
}

/// Every macrobody of `ms` has facets in its interior, none of them `i32::MIN`.
pub open spec fn interiors_ok(ms: Seq<(u32, ExpansionView)>) -> bool {
    forall|k: int| 0 <= k < ms.len() ==> {
        &&& (#[trigger] ms[k]).1.interior.len() > 0
        &&& forall|j: int| 0 <= j < ms[k].1.interior.len() ==> ms[k].1.interior[j] != i32::MIN
    }
}

proof fn lemma_step_interiors(st: PlanView, c: DeckSurface)
    requires
        interiors_ok(st.macros),
        st.next_id + 6 < 0x8000_0000,
    ensures
        interiors_ok(surf_step(st, c).1.macros),
{
    match c.transform {
        Some(_) => {},
        None => match surface_map(c.card.num, c.card.kind, c.card.keyword@) {
            Ok(SurfaceMapView::Rpp) => {
                let v = rpp_expansion(st.next_id);
                let p = put(st.macros, c.card.num, v);
                assert forall|k: int| 0 <= k < p.len() implies {
                    &&& (#[trigger] p[k]).1.interior.len() > 0
                    &&& forall|j: int| 0 <= j < p[k].1.interior.len() ==> p[k].1.interior[j] != i32::MIN
                } by {
                    lemma_put_elements(st.macros, c.card.num, v, k);
                    if p[k] != (c.card.num, v) {
                        let t = choose|t: int| 0 <= t < st.macros.len() && st.macros[t] == p[k];
                        assert(st.macros[t] == p[k]);
                    }
                }
            },
            Ok(SurfaceMapView::Rcc) => match single_axis(c.rcc_nonzero@) {
                Some(ax) => {
                    let v = rcc_expansion(ax, st.next_id);
                    let p = put(st.macros, c.card.num, v);
                    assert forall|k: int| 0 <= k < p.len() implies {
                        &&& (#[trigger] p[k]).1.interior.len() > 0
                        &&& forall|j: int| 0 <= j < p[k].1.interior.len() ==> p[k].1.interior[j] != i32::MIN
                    } by {
                        lemma_put_elements(st.macros, c.card.num, v, k);
                        if p[k] != (c.card.num, v) {
                            let t = choose|t: int| 0 <= t < st.macros.len() && st.macros[t] == p[k];
                            assert(st.macros[t] == p[k]);
                        }
                    }
                },
                None => {},
            },
            _ => {},
        },
    }
}

proof fn lemma_surfs_interiors(st: PlanView, cs: Seq<DeckSurface>, i: int)
    requires
        0 <= i <= cs.len(),
        interiors_ok(st.macros),
        st.next_id + 6 * (cs.len() - i) < 0x8000_0000,
    ensures
        interiors_ok(surfs_step(st, cs, i).1.macros),
    decreases cs.len() - i,
{
    if i < cs.len() {
        lemma_step_interiors(st, cs[i]);
        let (r, s1) = surf_step(st, cs[i]);
        if r is Ok {
            assert(s1.next_id <= st.next_id + 6);
            lemma_surfs_interiors(s1, cs, i + 1);
        }
    }
}

/// The macrobodies of a surface pass have nonempty interiors of facet ids
/// that fit a signed literal.
pub proof fn lemma_pass_interiors_ok(cs: Seq<DeckSurface>)
    requires
        forall|i: int| 0 <= i < cs.len() ==> #[trigger] cs[i].card.num + 6 * cs.len() + 1 < 0x8000_0000,
    ensures
        interiors_ok(surface_pass(cs).1.macros),
{
    let nums = card_nums(cs);
    if cs.len() > 0 {
        assert forall|i: int| 0 <= i < nums.len() implies nums[i] < 0x8000_0000 - 6 * cs.len() - 1 by {
            assert(nums[i] == cs[i].card.num);
        }
        assert(cs[0].card.num + 6 * cs.len() + 1 < 0x8000_0000);
        lemma_seq_max_bound(nums, 0x8000_0000 - 6 * cs.len() - 1);
    }
    let st0 = PlanView {
        direct: Seq::empty(),
        macros: Seq::empty(),
        next_id: (seq_max(nums) + 1) as u32,
        notes: Seq::empty(),
    };
    lemma_surfs_interiors(st0, cs, 0);
}

} // verus!
