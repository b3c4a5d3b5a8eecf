//! The boundary pass of a geometry conversion: reflective markers (from
//! surface cards and from cell-level markers) and periodic surface pairs
//! are checked against each other and assigned to the emitted surfaces.

use vstd::prelude::*;
use crate::drift::{DriftEntry, DriftScope, DriftTable};
use crate::text::{dec, append_str, append_dec, string_from_chars};
use crate::universe::{put, get, put_entry, get_entry, note_view, NoteView};
use crate::region::{GeomExpr, GeomView, geom_view, geom_views, abs_id};
use crate::expand::DeckSurface;
use crate::xlate::{Error, ErrorView};

verus! {

/// An OpenMC boundary condition.
#[derive(Debug, Clone, Copy, PartialEq, Eq, Structural)]
pub enum Boundary {
    Reflective,
    Periodic,
}

/// The boundary markers of one deck surface card.
#[derive(Debug, Clone, Copy, PartialEq, Eq, Structural)]
pub struct SurfaceFlags {
    /// Surface number.
    pub num: u32,
    /// Periodic partner surface named by the card.
    pub periodic: Option<u32>,
    /// The card carries the reflecting marker `*`.
    pub reflecting: bool,
}

/// The boundary of one emitted surface.
#[derive(Debug, Clone, Copy, PartialEq, Eq, Structural)]
pub struct SurfaceBoundary {
    pub id: u32,
    pub boundary: Option<Boundary>,
    /// Periodic partner (set with [`Boundary::Periodic`]).
    pub periodic_id: Option<u32>,
}

/// The periodic pointers of the cards, by surface number (a later card of
/// the same number replacing an earlier one).
pub open spec fn periodic_map(cards: Seq<SurfaceFlags>) -> Seq<(u32, u32)>
    decreases cards.len(),
{
    if cards.len() == 0 {
        Seq::empty()
    } else {
        let m = periodic_map(cards.drop_last());
        match cards.last().periodic {
            Some(p) => put(m, cards.last().num, p),
            None => m,
        }
    }
}

/// `id` is a deck surface number.
pub open spec fn is_deck_surface(cards: Seq<SurfaceFlags>, id: u32) -> bool {
    exists|i: int| 0 <= i < cards.len() && (#[trigger] cards[i]).num == id
}

/// `id` is reflective: by a card marker, or forced by a cell-level marker.
pub open spec fn is_reflective(cards: Seq<SurfaceFlags>, forced: Seq<u32>, id: u32) -> bool {
    (exists|i: int| 0 <= i < cards.len() && (#[trigger] cards[i]).num == id && cards[i].reflecting) || forced.contains(id)
}

/// The least forced-reflective surface that is not emitted.
pub open spec fn min_missing(forced: Seq<u32>, known: Seq<u32>) -> Option<u32>
    decreases forced.len(),
{
    if forced.len() == 0 {
        None
    } else {
        let r = min_missing(forced.drop_last(), known);
        let x = forced.last();
        if known.contains(x) {
            r
        } else {
            match r {
                None => Some(x),
                Some(m) => Some(if x < m { x } else { m }),
            }
        }
    }
}

/// What is wrong with the periodic pair `s` to `p`, if anything.
pub open spec fn pair_error(pm: Seq<(u32, u32)>, cards: Seq<SurfaceFlags>, forced: Seq<u32>, s: u32, p: u32) -> Option<ErrorView> {
    if !is_deck_surface(cards, p) {
        Some(ErrorView::PeriodicAmbiguous(s, p, "partner surface "@ + dec(p as nat) + " is absent from the deck"@))
    } else if is_reflective(cards, forced, s) {
        Some(ErrorView::ReflectiveConflict(s, "surface "@ + dec(s as nat) + " is both reflective and periodic"@))
    } else if is_reflective(cards, forced, p) {
        Some(ErrorView::ReflectiveConflict(p, "periodic partner "@ + dec(p as nat) + " is reflective"@))
    } else {
        match get(pm, p) {
            Some(back) => if back != s {
                Some(ErrorView::PeriodicAmbiguous(
                    s,
                    p,
                    "partner "@ + dec(p as nat) + " points at surface "@ + dec(back as nat) + " instead"@,
                ))
            } else {
                None
            },
            None => None,
        }
    }
}

/// The first error among the pairs `pm[i..]`.
pub open spec fn first_pair_error(pm: Seq<(u32, u32)>, cards: Seq<SurfaceFlags>, forced: Seq<u32>, i: int) -> Option<ErrorView>
    decreases pm.len() - i,
{
    if i < 0 || i >= pm.len() {
        None
    } else {
        match pair_error(pm, cards, forced, pm[i].0, pm[i].1) {
            Some(e) => Some(e),
            None => first_pair_error(pm, cards, forced, i + 1),
        }
    }
}

/// The boundary of surface `id` after the pairs of `pm`, in order, over a
/// reflective (or plain) start.
pub open spec fn assigned(pm: Seq<(u32, u32)>, refl: bool, id: u32) -> (Option<Boundary>, Option<u32>)
    decreases pm.len(),
{
    if pm.len() == 0 {
        if refl {
            (Some(Boundary::Reflective), None)
        } else {
            (None, None)
        }
    } else if id == pm.last().0 {
        (Some(Boundary::Periodic), Some(pm.last().1))
    } else if id == pm.last().1 {
        (Some(Boundary::Periodic), Some(pm.last().0))
    } else {
        assigned(pm.drop_last(), refl, id)
    }
}

/// The note of one periodic link.
pub open spec fn link_note(s: u32, p: u32) -> NoteView {
    NoteView {
        target: s,
        action: "periodic-link"@,
        reason: "surface "@ + dec(s as nat) + " paired periodic with surface "@ + dec(p as nat),
    }
}

/// The outcome of the boundary pass over the emitted surfaces `known`.
pub open spec fn boundary_outcome(cards: Seq<SurfaceFlags>, known: Seq<u32>, forced: Seq<u32>) -> Result<Seq<SurfaceBoundary>, ErrorView> {
    let pm = periodic_map(cards);
    match min_missing(forced, known) {
        Some(id) => Err(ErrorView::UnknownSurface(0, id)),
        None => match first_pair_error(pm, cards, forced, 0) {
            Some(e) => Err(e),
            None => Ok(Seq::new(known.len(), |i: int| {
                let (b, q) = assigned(pm, is_reflective(cards, forced, known[i]), known[i]);
                SurfaceBoundary { id: known[i], boundary: b, periodic_id: q }
            })),
        },
    }
}

fn contains_u32(s: &Vec<u32>, x: u32) -> (r: bool)
    ensures
        r == s@.contains(x),
{
    let mut i: usize = 0;
    while i < s.len()
        invariant
            i <= s.len(),
            forall|k: int| 0 <= k < i ==> s@[k] != x,
        decreases s.len() - i,
    {
        if s[i] == x {
            return true;
        }
        i = i + 1;
    }
    false
}

fn deck_surface(cards: &Vec<SurfaceFlags>, id: u32) -> (r: bool)
    ensures
        r == is_deck_surface(cards@, id),
{
    let mut i: usize = 0;
    while i < cards.len()
        invariant
            i <= cards.len(),
            forall|k: int| 0 <= k < i ==> (#[trigger] cards@[k]).num != id,
        decreases cards.len() - i,
    {
        if cards[i].num == id {
            return true;
        }
        i = i + 1;
    }
    false
}

fn reflective(cards: &Vec<SurfaceFlags>, forced: &Vec<u32>, id: u32) -> (r: bool)
    ensures
        r == is_reflective(cards@, forced@, id),
{
    let mut i: usize = 0;
    while i < cards.len()
        invariant
            i <= cards.len(),
            forall|k: int| 0 <= k < i ==> !((#[trigger] cards@[k]).num == id && cards@[k].reflecting),
        decreases cards.len() - i,
    {
        if cards[i].num == id && cards[i].reflecting {
            return true;
        }
        i = i + 1;
    }
    contains_u32(forced, id)
}

fn build_periodic_map(cards: &Vec<SurfaceFlags>) -> (r: Vec<(u32, u32)>)
    ensures
        r@ == periodic_map(cards@),
{
    let mut m: Vec<(u32, u32)> = Vec::new();
    let mut i: usize = 0;
    while i < cards.len()
        invariant
            i <= cards.len(),
            m@ == periodic_map(cards@.take(i as int)),
        decreases cards.len() - i,
    {
        assert(cards@.take(i + 1).drop_last() =~= cards@.take(i as int));
        if let Some(p) = cards[i].periodic {
            put_entry(&mut m, cards[i].num, p);
        }
        i = i + 1;
    }
    assert(cards@.take(cards.len() as int) =~= cards@);
    m
}

fn find_missing(forced: &Vec<u32>, known: &Vec<u32>) -> (r: Option<u32>)
    ensures
        r == min_missing(forced@, known@),
{
    let mut r: Option<u32> = None;
    let mut i: usize = 0;
    while i < forced.len()
        invariant
            i <= forced.len(),
            r == min_missing(forced@.take(i as int), known@),
        decreases forced.len() - i,
    {
        assert(forced@.take(i + 1).drop_last() =~= forced@.take(i as int));
        let x = forced[i];
        if !contains_u32(known, x) {
            r = match r {
                None => Some(x),
                Some(m) => Some(if x < m { x } else { m }),
            };
        }
        i = i + 1;
    }
    assert(forced@.take(forced.len() as int) =~= forced@);
    r
}

fn check_pair(pm: &Vec<(u32, u32)>, cards: &Vec<SurfaceFlags>, forced: &Vec<u32>, s: u32, p: u32) -> (r: Result<(), Error>)
    ensures
        match (r, pair_error(pm@, cards@, forced@, s, p)) {
            (Ok(()), None) => true,
            (Err(e), Some(v)) => e@ == v,
            _ => false,
        },
{
    if !deck_surface(cards, p) {
        let mut d: Vec<char> = Vec::new();
        append_str(&mut d, "partner surface ");
        append_dec(&mut d, p as u64);
        append_str(&mut d, " is absent from the deck");
        assert(d@ =~= "partner surface "@ + dec(p as nat) + " is absent from the deck"@);
        return Err(Error::PeriodicAmbiguous { surf: s, partner: p, detail: string_from_chars(d.as_slice()) });
    }
    if reflective(cards, forced, s) {
        let mut d: Vec<char> = Vec::new();
        append_str(&mut d, "surface ");
        append_dec(&mut d, s as u64);
        append_str(&mut d, " is both reflective and periodic");
        assert(d@ =~= "surface "@ + dec(s as nat) + " is both reflective and periodic"@);
        return Err(Error::ReflectiveConflict { surf: s, detail: string_from_chars(d.as_slice()) });
    }
    if reflective(cards, forced, p) {
        let mut d: Vec<char> = Vec::new();
        append_str(&mut d, "periodic partner ");
        append_dec(&mut d, p as u64);
        append_str(&mut d, " is reflective");
        assert(d@ =~= "periodic partner "@ + dec(p as nat) + " is reflective"@);
        return Err(Error::ReflectiveConflict { surf: p, detail: string_from_chars(d.as_slice()) });
    }
    match get_entry(pm, p) {
        Some(back) => {
            if back != s {
                let mut d: Vec<char> = Vec::new();
                append_str(&mut d, "partner ");
                append_dec(&mut d, p as u64);
                append_str(&mut d, " points at surface ");
                append_dec(&mut d, back as u64);
                append_str(&mut d, " instead");
                assert(d@ =~= "partner "@ + dec(p as nat) + " points at surface "@ + dec(back as nat) + " instead"@);
                return Err(Error::PeriodicAmbiguous { surf: s, partner: p, detail: string_from_chars(d.as_slice()) });
            }
            Ok(())
        },
        None => Ok(()),
    }
}

/// Check and assign the boundaries of the emitted surfaces `known`: every
/// surface forced reflective by a cell-level marker must be emitted (else
/// the least missing one is an unknown surface of cell 0); each periodic
/// pair, by surface number, must name a deck surface, involve no
/// reflective surface, and not be contradicted by the partner's own
/// pointer. Then reflective surfaces get [`Boundary::Reflective`], both
/// surfaces of each pair get [`Boundary::Periodic`] naming each other, and
/// each pair adds a surface-scoped `periodic-link` drift note.
pub fn plan_boundaries(cards: &Vec<SurfaceFlags>, known: &Vec<u32>, forced: &Vec<u32>, drift: &mut DriftTable) -> (r: Result<Vec<SurfaceBoundary>, Error>)
    ensures
        match (r, boundary_outcome(cards@, known@, forced@)) {
            (Ok(v), Ok(w)) => v@ == w,
            (Err(e), Err(w)) => e@ == w,
            _ => false,
        },
        r is Err ==> final(drift).entries@ == old(drift).entries@,
        r is Ok ==> {
            let pm = periodic_map(cards@);
            let n = old(drift).entries@.len();
            &&& final(drift).entries@.len() == n + pm.len()
            &&& final(drift).entries@.take(n as int) == old(drift).entries@
            &&& forall|i: int| 0 <= i < pm.len() ==> {
                &&& (#[trigger] final(drift).entries@[n + i]).scope == DriftScope::Surface
                &&& note_view(final(drift).entries@[n + i]) == link_note(pm[i].0, pm[i].1)
            }
        },
{
    let pm = build_periodic_map(cards);
    if let Some(id) = find_missing(forced, known) {
        return Err(Error::UnknownSurface { cell: 0, surf: id });
    }
    let mut i: usize = 0;
    while i < pm.len()
        invariant
            i <= pm.len(),
            pm@ == periodic_map(cards@),
            first_pair_error(pm@, cards@, forced@, 0) == first_pair_error(pm@, cards@, forced@, i as int),
            min_missing(forced@, known@) is None,
            drift.entries@ == old(drift).entries@,
        decreases pm.len() - i,
    {
        match check_pair(&pm, cards, forced, pm[i].0, pm[i].1) {
            Err(e) => {
                return Err(e);
            },
            Ok(()) => {},
        }
        i = i + 1;
    }
    let ghost pmv = pm@;
    let mut out: Vec<SurfaceBoundary> = Vec::new();
    let mut k: usize = 0;
    while k < known.len()
        invariant
            k <= known.len(),
            pmv == pm@,
            pmv == periodic_map(cards@),
            out.len() == k,
            forall|t: int| 0 <= t < k ==> {
                let (b, q) = assigned(pmv, is_reflective(cards@, forced@, known@[t]), known@[t]);
                #[trigger] out@[t] == (SurfaceBoundary { id: known@[t], boundary: b, periodic_id: q })
            },
        decreases known.len() - k,
    {
        let id = known[k];
        let refl = reflective(cards, forced, id);
        let mut b: Option<Boundary> = if refl { Some(Boundary::Reflective) } else { None };
        let mut q: Option<u32> = None;
        let mut j: usize = 0;
        while j < pm.len()
            invariant
                j <= pm.len(),
                pmv == pm@,
                (b, q) == assigned(pmv.take(j as int), refl, id),
            decreases pm.len() - j,
        {
            assert(pmv.take(j + 1).drop_last() =~= pmv.take(j as int));
            let (s, p) = pm[j];
            if id == s {
                b = Some(Boundary::Periodic);
                q = Some(p);
            } else if id == p {
                b = Some(Boundary::Periodic);
                q = Some(s);
            }
            j = j + 1;
        }
        assert(pmv.take(pmv.len() as int) =~= pmv);
        out.push(SurfaceBoundary { id, boundary: b, periodic_id: q });
        k = k + 1;
    }
    let ghost n = drift.entries@.len();
    let ghost e0 = drift.entries@;
    let mut j: usize = 0;
    while j < pm.len()
        invariant
            j <= pm.len(),
            pmv == pm@,
            n == e0.len(),
            drift.entries@.len() == n + j,
            drift.entries@.take(n as int) == e0,
            forall|t: int| 0 <= t < j ==> {
                &&& (#[trigger] drift.entries@[n + t]).scope == DriftScope::Surface
                &&& note_view(drift.entries@[n + t]) == link_note(pmv[t].0, pmv[t].1)
            },
        decreases pm.len() - j,
    {
        let (s, p) = pm[j];
        let mut reason: Vec<char> = Vec::new();
        append_str(&mut reason, "surface ");
        append_dec(&mut reason, s as u64);
        append_str(&mut reason, " paired periodic with surface ");
        append_dec(&mut reason, p as u64);
        assert(reason@ =~= link_note(s, p).reason);
        let a = crate::text::chars_of("periodic-link");
        let e = DriftEntry {
            scope: DriftScope::Surface,
            target: s,
            action: string_from_chars(a.as_slice()),
            reason: string_from_chars(reason.as_slice()),
        };
        let ghost before = drift.entries@;
        drift.entries.push(e);
        assert(drift.entries@.take(n as int) =~= before.take(n as int));
        j = j + 1;
    }
    proof {
        assert(out@ =~= Seq::new(known@.len(), |i: int| {
            let (b, q) = assigned(pmv, is_reflective(cards@, forced@, known@[i]), known@[i]);
            SurfaceBoundary { id: known@[i], boundary: b, periodic_id: q }
        }));
    }
    Ok(out)
}

/// The surface of the first literal of a region, left to right, that
/// carries the reflecting marker (complements are not entered).
pub open spec fn first_reflecting(g: GeomView) -> Option<u32>
    decreases g, 0int,
{
    match g {
        GeomView::HalfSpace(s, r) => if r { Some(abs_id(s)) } else { None },
        GeomView::Intersect(ps) => first_reflecting_from(ps, 0),
        GeomView::Union(a, b) => match first_reflecting(*a) {
            Some(x) => Some(x),
            None => first_reflecting(*b),
        },
        GeomView::Complement(_) => None,
    }
}

/// The first reflecting literal of the regions `ps[i..]`.
pub open spec fn first_reflecting_from(ps: Seq<GeomView>, i: int) -> Option<u32>
    decreases ps, ps.len() - i,
{
    if i < 0 || i >= ps.len() {
        None
    } else {
        match first_reflecting(ps[i]) {
            Some(x) => Some(x),
            None => first_reflecting_from(ps, i + 1),
        }
    }
}

/// The first boundary marker that Serpent cannot carry: a reflecting or
/// periodic surface card (in card order, reflecting first), then a
/// cell-level reflecting marker (in cell order).
pub open spec fn serpent_boundary_error(cards: Seq<SurfaceFlags>, cells: Seq<(u32, GeomView)>) -> Option<ErrorView> {
    match card_marker(cards, 0) {
        Some(e) => Some(e),
        None => cell_marker(cells, 0),
    }
}

pub open spec fn card_marker(cards: Seq<SurfaceFlags>, i: int) -> Option<ErrorView>
    decreases cards.len() - i,
{
    if i < 0 || i >= cards.len() {
        None
    } else if cards[i].reflecting {
        Some(ErrorView::SerpentBoundaryOutOfScope(cards[i].num, "reflective surface card has no serpent spelling"@))
    } else if cards[i].periodic is Some {
        Some(ErrorView::SerpentBoundaryOutOfScope(cards[i].num, "periodic surface pointer has no serpent spelling"@))
    } else {
        card_marker(cards, i + 1)
    }
}

pub open spec fn cell_marker(cells: Seq<(u32, GeomView)>, i: int) -> Option<ErrorView>
    decreases cells.len() - i,
{
    if i < 0 || i >= cells.len() {
        None
    } else {
        match first_reflecting(cells[i].1) {
            Some(id) => Some(ErrorView::SerpentBoundaryOutOfScope(
                id,
                "cell "@ + dec(cells[i].0 as nat) + " `*` marker has no serpent spelling"@,
            )),
            None => cell_marker(cells, i + 1),
        }
    }
}

proof fn lemma_geom_views_index(ps: Vec<GeomExpr>, n: int)
    requires
        0 <= n <= ps.len(),
    ensures
        geom_views(ps, n).len() == n,
        forall|i: int| 0 <= i < n ==> #[trigger] geom_views(ps, n)[i] == geom_view(ps[i]),
    decreases n,
{
    if n > 0 {
        lemma_geom_views_index(ps, n - 1);
    }
}

/// The surface of the first reflecting literal of a region.
pub fn find_reflecting(expr: &GeomExpr) -> (r: Option<u32>)
    ensures
        r == first_reflecting(geom_view(*expr)),
    decreases *expr,
{
    match expr {
        GeomExpr::HalfSpace(h) => {
            if h.reflecting {
                let s = h.surf;
                let id: u32 = if s < 0 {
                    if s == i32::MIN {
                        2147483648u32
                    } else {
                        (-s) as u32
                    }
                } else {
                    s as u32
                };
                Some(id)
            } else {
                None
            }
        },
        GeomExpr::Intersect(parts) => {
            let ghost views = geom_views(*parts, parts.len() as int);
            proof {
                lemma_geom_views_index(*parts, parts.len() as int);
                assert(geom_view(*expr) == GeomView::Intersect(views));
            }
            let mut i: usize = 0;
            while i < parts.len()
                invariant
                    i <= parts.len(),
                    views == geom_views(*parts, parts.len() as int),
                    views.len() == parts.len(),
                    forall|k: int| 0 <= k < parts.len() ==> #[trigger] views[k] == geom_view(parts[k]),
                    *expr == GeomExpr::Intersect(*parts),
                    first_reflecting_from(views, 0) == first_reflecting_from(views, i as int),
                    geom_view(*expr) == GeomView::Intersect(views),
                decreases parts.len() - i,
            {
                proof {
                    vstd::std_specs::vec::axiom_vec_index_decreases(*parts, i as int);
                    assert(decreases_to!(*expr => expr->Intersect_0));
                }
                let r = find_reflecting(&parts[i]);
                if r.is_some() {
                    return r;
                }
                i = i + 1;
            }
            None
        },
        GeomExpr::Union(a, b) => {
            assert(geom_view(*expr) == GeomView::Union(Box::new(geom_view(**a)), Box::new(geom_view(**b))));
            let r = find_reflecting(a);
            if r.is_some() {
                r
            } else {
                find_reflecting(b)
            }
        },
        GeomExpr::Complement(_) => None,
    }
}

/// Refuse the boundary markers Serpent cannot carry: reflecting and
/// periodic surface cards, then cell-level reflecting markers.
pub fn reject_serpent_boundaries(cards: &Vec<SurfaceFlags>, cells: &Vec<(u32, GeomExpr)>) -> (r: Result<(), Error>)
    ensures
        match (r, serpent_boundary_error(cards@, cells@.map_values(|c: (u32, GeomExpr)| (c.0, geom_view(c.1))))) {
            (Ok(()), None) => true,
            (Err(e), Some(v)) => e@ == v,
            _ => false,
        },
{
    let ghost cv = cells@.map_values(|c: (u32, GeomExpr)| (c.0, geom_view(c.1)));
    let mut i: usize = 0;
    while i < cards.len()
        invariant
            i <= cards.len(),
            card_marker(cards@, 0) == card_marker(cards@, i as int),
        decreases cards.len() - i,
    {
        if cards[i].reflecting {
            return Err(Error::SerpentBoundaryOutOfScope {
                surf: cards[i].num,
                detail: "reflective surface card has no serpent spelling".to_string(),
            });
        }
        if cards[i].periodic.is_some() {
            return Err(Error::SerpentBoundaryOutOfScope {
                surf: cards[i].num,
                detail: "periodic surface pointer has no serpent spelling".to_string(),
            });
        }
        i = i + 1;
    }
    let mut k: usize = 0;
    while k < cells.len()
        invariant
            k <= cells.len(),
            cv == cells@.map_values(|c: (u32, GeomExpr)| (c.0, geom_view(c.1))),
            card_marker(cards@, 0) is None,
            cell_marker(cv, 0) == cell_marker(cv, k as int),
        decreases cells.len() - k,
    {
        assert(cv[k as int] == (cells@[k as int].0, geom_view(cells@[k as int].1)));
        match find_reflecting(&cells[k].1) {
            Some(id) => {
                let mut d: Vec<char> = Vec::new();
                append_str(&mut d, "cell ");
                append_dec(&mut d, cells[k].0 as u64);
                append_str(&mut d, " `*` marker has no serpent spelling");
                assert(d@ =~= "cell "@ + dec(cells@[k as int].0 as nat) + " `*` marker has no serpent spelling"@);
                return Err(Error::SerpentBoundaryOutOfScope { surf: id, detail: string_from_chars(d.as_slice()) });
            },
            None => {},
        }
        k = k + 1;
    }
    Ok(())
}

/// The surfaces of the reflecting literals of a region, left to right
/// (complements are not entered).
pub open spec fn reflecting_lits(g: GeomView) -> Seq<u32>
    decreases g, 0int,
{
    match g {
        GeomView::HalfSpace(s, r) => if r { seq![abs_id(s)] } else { Seq::empty() },
        GeomView::Intersect(ps) => reflecting_from(ps, 0),
        GeomView::Union(a, b) => reflecting_lits(*a) + reflecting_lits(*b),
        GeomView::Complement(_) => Seq::empty(),
    }
}

/// The reflecting literals of the regions `ps[i..]`.
pub open spec fn reflecting_from(ps: Seq<GeomView>, i: int) -> Seq<u32>
    decreases ps, ps.len() - i,
{
    if i < 0 || i >= ps.len() {
        Seq::empty()
    } else {
        reflecting_lits(ps[i]) + reflecting_from(ps, i + 1)
    }
}

/// The first surface card PHITS cannot carry: one that links a transform,
/// or one with a periodic pointer.
pub open spec fn phits_card_error(cs: Seq<DeckSurface>, i: int) -> Option<ErrorView>
    decreases cs.len() - i,
{
    if i < 0 || i >= cs.len() {
        None
    } else {
        match cs[i].transform {
            Some(tr) => Some(ErrorView::TransformOutOfScope(
                "surface "@ + dec(cs[i].card.num as nat) + " links transform "@ + dec(tr as nat),
            )),
            None => if cs[i].periodic is Some {
                Some(ErrorView::PhitsBoundaryOutOfScope(cs[i].card.num, "periodic surface pointer has no phits spelling"@))
            } else {
                phits_card_error(cs, i + 1)
            },
        }
    }
}

/// The reflecting surface cards' numbers, in card order.
pub open spec fn reflecting_cards(cs: Seq<DeckSurface>) -> Seq<u32>
    decreases cs.len(),
{
    if cs.len() == 0 {
        Seq::empty()
    } else if cs.last().reflecting {
        reflecting_cards(cs.drop_last()).push(cs.last().card.num)
    } else {
        reflecting_cards(cs.drop_last())
    }
}

/// The reflecting literals of the cells `cells[..n]`, in cell order.
pub open spec fn reflecting_cells(cells: Seq<(u32, GeomView)>, n: int) -> Seq<u32>
    decreases n,
{
    if n <= 0 || n > cells.len() {
        Seq::empty()
    } else {
        reflecting_cells(cells, n - 1) + reflecting_lits(cells[n - 1].1)
    }
}

/// Append the reflecting literals of a region.
pub fn collect_reflective(expr: &GeomExpr, out: &mut Vec<u32>)
    ensures
        final(out)@ == old(out)@ + reflecting_lits(geom_view(*expr)),
    decreases *expr,
{
    match expr {
        GeomExpr::HalfSpace(h) => {
            if h.reflecting {
                let s = h.surf;
                let id: u32 = if s < 0 {
                    if s == i32::MIN {
                        2147483648u32
                    } else {
                        (-s) as u32
                    }
                } else {
                    s as u32
                };
                out.push(id);
                assert(out@ =~= old(out)@ + seq![id]);
            } else {
                assert(out@ =~= old(out)@ + Seq::<u32>::empty());
            }
        },
        GeomExpr::Intersect(parts) => {
            let ghost views = geom_views(*parts, parts.len() as int);
            proof {
                lemma_geom_views_index(*parts, parts.len() as int);
                assert(geom_view(*expr) == GeomView::Intersect(views));
            }
            let mut i: usize = 0;
            while i < parts.len()
                invariant
                    i <= parts.len(),
                    views == geom_views(*parts, parts.len() as int),
                    views.len() == parts.len(),
                    forall|k: int| 0 <= k < parts.len() ==> #[trigger] views[k] == geom_view(parts[k]),
                    *expr == GeomExpr::Intersect(*parts),
                    old(out)@ + reflecting_from(views, 0) == out@ + reflecting_from(views, i as int),
                decreases parts.len() - i,
            {
                proof {
                    vstd::std_specs::vec::axiom_vec_index_decreases(*parts, i as int);
                    assert(decreases_to!(*expr => expr->Intersect_0));
                }
                let ghost before = out@;
                collect_reflective(&parts[i], out);
                assert(before + reflecting_from(views, i as int) =~= out@ + reflecting_from(views, i + 1));
                i = i + 1;
            }
            assert(out@ + reflecting_from(views, i as int) =~= out@);
        },
        GeomExpr::Union(a, b) => {
            assert(geom_view(*expr) == GeomView::Union(Box::new(geom_view(**a)), Box::new(geom_view(**b))));
            collect_reflective(a, out);
            collect_reflective(b, out);
            assert(out@ =~= old(out)@ + reflecting_lits(geom_view(*expr)));
        },
        GeomExpr::Complement(_) => {
            assert(out@ =~= old(out)@ + reflecting_lits(geom_view(*expr)));
        },
    }
}

/// The surface pass of the PHITS direction: refuse cards that link a
/// transform or carry a periodic pointer, then collect the surfaces that
/// PHITS writes reflective: the reflecting cards, then the cell-level
/// reflecting literals in cell order.
pub fn phits_reflective(surfs: &Vec<DeckSurface>, cells: &Vec<(u32, GeomExpr)>) -> (r: Result<Vec<u32>, Error>)
    ensures
        ({
            let cv = cells@.map_values(|c: (u32, GeomExpr)| (c.0, geom_view(c.1)));
            match (r, phits_card_error(surfs@, 0)) {
                (Ok(v), None) => v@ == reflecting_cards(surfs@) + reflecting_cells(cv, cv.len() as int),
                (Err(e), Some(w)) => e@ == w,
                _ => false,
            }
        }),
{
    let ghost cv = cells@.map_values(|c: (u32, GeomExpr)| (c.0, geom_view(c.1)));
    let mut out: Vec<u32> = Vec::new();
    let mut i: usize = 0;
    while i < surfs.len()
        invariant
            i <= surfs.len(),
            phits_card_error(surfs@, 0) == phits_card_error(surfs@, i as int),
            out@ == reflecting_cards(surfs@.take(i as int)),
        decreases surfs.len() - i,
    {
        assert(surfs@.take(i + 1).drop_last() =~= surfs@.take(i as int));
        if let Some(tr) = surfs[i].transform {
            let mut d: Vec<char> = Vec::new();
            append_str(&mut d, "surface ");
            append_dec(&mut d, surfs[i].card.num as u64);
            append_str(&mut d, " links transform ");
            append_dec(&mut d, tr as u64);
            assert(d@ =~= "surface "@ + dec(surfs@[i as int].card.num as nat) + " links transform "@ + dec(tr as nat));
            return Err(Error::TransformOutOfScope { detail: string_from_chars(d.as_slice()) });
        }
        if surfs[i].periodic.is_some() {
            return Err(Error::PhitsBoundaryOutOfScope {
                surf: surfs[i].card.num,
                detail: "periodic surface pointer has no phits spelling".to_string(),
            });
        }
        if surfs[i].reflecting {
            out.push(surfs[i].card.num);
        }
        i = i + 1;
    }
    assert(surfs@.take(surfs@.len() as int) =~= surfs@);
    let ghost head = out@;
    assert(head + reflecting_cells(cv, 0) =~= head);
    let mut k: usize = 0;
    while k < cells.len()
        invariant
            k <= cells.len(),
            cv == cells@.map_values(|c: (u32, GeomExpr)| (c.0, geom_view(c.1))),
            phits_card_error(surfs@, 0) is None,
            head == reflecting_cards(surfs@),
            out@ == head + reflecting_cells(cv, k as int),
        decreases cells.len() - k,
    {
        assert(cv[k as int] == (cells@[k as int].0, geom_view(cells@[k as int].1)));
        let ghost before = out@;
        collect_reflective(&cells[k].1, &mut out);
        assert(out@ =~= head + reflecting_cells(cv, k + 1));
        k = k + 1;
    }
    Ok(out)
}

} // verus!
