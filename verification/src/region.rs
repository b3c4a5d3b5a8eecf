//! Cell regions of a geometry deck and their OpenMC spelling: half-space
//! literals with the cell-level reflecting marker stripped, macrobodies
//! replaced by their facet half-spaces, and simple `#n` complements inlined
//! by De Morgan.

use vstd::prelude::*;
use crate::drift::{DriftEntry, DriftScope, DriftTable};
use crate::text::{dec, append_dec, append_str, string_from_chars};
use crate::universe::{get, cell_note, note_view, NoteView};
use crate::xlate::{Error, ErrorView};

verus! {

/// One signed half-space literal of a cell region (`-3`, `*5`).
#[derive(Debug, Clone, Copy, PartialEq, Eq)]
pub struct HalfSpace {
    /// Signed surface number (negative sense inside).
    pub surf: i32,
    /// The literal carries the cell-level reflecting marker `*`.
    pub reflecting: bool,
}

/// A cell region as written in the deck.
#[derive(Debug, PartialEq, Eq)]
pub enum GeomExpr {
    HalfSpace(HalfSpace),
    /// Whitespace intersection.
    Intersect(Vec<GeomExpr>),
    /// `:` union.
    Union(Box<GeomExpr>, Box<GeomExpr>),
    /// `#` complement (`#n` names a cell).
    Complement(Box<GeomExpr>),
}

/// A region in OpenMC form: macrobody and complement references expanded.
#[derive(Debug, PartialEq, Eq)]
pub enum Resolved {
    /// Signed surface half-space (positive renders bare, negative `-id`).
    Lit(i32),
    /// Whitespace intersection.
    And(Vec<Resolved>),
    /// `|` union.
    Or(Box<Resolved>, Box<Resolved>),
}

/// A deck region as a mathematical tree.
pub enum GeomView {
    HalfSpace(i32, bool),
    Intersect(Seq<GeomView>),
    Union(Box<GeomView>, Box<GeomView>),
    Complement(Box<GeomView>),
}

/// An OpenMC region as a mathematical tree.
pub enum RegionView {
    Lit(i32),
    And(Seq<RegionView>),
    Or(Box<RegionView>, Box<RegionView>),
}

/// The tree of a deck region.
pub open spec fn geom_view(g: GeomExpr) -> GeomView
    decreases g, 0int,
{
    match g {
        GeomExpr::HalfSpace(h) => GeomView::HalfSpace(h.surf, h.reflecting),
        GeomExpr::Intersect(ps) => GeomView::Intersect(geom_views(ps, ps.len() as int)),
        GeomExpr::Union(a, b) => GeomView::Union(Box::new(geom_view(*a)), Box::new(geom_view(*b))),
        GeomExpr::Complement(a) => GeomView::Complement(Box::new(geom_view(*a))),
    }
}

/// The trees of the first `n` regions of `ps`.
pub open spec fn geom_views(ps: Vec<GeomExpr>, n: int) -> Seq<GeomView>
    decreases ps, n,
{
    if n <= 0 || n > ps.len() {
        Seq::empty()
    } else {
        proof {
            vstd::std_specs::vec::axiom_vec_index_decreases(ps, n - 1);
        }
        geom_views(ps, n - 1).push(geom_view(ps[n - 1]))
    }
}

/// The tree of an OpenMC region.
pub open spec fn region_view(r: Resolved) -> RegionView
    decreases r, 0int,
{
    match r {
        Resolved::Lit(s) => RegionView::Lit(s),
        Resolved::And(ps) => RegionView::And(region_views(ps, ps.len() as int)),
        Resolved::Or(a, b) => RegionView::Or(Box::new(region_view(*a)), Box::new(region_view(*b))),
    }
}

/// The trees of the first `n` regions of `ps`.
pub open spec fn region_views(ps: Vec<Resolved>, n: int) -> Seq<RegionView>
    decreases ps, n,
{
    if n <= 0 || n > ps.len() {
        Seq::empty()
    } else {
        proof {
            vstd::std_specs::vec::axiom_vec_index_decreases(ps, n - 1);
        }
        region_views(ps, n - 1).push(region_view(ps[n - 1]))
    }
}

/// The text of a signed literal: the number, with `-` for the negative sense.
pub open spec fn lit_text(s: i32) -> Seq<char> {
    if s < 0 {
        seq!['-'] + dec((-s) as nat)
    } else {
        dec(s as nat)
    }
}

/// The text of a region with minimal parentheses: operands of an
/// intersection that are unions are parenthesized.
pub open spec fn rendered(r: RegionView) -> Seq<char>
    decreases r, 0int,
{
    match r {
        RegionView::Lit(s) => lit_text(s),
        RegionView::And(ps) => rendered_parts(ps, ps.len() as int),
        RegionView::Or(a, b) => rendered(*a) + seq![' ', '|', ' '] + rendered(*b),
    }
}

/// The first `n` operands of an intersection, separated by single spaces.
pub open spec fn rendered_parts(ps: Seq<RegionView>, n: int) -> Seq<char>
    decreases ps, n,
{
    if n <= 0 || n > ps.len() {
        Seq::empty()
    } else {
        let piece = match ps[n - 1] {
            RegionView::Or(..) => seq!['('] + rendered(ps[n - 1]) + seq![')'],
            _ => rendered(ps[n - 1]),
        };
        if n == 1 {
            piece
        } else {
            rendered_parts(ps, n - 1) + seq![' '] + piece
        }
    }
}


/// The deck spelling of a region: signed literals (with `*` before a
/// reflecting one when `markers`), intersections joined by single spaces
/// with union operands parenthesized, unions joined by ` : `, and `#`
/// before a complemented cell number or a parenthesized region.
pub open spec fn deck_text(g: GeomView, markers: bool) -> Seq<char>
    decreases g, 0int,
{
    match g {
        GeomView::HalfSpace(s, r) => if markers && r {
            seq!['*'] + lit_text(s)
        } else {
            lit_text(s)
        },
        GeomView::Intersect(ps) => deck_parts(ps, markers, ps.len() as int),
        GeomView::Union(a, b) => deck_text(*a, markers) + seq![' ', ':', ' '] + deck_text(*b, markers),
        GeomView::Complement(a) => match *a {
            GeomView::HalfSpace(..) => seq!['#'] + deck_text(*a, markers),
            _ => seq!['#', '('] + deck_text(*a, markers) + seq![')'],
        },
    }
}

/// The first `n` operands of an intersection in deck spelling, separated
/// by single spaces.
pub open spec fn deck_parts(ps: Seq<GeomView>, markers: bool, n: int) -> Seq<char>
    decreases ps, n,
{
    if n <= 0 || n > ps.len() {
        Seq::empty()
    } else {
        let piece = match ps[n - 1] {
            GeomView::Union(..) => seq!['('] + deck_text(ps[n - 1], markers) + seq![')'],
            _ => deck_text(ps[n - 1], markers),
        };
        if n == 1 {
            piece
        } else {
            deck_parts(ps, markers, n - 1) + seq![' '] + piece
        }
    }
}


proof fn lemma_dec_digits(n: nat)
    ensures
        forall|i: int| 0 <= i < dec(n).len() ==> '0' <= #[trigger] dec(n)[i] <= '9',
    decreases n,
{
    if n >= 10 {
        lemma_dec_digits(n / 10);
        assert(dec(n) == dec(n / 10).push(crate::text::digit_char(n % 10)));
    }
}

proof fn lemma_lit_text_chars(s: i32)
    ensures
        forall|i: int| 0 <= i < lit_text(s).len() ==> ('0' <= #[trigger] lit_text(s)[i] <= '9' || lit_text(s)[i] == '-'),
{
    if s < 0 {
        lemma_dec_digits((-s) as nat);
        assert forall|i: int| 0 <= i < lit_text(s).len() implies ('0' <= #[trigger] lit_text(s)[i] <= '9' || lit_text(s)[i] == '-') by {
            if i > 0 {
                assert(lit_text(s)[i] == dec((-s) as nat)[i - 1]);
            }
        }
    } else {
        lemma_dec_digits(s as nat);
    }
}

/// The characters an OpenMC region is spelled with.
pub open spec fn region_char(c: char) -> bool {
    ('0' <= c <= '9') || c == '-' || c == ' ' || c == '|' || c == '(' || c == ')'
}

/// An OpenMC region is spelled with digits, `-`, spaces, `|` and
/// parentheses only: no `~` complement operator is ever written.
pub proof fn lemma_rendered_chars(r: RegionView)
    ensures
        forall|i: int| 0 <= i < rendered(r).len() ==> region_char(#[trigger] rendered(r)[i]),
        !rendered(r).contains('~'),
    decreases r, 1int,
{
    match r {
        RegionView::Lit(s) => {
            lemma_lit_text_chars(s);
            assert(rendered(r) == lit_text(s));
            assert forall|i: int| 0 <= i < rendered(r).len() implies region_char(#[trigger] rendered(r)[i]) by {
                assert(rendered(r)[i] == lit_text(s)[i]);
            }
        },
        RegionView::And(ps) => {
            lemma_rendered_parts_chars(ps, ps.len() as int);
            assert(rendered(r) == rendered_parts(ps, ps.len() as int));
            assert forall|i: int| 0 <= i < rendered(r).len() implies region_char(#[trigger] rendered(r)[i]) by {
                assert(rendered(r)[i] == rendered_parts(ps, ps.len() as int)[i]);
            }
        },
        RegionView::Or(a, b) => {
            lemma_rendered_chars(*a);
            lemma_rendered_chars(*b);
            let x = rendered(*a);
            let y = rendered(*b);
            assert forall|i: int| 0 <= i < rendered(r).len() implies region_char(#[trigger] rendered(r)[i]) by {
                if i < x.len() {
                    assert(rendered(r)[i] == x[i]);
                } else if i >= x.len() + 3 {
                    assert(rendered(r)[i] == y[i - x.len() - 3]);
                }
            }
        },
    }
    if rendered(r).contains('~') {
        let k = choose|k: int| 0 <= k < rendered(r).len() && rendered(r)[k] == '~';
        assert(region_char(rendered(r)[k]));
    }
}

proof fn lemma_rendered_parts_chars(ps: Seq<RegionView>, n: int)
    ensures
        forall|i: int| 0 <= i < rendered_parts(ps, n).len() ==> region_char(#[trigger] rendered_parts(ps, n)[i]),
    decreases ps, n,
{
    if n > 0 && n <= ps.len() {
        assert(decreases_to!(ps => ps[n - 1]));
        lemma_rendered_chars(ps[n - 1]);
        let piece = match ps[n - 1] {
            RegionView::Or(..) => seq!['('] + rendered(ps[n - 1]) + seq![')'],
            _ => rendered(ps[n - 1]),
        };
        assert forall|i: int| 0 <= i < piece.len() implies region_char(#[trigger] piece[i]) by {
            match ps[n - 1] {
                RegionView::Or(..) => {
                    if 0 < i < piece.len() - 1 {
                        assert(piece[i] == rendered(ps[n - 1])[i - 1]);
                    }
                },
                _ => {},
            }
        }
        if n > 1 {
            lemma_rendered_parts_chars(ps, n - 1);
            let pre = rendered_parts(ps, n - 1);
            assert forall|i: int| 0 <= i < rendered_parts(ps, n).len() implies region_char(#[trigger] rendered_parts(ps, n)[i]) by {
                if i < pre.len() {
                    assert(rendered_parts(ps, n)[i] == pre[i]);
                } else if i > pre.len() {
                    assert(rendered_parts(ps, n)[i] == piece[i - pre.len() - 1]);
                }
            }
        }
    }
}

/// True when a region is a single half-space or an intersection of
/// half-spaces (the only complement targets that inline).
pub open spec fn flat(g: GeomView) -> bool
    decreases g, 0int,
{
    match g {
        GeomView::HalfSpace(..) => true,
        GeomView::Intersect(ps) => flat_from(ps, 0),
        _ => false,
    }
}

/// Every region of `ps` from index `i` on is flat.
pub open spec fn flat_from(ps: Seq<GeomView>, i: int) -> bool
    decreases ps, ps.len() - i,
{
    if i < 0 || i >= ps.len() {
        true
    } else {
        flat(ps[i]) && flat_from(ps, i + 1)
    }
}

/// The half-space literals of a region, left to right (those under an
/// intersection included; unions and complements contribute none).
pub open spec fn lits(g: GeomView) -> Seq<(i32, bool)>
    decreases g, 0int,
{
    match g {
        GeomView::HalfSpace(s, r) => seq![(s, r)],
        GeomView::Intersect(ps) => lits_from(ps, 0),
        _ => Seq::empty(),
    }
}

/// The literals of the regions of `ps` from index `i` on.
pub open spec fn lits_from(ps: Seq<GeomView>, i: int) -> Seq<(i32, bool)>
    decreases ps, ps.len() - i,
{
    if i < 0 || i >= ps.len() {
        Seq::empty()
    } else {
        lits(ps[i]) + lits_from(ps, i + 1)
    }
}

/// What region resolution reads: the deck's surface numbers, each
/// macrobody's signed facet ids (whose intersection is its interior), and
/// the cells with their regions.
pub struct EnvView {
    pub surfs: Seq<u32>,
    pub macros: Seq<(u32, Seq<i32>)>,
    pub cells: Seq<(u32, GeomView)>,
}

/// What region resolution changes: the surfaces forced reflective (in the
/// order they were marked) and the drift notes.
pub struct StateView {
    pub forced: Seq<u32>,
    pub notes: Seq<NoteView>,
}

/// The region of cell `n` (the last cell of that number).
pub open spec fn cell_region(cells: Seq<(u32, GeomView)>, n: u32) -> Option<GeomView>
    decreases cells.len(),
{
    if cells.len() == 0 {
        None
    } else if cells.last().0 == n {
        Some(cells.last().1)
    } else {
        cell_region(cells.drop_last(), n)
    }
}

/// The surface number of a signed literal.
pub open spec fn abs_id(s: i32) -> u32 {
    if s < 0 {
        (-s) as u32
    } else {
        s as u32
    }
}

/// The left-nested union of a nonempty list of regions.
pub open spec fn or_fold(ls: Seq<RegionView>) -> RegionView
    decreases ls.len(),
{
    if ls.len() <= 1 {
        ls[0]
    } else {
        RegionView::Or(Box::new(or_fold(ls.drop_last())), Box::new(ls.last()))
    }
}

/// The literals of a macrobody's facets: the interior for the negative
/// sense, each facet flipped for the positive sense.
pub open spec fn facet_lits(interior: Seq<i32>, surf: i32) -> Seq<RegionView> {
    Seq::new(interior.len(), |i: int| RegionView::Lit(if surf < 0 { interior[i] } else { (-interior[i]) as i32 }))
}

/// The note of a cell-level reflecting marker on surface `id`.
pub open spec fn reflect_note(cell: u32, id: u32) -> NoteView {
    NoteView {
        target: cell,
        action: "reflective-applied"@,
        reason: "cell-level *"@ + dec(id as nat) + " stripped; surface "@ + dec(id as nat) + " forced reflective"@,
    }
}

/// The note of an inlined `#target` complement.
pub open spec fn complement_note(cell: u32, target: i32) -> NoteView {
    NoteView {
        target: cell,
        action: "complement-expansion"@,
        reason: "#"@ + dec(target as nat) + " inlined as the negated region of cell "@ + dec(target as nat),
    }
}

/// Resolve one literal of cell `cell`: strip the reflecting marker (forcing
/// the surface reflective), keep a deck surface, expand a macrobody.
pub open spec fn lit_step(env: EnvView, st: StateView, cell: u32, surf: i32, refl: bool) -> (Result<RegionView, ErrorView>, StateView) {
    let id = abs_id(surf);
    let st1 = if refl {
        StateView { forced: st.forced.push(id), notes: st.notes.push(reflect_note(cell, id)) }
    } else {
        st
    };
    match get(env.macros, id) {
        None => if env.surfs.contains(id) {
            (Ok(RegionView::Lit(surf)), st1)
        } else {
            (Err(ErrorView::UnknownSurface(cell, id)), st1)
        },
        Some(interior) => {
            let st2 = if refl {
                StateView { forced: st1.forced + interior.map_values(|s: i32| abs_id(s)), notes: st1.notes }
            } else {
                st1
            };
            let ls = facet_lits(interior, surf);
            (Ok(if surf < 0 { RegionView::And(ls) } else { or_fold(ls) }), st2)
        },
    }
}

/// Resolve the negations of the literals `raw[i..]`, stopping at the first error.
pub open spec fn negs_step(env: EnvView, st: StateView, cell: u32, raw: Seq<(i32, bool)>, i: int) -> (Result<Seq<RegionView>, ErrorView>, StateView)
    decreases raw.len() - i,
{
    if i < 0 || i >= raw.len() {
        (Ok(Seq::empty()), st)
    } else {
        let (r, s1) = lit_step(env, st, cell, (-raw[i].0) as i32, raw[i].1);
        match r {
            Err(e) => (Err(e), s1),
            Ok(x) => with_prefix(seq![x], negs_step(env, s1, cell, raw, i + 1)),
        }
    }
}

/// A list result with `done` put in front of its items.
pub open spec fn with_prefix(done: Seq<RegionView>, r: (Result<Seq<RegionView>, ErrorView>, StateView)) -> (Result<Seq<RegionView>, ErrorView>, StateView) {
    match r.0 {
        Ok(v) => (Ok(done + v), r.1),
        Err(e) => (Err(e), r.1),
    }
}

/// Resolve a `#target` complement of cell `cell` by inlining the negated
/// literals of the target's flat region as a union.
pub open spec fn complement_step(env: EnvView, st: StateView, cell: u32, target: i32) -> (Result<RegionView, ErrorView>, StateView) {
    if target <= 0 {
        (Err(ErrorView::UnknownCell(cell, target)), st)
    } else {
        match cell_region(env.cells, target as u32) {
            None => (Err(ErrorView::UnknownCell(cell, target)), st),
            Some(g) => if !flat(g) {
                (Err(ErrorView::ComplementTooComplex(cell, target)), st)
            } else {
                let st1 = StateView { forced: st.forced, notes: st.notes.push(complement_note(cell, target)) };
                let (r, s2) = negs_step(env, st1, cell, lits(g), 0);
                match r {
                    Ok(ns) => (Ok(or_fold(ns)), s2),
                    Err(e) => (Err(e), s2),
                }
            },
        }
    }
}

/// Resolve the region of cell `cell`, left to right, stopping at the first error.
pub open spec fn expr_step(env: EnvView, st: StateView, cell: u32, g: GeomView) -> (Result<RegionView, ErrorView>, StateView)
    decreases g, 0int,
{
    match g {
        GeomView::HalfSpace(s, r) => lit_step(env, st, cell, s, r),
        GeomView::Intersect(ps) => {
            let (r, s1) = parts_step(env, st, cell, ps, 0);
            match r {
                Ok(v) => (Ok(RegionView::And(v)), s1),
                Err(e) => (Err(e), s1),
            }
        },
        GeomView::Union(a, b) => {
            let (ra, s1) = expr_step(env, st, cell, *a);
            match ra {
                Err(e) => (Err(e), s1),
                Ok(x) => {
                    let (rb, s2) = expr_step(env, s1, cell, *b);
                    match rb {
                        Err(e) => (Err(e), s2),
                        Ok(y) => (Ok(RegionView::Or(Box::new(x), Box::new(y))), s2),
                    }
                },
            }
        },
        GeomView::Complement(inner) => match *inner {
            GeomView::HalfSpace(s, _) => complement_step(env, st, cell, s),
            _ => (Err(ErrorView::ComplementTooComplex(cell, -1i32)), st),
        },
    }
}

/// Resolve the regions `ps[i..]` of an intersection, stopping at the first error.
pub open spec fn parts_step(env: EnvView, st: StateView, cell: u32, ps: Seq<GeomView>, i: int) -> (Result<Seq<RegionView>, ErrorView>, StateView)
    decreases ps, ps.len() - i,
{
    if i < 0 || i >= ps.len() {
        (Ok(Seq::empty()), st)
    } else {
        let (r, s1) = expr_step(env, st, cell, ps[i]);
        match r {
            Err(e) => (Err(e), s1),
            Ok(x) => with_prefix(seq![x], parts_step(env, s1, cell, ps, i + 1)),
        }
    }
}

/// A region that names only deck surfaces that are not macrobodies, with
/// no reflecting marker and no complement.
pub open spec fn plain(env: EnvView, g: GeomView) -> bool
    decreases g, 0int,
{
    match g {
        GeomView::HalfSpace(s, r) => !r && env.surfs.contains(abs_id(s)) && get(env.macros, abs_id(s)) is None,
        GeomView::Intersect(ps) => plain_from(env, ps, 0),
        GeomView::Union(a, b) => plain(env, *a) && plain(env, *b),
        GeomView::Complement(_) => false,
    }
}

/// Every region of `ps` from index `i` on is plain.
pub open spec fn plain_from(env: EnvView, ps: Seq<GeomView>, i: int) -> bool
    decreases ps, ps.len() - i,
{
    if i < 0 || i >= ps.len() {
        true
    } else {
        plain(env, ps[i]) && plain_from(env, ps, i + 1)
    }
}

/// The same region in OpenMC form, literal for literal.
pub open spec fn as_region(g: GeomView) -> RegionView
    decreases g, 0int,
{
    match g {
        GeomView::HalfSpace(s, _) => RegionView::Lit(s),
        GeomView::Intersect(ps) => RegionView::And(as_regions(ps, 0)),
        GeomView::Union(a, b) => RegionView::Or(Box::new(as_region(*a)), Box::new(as_region(*b))),
        GeomView::Complement(_) => RegionView::And(Seq::empty()),
    }
}

/// The regions `ps[i..]` in OpenMC form.
pub open spec fn as_regions(ps: Seq<GeomView>, i: int) -> Seq<RegionView>
    decreases ps, ps.len() - i,
{
    if i < 0 || i >= ps.len() {
        Seq::empty()
    } else {
        seq![as_region(ps[i])] + as_regions(ps, i + 1)
    }
}

/// Resolution is lossless on plain regions: a region that names only deck
/// surfaces (no macrobody, no reflecting marker, no complement) resolves to
/// itself, literal for literal, and adds no drift note and no forced
/// reflective surface.
pub proof fn lemma_plain_region_lossless(env: EnvView, st: StateView, cell: u32, g: GeomView)
    requires
        plain(env, g),
    ensures
        expr_step(env, st, cell, g) == (Ok::<RegionView, ErrorView>(as_region(g)), st),
    decreases g, 0int,
{
    match g {
        GeomView::HalfSpace(s, r) => {},
        GeomView::Intersect(ps) => {
            lemma_plain_parts_lossless(env, st, cell, ps, 0);
        },
        GeomView::Union(a, b) => {
            lemma_plain_region_lossless(env, st, cell, *a);
            lemma_plain_region_lossless(env, st, cell, *b);
        },
        GeomView::Complement(_) => {},
    }
}

/// The regions `ps[i..]` of a plain intersection resolve to themselves.
pub proof fn lemma_plain_parts_lossless(env: EnvView, st: StateView, cell: u32, ps: Seq<GeomView>, i: int)
    requires
        plain_from(env, ps, i),
    ensures
        parts_step(env, st, cell, ps, i) == (Ok::<Seq<RegionView>, ErrorView>(as_regions(ps, i)), st),
    decreases ps, ps.len() - i,
{
    if 0 <= i < ps.len() {
        lemma_plain_region_lossless(env, st, cell, ps[i]);
        lemma_plain_parts_lossless(env, st, cell, ps, i + 1);
    }
}

proof fn lemma_region_views_len(ps: Vec<Resolved>, n: int)
    requires
        0 <= n <= ps.len(),
    ensures
        region_views(ps, n).len() == n,
        forall|i: int| 0 <= i < n ==> #[trigger] region_views(ps, n)[i] == region_view(ps[i]),
    decreases n,
{
    if n > 0 {
        lemma_region_views_len(ps, n - 1);
    }
}

pub(crate) proof fn lemma_geom_views_len(ps: Vec<GeomExpr>, n: int)
    requires
        0 <= n <= ps.len(),
    ensures
        geom_views(ps, n).len() == n,
        forall|i: int| 0 <= i < n ==> #[trigger] geom_views(ps, n)[i] == geom_view(ps[i]),
    decreases n,
{
    if n > 0 {
        lemma_geom_views_len(ps, n - 1);
    }
}

proof fn lemma_flat_from(ps: Seq<GeomView>, i: int)
    requires
        0 <= i <= ps.len(),
    ensures
        flat_from(ps, i) == (forall|k: int| i <= k < ps.len() ==> #[trigger] flat(ps[k])),
    decreases ps.len() - i,
{
    if i < ps.len() {
        lemma_flat_from(ps, i + 1);
        if flat_from(ps, i) {
            assert forall|k: int| i <= k < ps.len() implies #[trigger] flat(ps[k]) by {
                if k > i {
                    assert(flat(ps[k]));
                }
            }
        }
        if forall|k: int| i <= k < ps.len() ==> #[trigger] flat(ps[k]) {
            assert(flat(ps[i]));
            assert(flat_from(ps, i + 1));
        }
    }
}

/// True when a region is a single half-space or an intersection of
/// half-spaces.
pub fn is_flat(expr: &GeomExpr) -> (r: bool)
    ensures
        r == flat(geom_view(*expr)),
    decreases *expr,
{
    match expr {
        GeomExpr::HalfSpace(_) => true,
        GeomExpr::Intersect(parts) => {
            let ghost views = geom_views(*parts, parts.len() as int);
            proof {
                lemma_geom_views_len(*parts, parts.len() as int);
                lemma_flat_from(views, 0);
            }
            let mut i: usize = 0;
            while i < parts.len()
                invariant
                    i <= parts.len(),
                    views == geom_views(*parts, parts.len() as int),
                    views.len() == parts.len(),
                    forall|k: int| 0 <= k < parts.len() ==> #[trigger] views[k] == geom_view(parts[k]),
                    forall|k: int| 0 <= k < i ==> #[trigger] flat(views[k]),
                    flat_from(views, 0) == (forall|k: int| 0 <= k < views.len() ==> #[trigger] flat(views[k])),
                    *expr == GeomExpr::Intersect(*parts),
                decreases parts.len() - i,
            {
                proof {
                    vstd::std_specs::vec::axiom_vec_index_decreases(*parts, i as int);
                    assert(decreases_to!(*expr => expr->Intersect_0));
                }
                if !is_flat(&parts[i]) {
                    assert(geom_view(*expr) == GeomView::Intersect(views));
                    assert(!flat(views[i as int]));
                    return false;
                }
                i = i + 1;
            }
            assert(geom_view(*expr) == GeomView::Intersect(views));
            true
        },
        GeomExpr::Union(..) => false,
        GeomExpr::Complement(..) => false,
    }
}

/// Append the half-space literals of a region, left to right.
pub(crate) fn collect_lits(expr: &GeomExpr, out: &mut Vec<(i32, bool)>)
    ensures
        final(out)@ == old(out)@ + lits(geom_view(*expr)),
    decreases *expr,
{
    match expr {
        GeomExpr::HalfSpace(h) => {
            out.push((h.surf, h.reflecting));
        },
        GeomExpr::Intersect(parts) => {
            let ghost views = geom_views(*parts, parts.len() as int);
            proof {
                lemma_geom_views_len(*parts, parts.len() as int);
            }
            let mut i: usize = 0;
            while i < parts.len()
                invariant
                    i <= parts.len(),
                    views == geom_views(*parts, parts.len() as int),
                    views.len() == parts.len(),
                    forall|k: int| 0 <= k < parts.len() ==> #[trigger] views[k] == geom_view(parts[k]),
                    old(out)@ + lits_from(views, 0) == out@ + lits_from(views, i as int),
                    *expr == GeomExpr::Intersect(*parts),
                decreases parts.len() - i,
            {
                proof {
                    vstd::std_specs::vec::axiom_vec_index_decreases(*parts, i as int);
                    assert(decreases_to!(*expr => expr->Intersect_0));
                }
                let ghost before = out@;
                collect_lits(&parts[i], out);
                assert(before + lits_from(views, i as int) =~= out@ + lits_from(views, i + 1));
                i = i + 1;
            }
            assert(out@ + lits_from(views, i as int) =~= out@);
        },
        GeomExpr::Union(..) => {
            assert(old(out)@ + lits(geom_view(*expr)) =~= old(out)@);
        },
        GeomExpr::Complement(..) => {
            assert(old(out)@ + lits(geom_view(*expr)) =~= old(out)@);
        },
    }
}

/// The deck data that region resolution reads.
#[derive(Debug)]
pub struct RegionEnv {
    /// Deck surface numbers.
    pub surfs: Vec<u32>,
    /// Each macrobody surface with the signed facet ids whose intersection
    /// is its interior.
    pub macros: Vec<(u32, Vec<i32>)>,
    /// Deck cells with their regions.
    pub cells: Vec<(u32, GeomExpr)>,
}

impl View for RegionEnv {
    type V = EnvView;

    open spec fn view(&self) -> EnvView {
        EnvView {
            surfs: self.surfs@,
            macros: self.macros@.map_values(|m: (u32, Vec<i32>)| (m.0, m.1@)),
            cells: self.cells@.map_values(|c: (u32, GeomExpr)| (c.0, geom_view(c.1))),
        }
    }
}

/// The conditions under which resolution cannot fail on arithmetic or on an
/// empty expansion: every macrobody has facets, no facet id and no literal
/// of a cell region is `i32::MIN`, and every flat cell region has a literal.
pub open spec fn env_ok(env: EnvView) -> bool {
    &&& forall|k: int| 0 <= k < env.macros.len() ==> #[trigger] env.macros[k].1.len() > 0
    &&& forall|k: int, j: int| 0 <= k < env.macros.len() && 0 <= j < env.macros[k].1.len()
        ==> #[trigger] env.macros[k].1[j] != i32::MIN
    &&& forall|k: int| 0 <= k < env.cells.len() && flat(#[trigger] env.cells[k].1) ==> lits(env.cells[k].1).len() > 0
    &&& forall|k: int, j: int| 0 <= k < env.cells.len() && 0 <= j < lits(env.cells[k].1).len()
        ==> #[trigger] lits(env.cells[k].1)[j].0 != i32::MIN
}

/// The resolution state: surfaces forced reflective by cell-level markers
/// and the drift notes of the translation.
#[derive(Debug)]
pub struct RegionState {
    pub forced_reflective: Vec<u32>,
    pub drift: DriftTable,
}

impl View for RegionState {
    type V = StateView;

    open spec fn view(&self) -> StateView {
        StateView {
            forced: self.forced_reflective@,
            notes: self.drift.entries@.map_values(|e: DriftEntry| note_view(e)),
        }
    }
}

/// `b` keeps the entries of `a` and adds only cell-scoped ones.
pub open spec fn adds_cell_notes(a: Seq<DriftEntry>, b: Seq<DriftEntry>) -> bool {
    &&& a.len() <= b.len()
    &&& b.take(a.len() as int) == a
    &&& forall|i: int| a.len() <= i < b.len() ==> (#[trigger] b[i]).scope == DriftScope::Cell
}

proof fn lemma_adds_trans(a: Seq<DriftEntry>, b: Seq<DriftEntry>, c: Seq<DriftEntry>)
    requires
        adds_cell_notes(a, b),
        adds_cell_notes(b, c),
    ensures
        adds_cell_notes(a, c),
{
    assert(c.take(a.len() as int) =~= c.take(b.len() as int).take(a.len() as int));
    assert forall|i: int| a.len() <= i < c.len() implies (#[trigger] c[i]).scope == DriftScope::Cell by {
        if i < b.len() {
            assert(c.take(b.len() as int)[i] == c[i]);
        }
    }
}

/// The results of resolution as trees.
pub open spec fn result_view(r: Result<Resolved, Error>) -> Result<RegionView, ErrorView> {
    match r {
        Ok(x) => Ok(region_view(x)),
        Err(e) => Err(e@),
    }
}

/// True when `id` is a deck surface number.
fn has_surface(surfs: &Vec<u32>, id: u32) -> (r: bool)
    ensures
        r == surfs@.contains(id),
{
    let mut i: usize = 0;
    while i < surfs.len()
        invariant
            i <= surfs.len(),
            forall|k: int| 0 <= k < i ==> surfs@[k] != id,
        decreases surfs.len() - i,
    {
        if surfs[i] == id {
            return true;
        }
        i = i + 1;
    }
    false
}

/// The position of the first macrobody numbered `id`.
fn find_macro(macros: &Vec<(u32, Vec<i32>)>, id: u32) -> (r: Option<usize>)
    ensures
        ({
            let mv = macros@.map_values(|m: (u32, Vec<i32>)| (m.0, m.1@));
            match r {
                None => get(mv, id) is None,
                Some(i) => i < macros.len() && get(mv, id) == Some(mv[i as int].1),
            }
        }),
{
    let ghost mv = macros@.map_values(|m: (u32, Vec<i32>)| (m.0, m.1@));
    let mut i: usize = 0;
    assert(mv.skip(0) =~= mv);
    while i < macros.len()
        invariant
            i <= macros.len(),
            mv == macros@.map_values(|m: (u32, Vec<i32>)| (m.0, m.1@)),
            get(mv, id) == get(mv.skip(i as int), id),
        decreases macros.len() - i,
    {
        assert(mv.skip(i as int).drop_first() =~= mv.skip(i + 1));
        if macros[i].0 == id {
            return Some(i);
        }
        i = i + 1;
    }
    None
}

/// The position of the last cell numbered `n`.
pub(crate) fn find_cell(cells: &Vec<(u32, GeomExpr)>, n: u32) -> (r: Option<usize>)
    ensures
        ({
            let cv = cells@.map_values(|c: (u32, GeomExpr)| (c.0, geom_view(c.1)));
            match r {
                None => cell_region(cv, n) is None,
                Some(i) => i < cells.len() && cell_region(cv, n) == Some(cv[i as int].1),
            }
        }),
{
    let ghost cv = cells@.map_values(|c: (u32, GeomExpr)| (c.0, geom_view(c.1)));
    let mut i: usize = cells.len();
    assert(cv.take(cv.len() as int) =~= cv);
    while i > 0
        invariant
            i <= cells.len(),
            cv == cells@.map_values(|c: (u32, GeomExpr)| (c.0, geom_view(c.1))),
            cell_region(cv, n) == cell_region(cv.take(i as int), n),
        decreases i,
    {
        assert(cv.take(i as int).drop_last() =~= cv.take(i - 1));
        if cells[i - 1].0 == n {
            return Some(i - 1);
        }
        i = i - 1;
    }
    None
}

/// The surface number of a signed literal.
pub(crate) fn surface_id(s: i32) -> (r: u32)
    ensures
        r == abs_id(s),
{
    if s < 0 {
        if s == i32::MIN {
            2147483648u32
        } else {
            (-s) as u32
        }
    } else {
        s as u32
    }
}

/// Add one cell-scoped drift note.
fn push_note(st: &mut RegionState, e: DriftEntry)
    requires
        e.scope == DriftScope::Cell,
    ensures
        final(st)@ == (StateView { forced: old(st)@.forced, notes: old(st)@.notes.push(note_view(e)) }),
        adds_cell_notes(old(st).drift.entries@, final(st).drift.entries@),
{
    let ghost before = st.drift.entries@;
    st.drift.entries.push(e);
    assert(st.drift.entries@.take(before.len() as int) =~= before);
    assert(st@.notes =~= old(st)@.notes.push(note_view(e)));
}

/// Mark surface `id` reflective from a cell-level marker of cell `cell`.
fn force_reflective(st: &mut RegionState, cell: u32, id: u32)
    ensures
        final(st)@ == (StateView { forced: old(st)@.forced.push(id), notes: old(st)@.notes.push(reflect_note(cell, id)) }),
        adds_cell_notes(old(st).drift.entries@, final(st).drift.entries@),
{
    st.forced_reflective.push(id);
    let mut reason: Vec<char> = Vec::new();
    append_str(&mut reason, "cell-level *");
    append_dec(&mut reason, id as u64);
    append_str(&mut reason, " stripped; surface ");
    append_dec(&mut reason, id as u64);
    append_str(&mut reason, " forced reflective");
    assert(reason@ =~= reflect_note(cell, id).reason);
    let e = cell_note(cell, "reflective-applied", reason);
    push_note(st, e);
}

/// Resolve one literal of cell `cell`: strip the reflecting marker (forcing
/// the surface reflective), keep a deck surface, or expand a macrobody to
/// its facets (the interior intersection for the negative sense, the union
/// of the flipped facets for the positive sense).
pub fn resolve_lit(env: &RegionEnv, st: &mut RegionState, cell: u32, surf: i32, reflecting: bool) -> (r: Result<Resolved, Error>)
    requires
        env_ok(env@),
    ensures
        (result_view(r), final(st)@) == lit_step(env@, old(st)@, cell, surf, reflecting),
        adds_cell_notes(old(st).drift.entries@, final(st).drift.entries@),
{
    let id = surface_id(surf);
    if reflecting {
        force_reflective(st, cell, id);
    } else {
        assert(st.drift.entries@.take(st.drift.entries@.len() as int) =~= st.drift.entries@);
    }
    let ghost st1 = st@;
    let ghost e1 = st.drift.entries@;
    match find_macro(&env.macros, id) {
        None => {
            if has_surface(&env.surfs, id) {
                Ok(Resolved::Lit(surf))
            } else {
                Err(Error::UnknownSurface { cell, surf: id })
            }
        },
        Some(k) => {
            let interior = &env.macros[k].1;
            let ghost iv = interior@;
            assert(env@.macros[k as int] == (env.macros@[k as int].0, iv));
            assert(iv.len() > 0);
            assert(forall|j: int| 0 <= j < iv.len() ==> #[trigger] iv[j] != i32::MIN) by {
                assert forall|j: int| 0 <= j < iv.len() implies #[trigger] iv[j] != i32::MIN by {
                    assert(env@.macros[k as int].1[j] != i32::MIN);
                }
            }
            if reflecting {
                let mut j: usize = 0;
                while j < interior.len()
                    invariant
                        j <= interior.len(),
                        iv == interior@,
                        st.drift.entries@ == e1,
                        st@.forced == st1.forced + iv.take(j as int).map_values(|s: i32| abs_id(s)),
                    decreases interior.len() - j,
                {
                    let f = surface_id(interior[j]);
                    st.forced_reflective.push(f);
                    assert(iv.take(j + 1).map_values(|s: i32| abs_id(s)) =~= iv.take(j as int).map_values(|s: i32| abs_id(s)).push(f));
                    j = j + 1;
                }
                assert(iv.take(iv.len() as int) =~= iv);
            }
            let ghost ls = facet_lits(iv, surf);
            if surf < 0 {
                let mut out: Vec<Resolved> = Vec::new();
                let mut j: usize = 0;
                while j < interior.len()
                    invariant
                        j <= interior.len(),
                        iv == interior@,
                        ls == facet_lits(iv, surf),
                        surf < 0,
                        out.len() == j,
                        forall|t: int| 0 <= t < j ==> #[trigger] region_view(out[t]) == ls[t],
                    decreases interior.len() - j,
                {
                    out.push(Resolved::Lit(interior[j]));
                    j = j + 1;
                }
                proof {
                    lemma_region_views_len(out, out.len() as int);
                    assert(region_views(out, out.len() as int) =~= ls);
                }
                Ok(Resolved::And(out))
            } else {
                let mut acc = Resolved::Lit(-interior[0]);
                assert(ls.take(1).len() == 1);
                let mut j: usize = 1;
                while j < interior.len()
                    invariant
                        1 <= j <= interior.len(),
                        iv == interior@,
                        ls == facet_lits(iv, surf),
                        surf >= 0,
                        forall|t: int| 0 <= t < iv.len() ==> #[trigger] iv[t] != i32::MIN,
                        region_view(acc) == or_fold(ls.take(j as int)),
                    decreases interior.len() - j,
                {
                    let x = Resolved::Lit(-interior[j]);
                    assert(ls[j as int] == RegionView::Lit((-interior[j as int]) as i32));
                    assert(ls.take(j + 1).drop_last() =~= ls.take(j as int));
                    assert(ls.take(j + 1).last() == ls[j as int]);
                    assert(or_fold(ls.take(j + 1)) == RegionView::Or(Box::new(or_fold(ls.take(j as int))), Box::new(ls[j as int])));
                    assert(region_view(x) == ls[j as int]);
                    acc = Resolved::Or(Box::new(acc), Box::new(x));
                    j = j + 1;
                }
                assert(ls.take(ls.len() as int) =~= ls);
                Ok(acc)
            }
        },
    }
}

proof fn lemma_with_prefix(done: Seq<RegionView>, x: RegionView, r: (Result<Seq<RegionView>, ErrorView>, StateView))
    ensures
        with_prefix(done, with_prefix(seq![x], r)) == with_prefix(done.push(x), r),
{
    match r.0 {
        Ok(v) => {
            assert(done + (seq![x] + v) =~= done.push(x) + v);
        },
        Err(e) => {},
    }
}

proof fn lemma_adds_refl(a: Seq<DriftEntry>)
    ensures
        adds_cell_notes(a, a),
{
    assert(a.take(a.len() as int) =~= a);
}

/// Resolve a `#target` complement of cell `cell` by inlining the target's
/// flat region negated (De Morgan): the union of its flipped literals, each
/// resolved as a literal.
pub fn resolve_complement(env: &RegionEnv, st: &mut RegionState, cell: u32, target: i32) -> (r: Result<Resolved, Error>)
    requires
        env_ok(env@),
    ensures
        (result_view(r), final(st)@) == complement_step(env@, old(st)@, cell, target),
        adds_cell_notes(old(st).drift.entries@, final(st).drift.entries@),
{
    proof {
        lemma_adds_refl(st.drift.entries@);
    }
    if target <= 0 {
        return Err(Error::UnknownCell { cell, target });
    }
    let k = match find_cell(&env.cells, target as u32) {
        None => {
            return Err(Error::UnknownCell { cell, target });
        },
        Some(k) => k,
    };
    let g = &env.cells[k].1;
    let ghost gv = geom_view(*g);
    assert(env@.cells[k as int] == (env.cells@[k as int].0, gv));
    if !is_flat(g) {
        return Err(Error::ComplementTooComplex { cell, target });
    }
    let mut reason: Vec<char> = Vec::new();
    append_str(&mut reason, "#");
    append_dec(&mut reason, target as u64);
    append_str(&mut reason, " inlined as the negated region of cell ");
    append_dec(&mut reason, target as u64);
    assert(reason@ =~= complement_note(cell, target).reason);
    push_note(st, cell_note(cell, "complement-expansion", reason));
    let ghost st1 = st@;
    let mut raw: Vec<(i32, bool)> = Vec::new();
    collect_lits(g, &mut raw);
    let ghost rv = raw@;
    assert(rv =~= lits(gv));
    assert(rv.len() > 0);
    assert(forall|j: int| 0 <= j < rv.len() ==> #[trigger] rv[j].0 != i32::MIN) by {
        assert forall|j: int| 0 <= j < rv.len() implies #[trigger] rv[j].0 != i32::MIN by {
            assert(lits(env@.cells[k as int].1)[j].0 != i32::MIN);
        }
    }
    let ghost entries1 = st.drift.entries@;
    let (s0, refl0) = raw[0];
    let first = match resolve_lit(env, st, cell, -s0, refl0) {
        Err(e) => {
            proof {
                lemma_adds_trans(old(st).drift.entries@, entries1, st.drift.entries@);
            }
            return Err(e);
        },
        Ok(x) => x,
    };
    let ghost mut done: Seq<RegionView> = seq![region_view(first)];
    proof {
        lemma_adds_trans(old(st).drift.entries@, entries1, st.drift.entries@);
        assert(with_prefix(Seq::empty(), with_prefix(seq![region_view(first)], negs_step(env@, st@, cell, rv, 1)))
            == with_prefix(done, negs_step(env@, st@, cell, rv, 1))) by {
            lemma_with_prefix(Seq::empty(), region_view(first), negs_step(env@, st@, cell, rv, 1));
            assert(Seq::<RegionView>::empty().push(region_view(first)) =~= done);
        }
        let r0 = negs_step(env@, st1, cell, rv, 0);
        match r0.0 {
            Ok(v) => {
                assert(Seq::<RegionView>::empty() + v =~= v);
            },
            Err(_) => {},
        }
    }
    let mut acc = first;
    let mut i: usize = 1;
    while i < raw.len()
        invariant
            1 <= i <= raw.len(),
            rv == raw@,
            env_ok(env@),
            forall|j: int| 0 <= j < rv.len() ==> #[trigger] rv[j].0 != i32::MIN,
            done.len() == i,
            region_view(acc) == or_fold(done),
            negs_step(env@, st1, cell, rv, 0) == with_prefix(done, negs_step(env@, st@, cell, rv, i as int)),
            negs_step(env@, st1, cell, rv, 0).0 is Err ==> complement_step(env@, old(st)@, cell, target) == (
                Err::<RegionView, ErrorView>(negs_step(env@, st1, cell, rv, 0).0->Err_0), negs_step(env@, st1, cell, rv, 0).1),
            adds_cell_notes(old(st).drift.entries@, st.drift.entries@),
        decreases raw.len() - i,
    {
        let (s, refl) = raw[i];
        let ghost sti = st@;
        let ghost ei = st.drift.entries@;
        assert(rv[i as int] == (s, refl));
        match resolve_lit(env, st, cell, -s, refl) {
            Err(e) => {
                proof {
                    lemma_adds_trans(old(st).drift.entries@, ei, st.drift.entries@);
                    assert(negs_step(env@, sti, cell, rv, i as int) == (Err::<Seq<RegionView>, ErrorView>(e@), st@));
                }
                return Err(e);
            },
            Ok(x) => {
                proof {
                    lemma_adds_trans(old(st).drift.entries@, ei, st.drift.entries@);
                    lemma_with_prefix(done, region_view(x), negs_step(env@, st@, cell, rv, i + 1));
                    assert(done.push(region_view(x)).drop_last() =~= done);
                }
                acc = Resolved::Or(Box::new(acc), Box::new(x));
                proof {
                    done = done.push(region_view(x));
                }
            },
        }
        i = i + 1;
    }
    assert(done + Seq::<RegionView>::empty() =~= done);
    Ok(acc)
}

/// Resolve the region of cell `cell` to OpenMC form, left to right,
/// stopping at the first error: literals as in [`resolve_lit`], `#n`
/// complements as in [`resolve_complement`]; a complement of anything but a
/// cell number is too complex.
pub fn resolve_expr(env: &RegionEnv, st: &mut RegionState, cell: u32, expr: &GeomExpr) -> (r: Result<Resolved, Error>)
    requires
        env_ok(env@),
    ensures
        (result_view(r), final(st)@) == expr_step(env@, old(st)@, cell, geom_view(*expr)),
        adds_cell_notes(old(st).drift.entries@, final(st).drift.entries@),
    decreases *expr,
{
    proof {
        lemma_adds_refl(st.drift.entries@);
    }
    match expr {
        GeomExpr::HalfSpace(h) => resolve_lit(env, st, cell, h.surf, h.reflecting),
        GeomExpr::Intersect(parts) => {
            let ghost views = geom_views(*parts, parts.len() as int);
            proof {
                lemma_geom_views_len(*parts, parts.len() as int);
                assert(geom_view(*expr) == GeomView::Intersect(views));
                let r0 = parts_step(env@, st@, cell, views, 0);
                match r0.0 {
                    Ok(v) => {
                        assert(Seq::<RegionView>::empty() + v =~= v);
                    },
                    Err(_) => {},
                }
            }
            let ghost st0 = st@;
            let ghost mut done: Seq<RegionView> = Seq::empty();
            let mut out: Vec<Resolved> = Vec::new();
            let mut i: usize = 0;
            while i < parts.len()
                invariant
                    i <= parts.len(),
                    views == geom_views(*parts, parts.len() as int),
                    views.len() == parts.len(),
                    forall|k: int| 0 <= k < parts.len() ==> #[trigger] views[k] == geom_view(parts[k]),
                    *expr == GeomExpr::Intersect(*parts),
                    env_ok(env@),
                    out.len() == i,
                    done.len() == i,
                    forall|t: int| 0 <= t < i ==> #[trigger] region_view(out[t]) == done[t],
                    parts_step(env@, st0, cell, views, 0) == with_prefix(done, parts_step(env@, st@, cell, views, i as int)),
                    parts_step(env@, st0, cell, views, 0).0 is Err ==> expr_step(env@, old(st)@, cell, geom_view(*expr)) == (
                        Err::<RegionView, ErrorView>(parts_step(env@, st0, cell, views, 0).0->Err_0), parts_step(env@, st0, cell, views, 0).1),
                    adds_cell_notes(old(st).drift.entries@, st.drift.entries@),
                decreases parts.len() - i,
            {
                proof {
                    vstd::std_specs::vec::axiom_vec_index_decreases(*parts, i as int);
                    assert(decreases_to!(*expr => expr->Intersect_0));
                }
                let ghost ei = st.drift.entries@;
                let ghost sti = st@;
                match resolve_expr(env, st, cell, &parts[i]) {
                    Err(e) => {
                        proof {
                            lemma_adds_trans(old(st).drift.entries@, ei, st.drift.entries@);
                            assert(parts_step(env@, sti, cell, views, i as int) == (Err::<Seq<RegionView>, ErrorView>(e@), st@));
                        }
                        return Err(e);
                    },
                    Ok(x) => {
                        proof {
                            lemma_adds_trans(old(st).drift.entries@, ei, st.drift.entries@);
                            lemma_with_prefix(done, region_view(x), parts_step(env@, st@, cell, views, i + 1));
                            done = done.push(region_view(x));
                        }
                        out.push(x);
                    },
                }
                i = i + 1;
            }
            proof {
                lemma_region_views_len(out, out.len() as int);
                assert(region_views(out, out.len() as int) =~= done);
                assert(done + Seq::<RegionView>::empty() =~= done);
                assert(parts_step(env@, st0, cell, views, 0) == (Ok::<Seq<RegionView>, ErrorView>(done), st@));
            }
            Ok(Resolved::And(out))
        },
        GeomExpr::Union(a, b) => {
            assert(geom_view(*expr) == GeomView::Union(Box::new(geom_view(**a)), Box::new(geom_view(**b))));
            let ghost e0 = st.drift.entries@;
            let x = match resolve_expr(env, st, cell, a) {
                Err(e) => {
                    return Err(e);
                },
                Ok(x) => x,
            };
            let ghost e1 = st.drift.entries@;
            match resolve_expr(env, st, cell, b) {
                Err(e) => {
                    proof {
                        lemma_adds_trans(e0, e1, st.drift.entries@);
                    }
                    Err(e)
                },
                Ok(y) => {
                    proof {
                        lemma_adds_trans(e0, e1, st.drift.entries@);
                    }
                    Ok(Resolved::Or(Box::new(x), Box::new(y)))
                },
            }
        },
        GeomExpr::Complement(inner) => {
            assert(geom_view(*expr) == GeomView::Complement(Box::new(geom_view(**inner))));
            match &**inner {
                GeomExpr::HalfSpace(h) => resolve_complement(env, st, cell, h.surf),
                _ => Err(Error::ComplementTooComplex { cell, target: -1 }),
            }
        },
    }
}

/// The regions of the cells `cells[i..]` as (cell number, OpenMC text),
/// resolved in deck order and stopping at the first error.
pub open spec fn cells_step(env: EnvView, st: StateView, i: int) -> (Result<Seq<(u32, Seq<char>)>, ErrorView>, StateView)
    decreases env.cells.len() - i,
{
    if i < 0 || i >= env.cells.len() {
        (Ok(Seq::empty()), st)
    } else {
        let (r, s1) = expr_step(env, st, env.cells[i].0, env.cells[i].1);
        match r {
            Err(e) => (Err(e), s1),
            Ok(x) => {
                let (rest, s2) = cells_step(env, s1, i + 1);
                match rest {
                    Ok(v) => (Ok(seq![(env.cells[i].0, rendered(x))] + v), s2),
                    Err(e) => (Err(e), s2),
                }
            },
        }
    }
}


/// A successful cell pass writes no `~` into any region.
pub proof fn lemma_cells_step_no_tilde(env: EnvView, st: StateView, i: int)
    ensures
        cells_step(env, st, i).0 matches Ok(v) ==> forall|j: int| 0 <= j < v.len() ==> !(#[trigger] v[j]).1.contains('~'),
    decreases env.cells.len() - i,
{
    if 0 <= i < env.cells.len() {
        let (r, s1) = expr_step(env, st, env.cells[i].0, env.cells[i].1);
        if r is Ok {
            lemma_cells_step_no_tilde(env, s1, i + 1);
            lemma_rendered_chars(r->Ok_0);
            let (rest, s2) = cells_step(env, s1, i + 1);
            if rest is Ok {
                let v = cells_step(env, st, i).0->Ok_0;
                assert forall|j: int| 0 <= j < v.len() implies !(#[trigger] v[j]).1.contains('~') by {
                    if j > 0 {
                        assert(v[j] == rest->Ok_0[j - 1]);
                    }
                }
            }
        }
    }
}

/// A successful cell pass yields one region per cell, in cell order.
pub proof fn lemma_cells_step_shape(env: EnvView, st: StateView, i: int)
    requires
        0 <= i <= env.cells.len(),
    ensures
        cells_step(env, st, i).0 matches Ok(v) ==> {
            &&& v.len() == env.cells.len() - i
            &&& forall|j: int| 0 <= j < v.len() ==> (#[trigger] v[j]).0 == env.cells[i + j].0
        },
    decreases env.cells.len() - i,
{
    if i < env.cells.len() {
        let (r, s1) = expr_step(env, st, env.cells[i].0, env.cells[i].1);
        if r is Ok {
            lemma_cells_step_shape(env, s1, i + 1);
            let (rest, s2) = cells_step(env, s1, i + 1);
            if rest is Ok {
                let v = cells_step(env, st, i).0->Ok_0;
                assert forall|j: int| 0 <= j < v.len() implies (#[trigger] v[j]).0 == env.cells[i + j].0 by {
                    if j > 0 {
                        assert(v[j] == rest->Ok_0[j - 1]);
                    }
                }
            }
        }
    }
}

/// The cell pass of a translation: resolve and render every cell region
/// of the deck, in deck order, stopping at the first error.
pub fn cell_regions(env: &RegionEnv, st: &mut RegionState) -> (r: Result<Vec<(u32, String)>, Error>)
    requires
        env_ok(env@),
    ensures
        (match r {
            Ok(v) => Ok(v@.map_values(|c: (u32, String)| (c.0, c.1@))),
            Err(e) => Err(e@),
        }, final(st)@) == cells_step(env@, old(st)@, 0),
        adds_cell_notes(old(st).drift.entries@, final(st).drift.entries@),
{
    proof {
        lemma_adds_refl(st.drift.entries@);
    }
    let ghost st0 = st@;
    let ghost mut done: Seq<(u32, Seq<char>)> = Seq::empty();
    let mut out: Vec<(u32, String)> = Vec::new();
    let mut i: usize = 0;
    proof {
        let r0 = cells_step(env@, st0, 0);
        match r0.0 {
            Ok(v) => {
                assert(Seq::<(u32, Seq<char>)>::empty() + v =~= v);
            },
            Err(_) => {},
        }
    }
    while i < env.cells.len()
        invariant
            i <= env.cells.len(),
            env_ok(env@),
            st0 == old(st)@,
            out@.map_values(|c: (u32, String)| (c.0, c.1@)) == done,
            cells_step(env@, st0, 0) == (match cells_step(env@, st@, i as int).0 {
                Ok(v) => Ok(done + v),
                Err(e) => Err(e),
            }, cells_step(env@, st@, i as int).1),
            adds_cell_notes(old(st).drift.entries@, st.drift.entries@),
        decreases env.cells.len() - i,
    {
        let num = env.cells[i].0;
        let ghost ei = st.drift.entries@;
        let ghost sti = st@;
        assert(env@.cells[i as int] == (num, geom_view(env.cells[i as int].1)));
        match resolve_expr(env, st, num, &env.cells[i].1) {
            Err(e) => {
                proof {
                    lemma_adds_trans(old(st).drift.entries@, ei, st.drift.entries@);
                    assert(cells_step(env@, sti, i as int) == (Err::<Seq<(u32, Seq<char>)>, ErrorView>(e@), st@));
                }
                return Err(e);
            },
            Ok(x) => {
                proof {
                    lemma_adds_trans(old(st).drift.entries@, ei, st.drift.entries@);
                }
                let text = x.render();
                let ghost item = (num, text@);
                out.push((num, text));
                proof {
                    let rest = cells_step(env@, st@, i + 1);
                    match rest.0 {
                        Ok(v) => {
                            assert(done + (seq![item] + v) =~= done.push(item) + v);
                        },
                        Err(_) => {},
                    }
                    done = done.push(item);
                    assert(out@.map_values(|c: (u32, String)| (c.0, c.1@)) =~= done);
                }
            },
        }
        i = i + 1;
    }
    assert(done + Seq::<(u32, Seq<char>)>::empty() =~= done);
    Ok(out)
}

/// A copy of a region.
pub fn copy_geom(g: &GeomExpr) -> (r: GeomExpr)
    ensures
        geom_view(r) == geom_view(*g),
    decreases *g,
{
    match g {
        GeomExpr::HalfSpace(h) => GeomExpr::HalfSpace(*h),
        GeomExpr::Intersect(parts) => {
            let ghost views = geom_views(*parts, parts.len() as int);
            proof {
                lemma_geom_views_len(*parts, parts.len() as int);
            }
            let mut out: Vec<GeomExpr> = Vec::new();
            let mut i: usize = 0;
            while i < parts.len()
                invariant
                    i <= parts.len(),
                    views == geom_views(*parts, parts.len() as int),
                    views.len() == parts.len(),
                    forall|k: int| 0 <= k < parts.len() ==> #[trigger] views[k] == geom_view(parts[k]),
                    *g == GeomExpr::Intersect(*parts),
                    out.len() == i,
                    forall|k: int| 0 <= k < i ==> #[trigger] geom_view(out[k]) == views[k],
                decreases parts.len() - i,
            {
                proof {
                    vstd::std_specs::vec::axiom_vec_index_decreases(*parts, i as int);
                    assert(decreases_to!(*g => g->Intersect_0));
                }
                let c = copy_geom(&parts[i]);
                out.push(c);
                i = i + 1;
            }
            proof {
                lemma_geom_views_len(out, out.len() as int);
                assert(geom_views(out, out.len() as int) =~= views);
            }
            GeomExpr::Intersect(out)
        },
        GeomExpr::Union(a, b) => {
            let x = copy_geom(a);
            let y = copy_geom(b);
            GeomExpr::Union(Box::new(x), Box::new(y))
        },
        GeomExpr::Complement(a) => {
            let x = copy_geom(a);
            GeomExpr::Complement(Box::new(x))
        },
    }
}

/// Append the text of a signed literal.
fn append_lit(out: &mut Vec<char>, s: i32)
    ensures
        final(out)@ == old(out)@ + lit_text(s),
{
    if s < 0 {
        out.push('-');
        let m: u64 = if s == i32::MIN { 2147483648u64 } else { (-s) as u64 };
        let ghost before = out@;
        append_dec(out, m);
        assert(out@ == old(out)@ + lit_text(s));
    } else {
        append_dec(out, s as u64);
    }
}

impl Resolved {
    /// Append the region's text to `out`.
    fn render_into(&self, out: &mut Vec<char>)
        ensures
            final(out)@ == old(out)@ + rendered(region_view(*self)),
        decreases *self,
    {
        match self {
            Resolved::Lit(s) => append_lit(out, *s),
            Resolved::And(parts) => {
                let ghost views = region_views(*parts, parts.len() as int);
                proof {
                    lemma_region_views_len(*parts, parts.len() as int);
                }
                let mut i: usize = 0;
                while i < parts.len()
                    invariant
                        i <= parts.len(),
                        views == region_views(*parts, parts.len() as int),
                        views.len() == parts.len(),
                        forall|k: int| 0 <= k < parts.len() ==> #[trigger] views[k] == region_view(parts[k]),
                        out@ == old(out)@ + rendered_parts(views, i as int),
                        *self == Resolved::And(*parts),
                    decreases parts.len() - i,
                {
                    if i > 0 {
                        out.push(' ');
                    }
                    let p = &parts[i];
                    proof {
                        vstd::std_specs::vec::axiom_vec_index_decreases(*parts, i as int);
                        assert(decreases_to!(*self => self->And_0));
                        assert(decreases_to!(*self => *p));
                    }
                    match p {
                        Resolved::Or(..) => {
                            out.push('(');
                            p.render_into(out);
                            out.push(')');
                        },
                        _ => p.render_into(out),
                    }
                    i = i + 1;
                }
            },
            Resolved::Or(a, b) => {
                a.render_into(out);
                out.push(' ');
                out.push('|');
                out.push(' ');
                b.render_into(out);
                assert(out@ == old(out)@ + rendered(region_view(*self)));
            },
        }
    }

    /// The region's OpenMC text, with minimal parentheses (unions inside
    /// an intersection are parenthesized).
    pub fn render(&self) -> (r: String)
        ensures
            r@ == rendered(region_view(*self)),
    {
        let mut out: Vec<char> = Vec::new();
        self.render_into(&mut out);
        string_from_chars(out.as_slice())
    }
}


impl GeomExpr {
    /// Append the region's deck spelling to `out`.
    fn deck_into(&self, markers: bool, out: &mut Vec<char>)
        ensures
            final(out)@ == old(out)@ + deck_text(geom_view(*self), markers),
        decreases *self,
    {
        match self {
            GeomExpr::HalfSpace(h) => {
                if markers && h.reflecting {
                    out.push('*');
                }
                append_lit(out, h.surf);
                assert(out@ =~= old(out)@ + deck_text(geom_view(*self), markers));
            },
            GeomExpr::Intersect(parts) => {
                let ghost views = geom_views(*parts, parts.len() as int);
                proof {
                    lemma_geom_views_len(*parts, parts.len() as int);
                }
                let mut i: usize = 0;
                while i < parts.len()
                    invariant
                        i <= parts.len(),
                        views == geom_views(*parts, parts.len() as int),
                        views.len() == parts.len(),
                        forall|k: int| 0 <= k < parts.len() ==> #[trigger] views[k] == geom_view(parts[k]),
                        out@ == old(out)@ + deck_parts(views, markers, i as int),
                        *self == GeomExpr::Intersect(*parts),
                    decreases parts.len() - i,
                {
                    if i > 0 {
                        out.push(' ');
                    }
                    let p = &parts[i];
                    proof {
                        vstd::std_specs::vec::axiom_vec_index_decreases(*parts, i as int);
                        assert(decreases_to!(*self => self->Intersect_0));
                        assert(decreases_to!(*self => *p));
                    }
                    match p {
                        GeomExpr::Union(..) => {
                            out.push('(');
                            p.deck_into(markers, out);
                            out.push(')');
                        },
                        _ => p.deck_into(markers, out),
                    }
                    proof {
                        let piece = match views[i as int] {
                            GeomView::Union(..) => seq!['('] + deck_text(views[i as int], markers) + seq![')'],
                            _ => deck_text(views[i as int], markers),
                        };
                        if i == 0 {
                            assert(deck_parts(views, markers, 1) == piece);
                        } else {
                            assert(deck_parts(views, markers, i + 1) == deck_parts(views, markers, i as int) + seq![' '] + piece);
                        }
                    }
                    assert(out@ =~= old(out)@ + deck_parts(views, markers, i + 1));
                    i = i + 1;
                }
            },
            GeomExpr::Union(a, b) => {
                a.deck_into(markers, out);
                out.push(' ');
                out.push(':');
                out.push(' ');
                b.deck_into(markers, out);
                assert(out@ =~= old(out)@ + deck_text(geom_view(*self), markers));
            },
            GeomExpr::Complement(a) => {
                out.push('#');
                match &**a {
                    GeomExpr::HalfSpace(..) => {
                        a.deck_into(markers, out);
                    },
                    _ => {
                        out.push('(');
                        a.deck_into(markers, out);
                        out.push(')');
                    },
                }
                assert(out@ =~= old(out)@ + deck_text(geom_view(*self), markers));
            },
        }
    }

    /// The region's deck spelling (see [`deck_text`]); without `markers`
    /// the reflecting `*` markers are left out.
    pub fn deck_spelling(&self, markers: bool) -> (r: String)
        ensures
            r@ == deck_text(geom_view(*self), markers),
    {
        let mut out: Vec<char> = Vec::new();
        self.deck_into(markers, &mut out);
        assert(out@ =~= deck_text(geom_view(*self), markers));
        string_from_chars(out.as_slice())
    }
}

} // verus!
