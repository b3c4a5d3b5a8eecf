//! Universe, fill and rectangular-lattice resolution of a geometry deck:
//! which universe each cell belongs to, which cells a single universe
//! fills, and which `LAT=1` cells become emitted lattices, with the ids,
//! element counts and drift notes of each.

use vstd::prelude::*;
use crate::drift::{DriftEntry, DriftScope};
use crate::text::{dec, append_str, append_dec, string_from_chars};
pub use crate::xlate::{Error, ErrorView};

verus! {

/// An association list kept sorted by key: `k` set to `v`, replacing an
/// entry with the same key.
pub open spec fn put<V>(m: Seq<(u32, V)>, k: u32, v: V) -> Seq<(u32, V)>
    decreases m.len(),
{
    if m.len() == 0 {
        seq![(k, v)]
    } else if m[0].0 == k {
        seq![(k, v)] + m.drop_first()
    } else if m[0].0 > k {
        seq![(k, v)] + m
    } else {
        seq![m[0]] + put(m.drop_first(), k, v)
    }
}

/// The value at key `k` of an association list.
pub open spec fn get<V>(m: Seq<(u32, V)>, k: u32) -> Option<V>
    decreases m.len(),
{
    if m.len() == 0 {
        None
    } else if m[0].0 == k {
        Some(m[0].1)
    } else {
        get(m.drop_first(), k)
    }
}

proof fn lemma_put_at<V>(m: Seq<(u32, V)>, k: u32, v: V, pos: int)
    requires
        0 <= pos <= m.len(),
        forall|j: int| 0 <= j < pos ==> m[j].0 < k,
        pos < m.len() ==> m[pos].0 >= k,
    ensures
        put(m, k, v) == m.take(pos) + seq![(k, v)] + (if pos < m.len() && m[pos].0 == k {
            m.skip(pos + 1)
        } else {
            m.skip(pos)
        }),
    decreases pos,
{
    if pos == 0 {
        if m.len() > 0 && m[0].0 == k {
            assert(m.drop_first() =~= m.skip(1));
        }
        assert(m.take(0) + seq![(k, v)] =~= seq![(k, v)]);
        assert(m.skip(0) =~= m);
    } else {
        lemma_put_at(m.drop_first(), k, v, pos - 1);
        let rest = m.drop_first();
        assert(m.take(pos) =~= seq![m[0]] + rest.take(pos - 1));
        assert(m.skip(pos) =~= rest.skip(pos - 1));
        if pos < m.len() {
            assert(m.skip(pos + 1) =~= rest.skip(pos));
        }
    }
}

/// Set key `k` to `v` in a key-sorted association list.
pub fn put_entry<V>(m: &mut Vec<(u32, V)>, k: u32, v: V)
    ensures
        final(m)@ == put(old(m)@, k, v),
{
    let mut pos: usize = 0;
    while pos < m.len() && m[pos].0 < k
        invariant
            pos <= m.len(),
            m@ == old(m)@,
            forall|j: int| 0 <= j < pos ==> m@[j].0 < k,
        decreases m.len() - pos,
    {
        pos = pos + 1;
    }
    proof {
        lemma_put_at(m@, k, v, pos as int);
    }
    if pos < m.len() && m[pos].0 == k {
        let ghost before = m@;
        m.remove(pos);
        m.insert(pos, (k, v));
        assert(m@ =~= before.take(pos as int) + seq![(k, v)] + before.skip(pos + 1));
    } else {
        let ghost before = m@;
        m.insert(pos, (k, v));
        assert(m@ =~= before.take(pos as int) + seq![(k, v)] + before.skip(pos as int));
    }
}

/// Look key `k` up in an association list.
pub fn get_entry<V: Copy>(m: &Vec<(u32, V)>, k: u32) -> (r: Option<V>)
    ensures
        r == get(m@, k),
{
    let mut i: usize = 0;
    assert(m@.skip(0) =~= m@);
    while i < m.len()
        invariant
            i <= m.len(),
            get(m@, k) == get(m@.skip(i as int), k),
        decreases m.len() - i,
    {
        assert(m@.skip(i as int).drop_first() =~= m@.skip(i + 1));
        if m[i].0 == k {
            return Some(m[i].1);
        }
        i = i + 1;
    }
    None
}

/// A lattice card of a cell: its `LAT` type.
#[derive(Debug, Clone, Copy, PartialEq, Eq, Structural)]
pub struct LatticeView {
    pub cell: u32,
    pub lattice: u8,
}

/// A universe card: the universe number, the cells it lists, and the cells
/// that carry it with the not-truncated (`U=-n`) flag.
#[derive(Debug, Clone, PartialEq, Eq)]
pub struct UniverseView {
    pub number: u32,
    pub cells: Vec<u32>,
    pub not_truncated: Vec<u32>,
}

/// A `FILL` matrix: minimum and maximum `[i, j, k]` indices and the element
/// universes in `k, j, i` order (`None` for a `0` hole).
#[derive(Debug, Clone, PartialEq, Eq)]
pub struct FillMatrix {
    pub min_index: [i32; 3],
    pub max_index: [i32; 3],
    pub universes: Vec<Option<u32>>,
}

pub struct FillMatrixView {
    pub min_index: [i32; 3],
    pub max_index: [i32; 3],
    pub universes: Seq<Option<u32>>,
}

impl View for FillMatrix {
    type V = FillMatrixView;

    open spec fn view(&self) -> FillMatrixView {
        FillMatrixView { min_index: self.min_index, max_index: self.max_index, universes: self.universes@ }
    }
}

/// The views of the matrix entries of an association list.
pub open spec fn mviews(s: Seq<(u32, FillMatrix)>) -> Seq<(u32, FillMatrixView)> {
    s.map_values(|e: (u32, FillMatrix)| (e.0, e.1@))
}

proof fn lemma_mviews_put(m: Seq<(u32, FillMatrix)>, k: u32, v: FillMatrix)
    ensures
        mviews(put(m, k, v)) == put(mviews(m), k, v@),
    decreases m.len(),
{
    if m.len() == 0 {
        assert(mviews(put(m, k, v)) =~= put(mviews(m), k, v@));
    } else if m[0].0 == k {
        assert(mviews(m).drop_first() =~= mviews(m.drop_first()));
        assert(mviews(put(m, k, v)) =~= put(mviews(m), k, v@));
    } else if m[0].0 > k {
        assert(mviews(put(m, k, v)) =~= put(mviews(m), k, v@));
    } else {
        lemma_mviews_put(m.drop_first(), k, v);
        assert(mviews(m).drop_first() =~= mviews(m.drop_first()));
        assert(mviews(put(m, k, v)) =~= seq![mviews(m)[0]] + mviews(put(m.drop_first(), k, v)));
    }
}

/// What a `FILL` fills its cell with.
#[derive(Debug, Clone, PartialEq, Eq)]
pub enum FillTarget {
    Single(u32),
    Matrix(FillMatrix),
}

/// A `FILL` card of a cell.
#[derive(Debug, Clone, PartialEq, Eq)]
pub struct FillView {
    pub cell: u32,
    /// The fill carries a transform.
    pub has_transform: bool,
    /// The fill is a `*FILL` (transform angles in degrees).
    pub in_degrees: bool,
    pub target: FillTarget,
}

/// The `LAT` type of each lattice cell, the last card winning.
pub open spec fn lattice_map(ls: Seq<LatticeView>) -> Seq<(u32, u8)>
    decreases ls.len(),
{
    if ls.len() == 0 {
        Seq::empty()
    } else {
        put(lattice_map(ls.drop_last()), ls.last().cell, ls.last().lattice)
    }
}

/// Every cell of `cells` set to universe `u`, in order.
pub open spec fn put_cells(m: Seq<(u32, u32)>, cells: Seq<u32>, u: u32) -> Seq<(u32, u32)>
    decreases cells.len(),
{
    if cells.len() == 0 {
        m
    } else {
        put(put_cells(m, cells.drop_last(), u), cells.last(), u)
    }
}

/// Numbers separated by `, `.
pub open spec fn list_body(s: Seq<u32>) -> Seq<char>
    decreases s.len(),
{
    if s.len() == 0 {
        Seq::empty()
    } else if s.len() == 1 {
        dec(s[0] as nat)
    } else {
        list_body(s.drop_last()) + ", "@ + dec(s.last() as nat)
    }
}

/// A list of numbers as `[1, 2, 3]`.
pub open spec fn list_text(s: Seq<u32>) -> Seq<char> {
    "["@ + list_body(s) + "]"@
}

/// The universe of each cell (the last universe card listing it winning),
/// or the error of the first card that uses `U=-n`.
pub open spec fn universe_map(us: Seq<UniverseView>) -> Result<Seq<(u32, u32)>, ErrorView>
    decreases us.len(),
{
    if us.len() == 0 {
        Ok(Seq::empty())
    } else {
        match universe_map(us.drop_last()) {
            Err(e) => Err(e),
            Ok(m) => {
                let v = us.last();
                if v.not_truncated@.len() > 0 {
                    Err(ErrorView::UniverseOutOfScope(
                        "cells "@ + list_text(v.not_truncated@) + " use U=-"@ + dec(v.number as nat)
                            + " with no OpenMC equivalent"@,
                    ))
                } else {
                    Ok(put_cells(m, v.cells@, v.number))
                }
            },
        }
    }
}

fn lattice_map_exec(ls: &Vec<LatticeView>) -> (r: Vec<(u32, u8)>)
    ensures
        r@ == lattice_map(ls@),
{
    let mut m: Vec<(u32, u8)> = Vec::new();
    let mut i: usize = 0;
    assert(ls@.take(0) =~= Seq::<LatticeView>::empty());
    while i < ls.len()
        invariant
            i <= ls.len(),
            m@ == lattice_map(ls@.take(i as int)),
        decreases ls.len() - i,
    {
        assert(ls@.take(i + 1).drop_last() =~= ls@.take(i as int));
        put_entry(&mut m, ls[i].cell, ls[i].lattice);
        i = i + 1;
    }
    assert(ls@.take(ls@.len() as int) =~= ls@);
    m
}

fn append_list(v: &mut Vec<char>, s: &Vec<u32>)
    ensures
        final(v)@ == old(v)@ + list_text(s@),
{
    let ghost start = old(v)@;
    append_str(v, "[");
    let mut i: usize = 0;
    assert(s@.take(0) =~= Seq::<u32>::empty());
    while i < s.len()
        invariant
            i <= s.len(),
            v@ == start + "["@ + list_body(s@.take(i as int)),
        decreases s.len() - i,
    {
        assert(s@.take(i + 1).drop_last() =~= s@.take(i as int));
        if i > 0 {
            append_str(v, ", ");
        }
        append_dec(v, s[i] as u64);
        i = i + 1;
    }
    assert(s@.take(s@.len() as int) =~= s@);
    append_str(v, "]");
}

fn universe_map_exec(us: &Vec<UniverseView>) -> (r: Result<Vec<(u32, u32)>, Error>)
    ensures
        match (r, universe_map(us@)) {
            (Ok(a), Ok(b)) => a@ == b,
            (Err(e), Err(f)) => e@ == f,
            _ => false,
        },
{
    let mut m: Vec<(u32, u32)> = Vec::new();
    let mut i: usize = 0;
    assert(us@.take(0) =~= Seq::<UniverseView>::empty());
    while i < us.len()
        invariant
            i <= us.len(),
            universe_map(us@.take(i as int)) == Ok::<Seq<(u32, u32)>, ErrorView>(m@),
        decreases us.len() - i,
    {
        assert(us@.take(i + 1).drop_last() =~= us@.take(i as int));
        let v = &us[i];
        if v.not_truncated.len() > 0 {
            let mut t: Vec<char> = Vec::new();
            append_str(&mut t, "cells ");
            append_list(&mut t, &v.not_truncated);
            append_str(&mut t, " use U=-");
            append_dec(&mut t, v.number as u64);
            append_str(&mut t, " with no OpenMC equivalent");
            proof {
                lemma_universe_map_prefix(us@, (i + 1) as int);
            }
            return Err(Error::UniverseOutOfScope { detail: string_from_chars(t.as_slice()) });
        }
        let mut j: usize = 0;
        let ghost base = m@;
        assert(v.cells@.take(0) =~= Seq::<u32>::empty());
        while j < v.cells.len()
            invariant
                j <= v.cells.len(),
                m@ == put_cells(base, v.cells@.take(j as int), v.number),
            decreases v.cells.len() - j,
        {
            assert(v.cells@.take(j + 1).drop_last() =~= v.cells@.take(j as int));
            put_entry(&mut m, v.cells[j], v.number);
            j = j + 1;
        }
        assert(v.cells@.take(v.cells@.len() as int) =~= v.cells@);
        i = i + 1;
    }
    assert(us@.take(us@.len() as int) =~= us@);
    Ok(m)
}

proof fn lemma_universe_map_prefix(us: Seq<UniverseView>, n: int)
    requires
        0 <= n <= us.len(),
        universe_map(us.take(n)) is Err,
    ensures
        universe_map(us) == universe_map(us.take(n)),
    decreases us.len() - n,
{
    if n < us.len() {
        assert(us.take(n + 1).drop_last() =~= us.take(n));
        lemma_universe_map_prefix(us, n + 1);
    } else {
        assert(us.take(n) =~= us);
    }
}

/// The single-universe fills and the matrix fills of the cells (the last
/// card winning), or the error of the first card that cannot be
/// translated.
pub open spec fn fill_maps(fs: Seq<FillView>, lats: Seq<(u32, u8)>) -> Result<(Seq<(u32, u32)>, Seq<(u32, FillMatrixView)>), ErrorView>
    decreases fs.len(),
{
    if fs.len() == 0 {
        Ok((Seq::empty(), Seq::empty()))
    } else {
        match fill_maps(fs.drop_last(), lats) {
            Err(e) => Err(e),
            Ok(maps) => {
                let v = fs.last();
                if v.has_transform {
                    Err(ErrorView::TransformOutOfScope(
                        "cell "@ + dec(v.cell as nat) + " FILL transform needs transform translation"@,
                    ))
                } else if v.in_degrees {
                    Err(ErrorView::TransformOutOfScope(
                        "cell "@ + dec(v.cell as nat) + " *FILL degrees need transform translation"@,
                    ))
                } else {
                    match v.target {
                        FillTarget::Single(u) => Ok((put(maps.0, v.cell, u), maps.1)),
                        FillTarget::Matrix(mx) => match get(lats, v.cell) {
                            Some(l) => if l == 1 {
                                Ok((maps.0, put(maps.1, v.cell, mx@)))
                            } else if l == 2 {
                                Err(ErrorView::UniverseOutOfScope(hexagonal_message(v.cell)))
                            } else {
                                Err(ErrorView::UniverseOutOfScope(
                                    "cell "@ + dec(v.cell as nat) + " FILL matrix without LAT=1 needs lattice translation"@,
                                ))
                            },
                            None => Err(ErrorView::UniverseOutOfScope(
                                "cell "@ + dec(v.cell as nat) + " FILL matrix without LAT=1 needs lattice translation"@,
                            )),
                        },
                    }
                }
            },
        }
    }
}

/// The refusal of a hexagonal lattice.
pub open spec fn hexagonal_message(cell: u32) -> Seq<char> {
    "cell "@ + dec(cell as nat) + " LAT=2 hexagonal lattices stay out of scope (rectangular LAT=1 only)"@
}

/// Every lattice cell from index `i` on (cell order) is rectangular and has
/// a matrix fill; else the first that is not.
pub open spec fn lattice_check(lats: Seq<(u32, u8)>, mx: Seq<(u32, FillMatrixView)>, i: int) -> Result<(), ErrorView>
    decreases lats.len() - i,
{
    if i < 0 || i >= lats.len() {
        Ok(())
    } else if lats[i].1 == 2 {
        Err(ErrorView::UniverseOutOfScope(hexagonal_message(lats[i].0)))
    } else if get(mx, lats[i].0) is None {
        Err(ErrorView::UniverseOutOfScope(
            "cell "@ + dec(lats[i].0 as nat)
                + " LAT=1 needs a full FILL matrix (single-universe lattice fills stay out of scope)"@,
        ))
    } else {
        lattice_check(lats, mx, i + 1)
    }
}

fn cell_message(before: &str, cell: u32, after: &str) -> (r: String)
    ensures
        r@ == before@ + dec(cell as nat) + after@,
{
    let mut t: Vec<char> = Vec::new();
    append_str(&mut t, before);
    append_dec(&mut t, cell as u64);
    append_str(&mut t, after);
    string_from_chars(t.as_slice())
}

fn copy_matrix(m: &FillMatrix) -> (r: FillMatrix)
    ensures
        r@ == m@,
{
    let mut u: Vec<Option<u32>> = Vec::new();
    let mut i: usize = 0;
    while i < m.universes.len()
        invariant
            i <= m.universes.len(),
            u@ == m.universes@.take(i as int),
        decreases m.universes.len() - i,
    {
        u.push(m.universes[i]);
        i = i + 1;
        assert(u@ =~= m.universes@.take(i as int));
    }
    assert(u@ =~= m.universes@);
    FillMatrix { min_index: m.min_index, max_index: m.max_index, universes: u }
}

proof fn lemma_fill_maps_prefix(fs: Seq<FillView>, lats: Seq<(u32, u8)>, n: int)
    requires
        0 <= n <= fs.len(),
        fill_maps(fs.take(n), lats) is Err,
    ensures
        fill_maps(fs, lats) == fill_maps(fs.take(n), lats),
    decreases fs.len() - n,
{
    if n < fs.len() {
        assert(fs.take(n + 1).drop_last() =~= fs.take(n));
        lemma_fill_maps_prefix(fs, lats, n + 1);
    } else {
        assert(fs.take(n) =~= fs);
    }
}

fn fill_maps_exec(fs: &Vec<FillView>, lats: &Vec<(u32, u8)>) -> (r: Result<(Vec<(u32, u32)>, Vec<(u32, FillMatrix)>), Error>)
    ensures
        match (r, fill_maps(fs@, lats@)) {
            (Ok((a, b)), Ok((c, d))) => a@ == c && mviews(b@) == d,
            (Err(e), Err(f)) => e@ == f,
            _ => false,
        },
{
    let mut single: Vec<(u32, u32)> = Vec::new();
    let mut matrices: Vec<(u32, FillMatrix)> = Vec::new();
    let mut i: usize = 0;
    assert(fs@.take(0) =~= Seq::<FillView>::empty());
    assert(mviews(matrices@) =~= Seq::<(u32, FillMatrixView)>::empty());
    while i < fs.len()
        invariant
            i <= fs.len(),
            fill_maps(fs@.take(i as int), lats@) == Ok::<(Seq<(u32, u32)>, Seq<(u32, FillMatrixView)>), ErrorView>((single@, mviews(matrices@))),
        decreases fs.len() - i,
    {
        assert(fs@.take(i + 1).drop_last() =~= fs@.take(i as int));
        let v = &fs[i];
        if v.has_transform {
            proof {
                lemma_fill_maps_prefix(fs@, lats@, (i + 1) as int);
            }
            return Err(Error::TransformOutOfScope {
                detail: cell_message("cell ", v.cell, " FILL transform needs transform translation"),
            });
        }
        if v.in_degrees {
            proof {
                lemma_fill_maps_prefix(fs@, lats@, (i + 1) as int);
            }
            return Err(Error::TransformOutOfScope {
                detail: cell_message("cell ", v.cell, " *FILL degrees need transform translation"),
            });
        }
        match &v.target {
            FillTarget::Single(u) => {
                put_entry(&mut single, v.cell, *u);
            },
            FillTarget::Matrix(mx) => {
                match get_entry(lats, v.cell) {
                    Some(l) => {
                        if l == 1 {
                            let copy = copy_matrix(mx);
                            proof {
                                lemma_mviews_put(matrices@, v.cell, copy);
                            }
                            put_entry(&mut matrices, v.cell, copy);
                        } else if l == 2 {
                            proof {
                                lemma_fill_maps_prefix(fs@, lats@, (i + 1) as int);
                            }
                            return Err(Error::UniverseOutOfScope {
                                detail: cell_message(
                                    "cell ",
                                    v.cell,
                                    " LAT=2 hexagonal lattices stay out of scope (rectangular LAT=1 only)",
                                ),
                            });
                        } else {
                            proof {
                                lemma_fill_maps_prefix(fs@, lats@, (i + 1) as int);
                            }
                            return Err(Error::UniverseOutOfScope {
                                detail: cell_message("cell ", v.cell, " FILL matrix without LAT=1 needs lattice translation"),
                            });
                        }
                    },
                    None => {
                        proof {
                            lemma_fill_maps_prefix(fs@, lats@, (i + 1) as int);
                        }
                        return Err(Error::UniverseOutOfScope {
                            detail: cell_message("cell ", v.cell, " FILL matrix without LAT=1 needs lattice translation"),
                        });
                    },
                }
            },
        }
        i = i + 1;
    }
    assert(fs@.take(fs@.len() as int) =~= fs@);
    Ok((single, matrices))
}

fn lattice_check_exec(lats: &Vec<(u32, u8)>, mx: &Vec<(u32, FillMatrix)>) -> (r: Result<(), Error>)
    ensures
        match (r, lattice_check(lats@, mviews(mx@), 0)) {
            (Ok(()), Ok(())) => true,
            (Err(e), Err(f)) => e@ == f,
            _ => false,
        },
{
    let ghost mv = mviews(mx@);
    let mut i: usize = 0;
    while i < lats.len()
        invariant
            i <= lats.len(),
            mv == mviews(mx@),
            lattice_check(lats@, mv, 0) == lattice_check(lats@, mv, i as int),
        decreases lats.len() - i,
    {
        let (cell, l) = lats[i];
        if l == 2 {
            return Err(Error::UniverseOutOfScope {
                detail: cell_message(
                    "cell ",
                    cell,
                    " LAT=2 hexagonal lattices stay out of scope (rectangular LAT=1 only)",
                ),
            });
        }
        let mut found = false;
        let mut j: usize = 0;
        assert(mv.skip(0) =~= mv);
        while j < mx.len() && !found
            invariant
                j <= mx.len(),
                mv == mviews(mx@),
                found ==> get(mv, cell) is Some,
                !found ==> get(mv, cell) == get(mv.skip(j as int), cell),
            decreases mx.len() - j,
        {
            assert(mv.skip(j as int).drop_first() =~= mv.skip(j + 1));
            if mx[j].0 == cell {
                found = true;
            }
            j = j + 1;
        }
        if !found {
            assert(mv.skip(j as int) =~= Seq::<(u32, FillMatrixView)>::empty());
            return Err(Error::UniverseOutOfScope {
                detail: cell_message(
                    "cell ",
                    cell,
                    " LAT=1 needs a full FILL matrix (single-universe lattice fills stay out of scope)",
                ),
            });
        }
        i = i + 1;
    }
    Ok(())
}

/// The largest number of `s` (0 for none).
pub open spec fn seq_max(s: Seq<u32>) -> u32
    decreases s.len(),
{
    if s.len() == 0 {
        0
    } else if s.last() > seq_max(s.drop_last()) {
        s.last()
    } else {
        seq_max(s.drop_last())
    }
}

/// The values of an association list, in order.
pub open spec fn values(m: Seq<(u32, u32)>) -> Seq<u32> {
    m.map_values(|e: (u32, u32)| e.1)
}

/// The universes present in a matrix (holes left out), in order.
pub open spec fn present(s: Seq<Option<u32>>) -> Seq<u32>
    decreases s.len(),
{
    if s.len() == 0 {
        Seq::empty()
    } else {
        match s.last() {
            Some(u) => present(s.drop_last()).push(u),
            None => present(s.drop_last()),
        }
    }
}

/// The universes present in all matrices, in cell order.
pub open spec fn matrix_universes(mx: Seq<(u32, FillMatrixView)>) -> Seq<u32>
    decreases mx.len(),
{
    if mx.len() == 0 {
        Seq::empty()
    } else {
        matrix_universes(mx.drop_last()) + present(mx.last().1.universes)
    }
}

/// The bound every number of a deck with `nfills` fill cards must stay
/// below: lattice ids run from one above the largest number, one per
/// matrix fill, and must fit a `u32`.
pub open spec fn id_bound(nfills: nat) -> int {
    u32::MAX - nfills + 1
}

/// Lattice ids allocated above a deck's numbers fit a `u32`: its cell
/// numbers, universe numbers and filling universes plus the number of fill
/// cards stay within `u32::MAX`.
pub open spec fn numbers_fit(cells: Seq<u32>, us: Seq<UniverseView>, fs: Seq<FillView>) -> bool {
    let b = id_bound(fs.len());
    &&& fs.len() <= u32::MAX
    &&& forall|i: int| 0 <= i < cells.len() ==> #[trigger] cells[i] < b
    &&& forall|i: int| 0 <= i < us.len() ==> #[trigger] us[i].number < b
    &&& forall|i: int| 0 <= i < fs.len() ==> #[trigger] fill_fits(fs[i], b)
}

/// The universes a fill card names stay below `b`.
pub open spec fn fill_fits(f: FillView, b: int) -> bool {
    match f.target {
        FillTarget::Single(u) => u < b,
        FillTarget::Matrix(m) => matrix_fits(m@, b),
    }
}

/// A lattice ready for emission.
#[derive(Debug)]
pub struct LatticePlan {
    /// The `LAT=1` cell.
    pub cell: u32,
    /// Emitted lattice id, above every cell and universe number.
    pub id: u32,
    pub min_index: [i32; 3],
    pub max_index: [i32; 3],
    /// Element counts `max - min + 1` per axis.
    pub counts: [usize; 3],
    /// Element universes in `k, j, i` order.
    pub universes: Vec<u32>,
    /// The `lattice-emitted` drift note.
    pub note: DriftEntry,
}

/// A drift note of a cell, as characters.
pub struct NoteView {
    pub target: u32,
    pub action: Seq<char>,
    pub reason: Seq<char>,
}

pub open spec fn note_view(e: DriftEntry) -> NoteView {
    NoteView { target: e.target, action: e.action@, reason: e.reason@ }
}

pub struct LatticePlanView {
    pub cell: u32,
    pub id: u32,
    pub min_index: [i32; 3],
    pub max_index: [i32; 3],
    pub counts: [usize; 3],
    pub universes: Seq<u32>,
    pub note: NoteView,
}

impl View for LatticePlan {
    type V = LatticePlanView;

    open spec fn view(&self) -> LatticePlanView {
        LatticePlanView {
            cell: self.cell,
            id: self.id,
            min_index: self.min_index,
            max_index: self.max_index,
            counts: self.counts,
            universes: self.universes@,
            note: note_view(self.note),
        }
    }
}

/// Element count along one axis of a matrix.
pub open spec fn axis_count(m: FillMatrixView, a: int) -> usize {
    (m.max_index[a] - m.min_index[a] + 1) as usize
}

/// The lattice emitted for matrix entry `k` (cell order) under id base
/// `top`, or the refusal of a matrix with a hole.
pub open spec fn lattice_entry(mx: Seq<(u32, FillMatrixView)>, top: u32, k: int) -> Result<LatticePlanView, ErrorView> {
    let cell = mx[k].0;
    let m = mx[k].1;
    let id = (top + 1 + k) as u32;
    let counts = [axis_count(m, 0), axis_count(m, 1), axis_count(m, 2)];
    if exists|j: int| 0 <= j < m.universes.len() && m.universes[j] is None {
        Err(ErrorView::UniverseOutOfScope(
            "cell "@ + dec(cell as nat) + " FILL matrix has a 0-hole (empty element) with no emitted spelling"@,
        ))
    } else {
        Ok(LatticePlanView {
            cell,
            id,
            min_index: m.min_index,
            max_index: m.max_index,
            counts,
            universes: m.universes.map_values(|o: Option<u32>| o->0),
            note: NoteView {
                target: cell,
                action: "lattice-emitted"@,
                reason: "cell "@ + dec(cell as nat) + " rectangular lattice emitted as lattice "@ + dec(id as nat)
                    + " ("@ + dec(counts[0] as nat) + "x"@ + dec(counts[1] as nat) + "x"@ + dec(counts[2] as nat)
                    + " elements)"@,
            },
        })
    }
}

/// The `universe-assigned` notes of the cells in a non-zero universe.
pub open spec fn universe_notes(m: Seq<(u32, u32)>) -> Seq<NoteView>
    decreases m.len(),
{
    if m.len() == 0 {
        Seq::empty()
    } else if m.last().1 != 0 {
        universe_notes(m.drop_last()).push(NoteView {
            target: m.last().0,
            action: "universe-assigned"@,
            reason: "cell "@ + dec(m.last().0 as nat) + " assigned to universe "@ + dec(m.last().1 as nat),
        })
    } else {
        universe_notes(m.drop_last())
    }
}

/// The `fill-applied` notes of the filled cells.
pub open spec fn fill_notes(m: Seq<(u32, u32)>) -> Seq<NoteView>
    decreases m.len(),
{
    if m.len() == 0 {
        Seq::empty()
    } else {
        fill_notes(m.drop_last()).push(NoteView {
            target: m.last().0,
            action: "fill-applied"@,
            reason: "cell "@ + dec(m.last().0 as nat) + " filled with universe "@ + dec(m.last().1 as nat),
        })
    }
}

/// Every number of `s` is below `b`.
pub open spec fn all_below(s: Seq<u32>, b: int) -> bool {
    forall|i: int| 0 <= i < s.len() ==> #[trigger] s[i] < b
}

proof fn lemma_max_below(s: Seq<u32>, b: int)
    requires
        all_below(s, b),
        b > 0,
    ensures
        seq_max(s) < b,
    decreases s.len(),
{
    if s.len() > 0 {
        lemma_max_below(s.drop_last(), b);
    }
}

proof fn lemma_put_below(m: Seq<(u32, u32)>, k: u32, v: u32, b: int)
    requires
        all_below(values(m), b),
        v < b,
    ensures
        all_below(values(put(m, k, v)), b),
        put(m, k, v).len() <= m.len() + 1,
    decreases m.len(),
{
    let r = values(put(m, k, v));
    if m.len() > 0 && m[0].0 < k {
        assert(values(m.drop_first()) =~= values(m).drop_first());
        lemma_put_below(m.drop_first(), k, v, b);
        assert(r =~= seq![m[0].1] + values(put(m.drop_first(), k, v)));
        assert(values(m)[0] == m[0].1);
        assert forall|i: int| 0 <= i < r.len() implies #[trigger] r[i] < b by {
            if i > 0 {
                assert(r[i] == values(put(m.drop_first(), k, v))[i - 1]);
            }
        }
    } else if m.len() > 0 && m[0].0 == k {
        assert(r =~= seq![v] + values(m).drop_first());
        assert forall|i: int| 0 <= i < r.len() implies #[trigger] r[i] < b by {
            if i > 0 {
                assert(r[i] == values(m)[i]);
            }
        }
    } else {
        assert(r =~= seq![v] + values(m));
        assert forall|i: int| 0 <= i < r.len() implies #[trigger] r[i] < b by {
            if i > 0 {
                assert(r[i] == values(m)[i - 1]);
            }
        }
    }
}

proof fn lemma_put_len<V>(m: Seq<(u32, V)>, k: u32, v: V)
    ensures
        put(m, k, v).len() <= m.len() + 1,
    decreases m.len(),
{
    if m.len() > 0 && m[0].0 < k {
        lemma_put_len(m.drop_first(), k, v);
    }
}

proof fn lemma_put_cells_below(m: Seq<(u32, u32)>, cells: Seq<u32>, u: u32, b: int)
    requires
        all_below(values(m), b),
        u < b,
    ensures
        all_below(values(put_cells(m, cells, u)), b),
    decreases cells.len(),
{
    if cells.len() > 0 {
        lemma_put_cells_below(m, cells.drop_last(), u, b);
        lemma_put_below(put_cells(m, cells.drop_last(), u), cells.last(), u, b);
    }
}

proof fn lemma_universe_map_below(us: Seq<UniverseView>, b: int)
    requires
        forall|i: int| 0 <= i < us.len() ==> #[trigger] us[i].number < b,
    ensures
        universe_map(us) matches Ok(m) ==> all_below(values(m), b),
    decreases us.len(),
{
    if us.len() > 0 {
        lemma_universe_map_below(us.drop_last(), b);
        if let Ok(m) = universe_map(us.drop_last()) {
            assert(us.last().number == us[us.len() - 1].number);
            lemma_put_cells_below(m, us.last().cells@, us.last().number, b);
        }
    } else {
        assert(values(Seq::<(u32, u32)>::empty()) =~= Seq::<u32>::empty());
    }
}

proof fn lemma_present_below(s: Seq<Option<u32>>, b: int)
    requires
        forall|j: int| 0 <= j < s.len() ==> (#[trigger] s[j] matches Some(u) ==> u < b),
    ensures
        all_below(present(s), b),
    decreases s.len(),
{
    if s.len() > 0 {
        lemma_present_below(s.drop_last(), b);
        assert(s.last() == s[s.len() - 1]);
    }
}

/// The universes of a matrix are below `b`.
pub open spec fn matrix_fits(m: FillMatrixView, b: int) -> bool {
    forall|j: int| 0 <= j < m.universes.len() ==> (#[trigger] m.universes[j] matches Some(u) ==> u < b)
}

/// Matrix universes of an association list all below `b`.
pub open spec fn matrices_below(mx: Seq<(u32, FillMatrixView)>, b: int) -> bool {
    forall|i: int| 0 <= i < mx.len() ==> #[trigger] matrix_fits(mx[i].1, b)
}

proof fn lemma_put_matrices_below(mx: Seq<(u32, FillMatrixView)>, k: u32, v: FillMatrixView, b: int)
    requires
        matrices_below(mx, b),
        matrix_fits(v, b),
    ensures
        matrices_below(put(mx, k, v), b),
    decreases mx.len(),
{
    let r = put(mx, k, v);
    if mx.len() > 0 && mx[0].0 < k {
        lemma_put_matrices_below(mx.drop_first(), k, v, b);
        assert(r =~= seq![mx[0]] + put(mx.drop_first(), k, v));
        assert forall|i: int| 0 <= i < r.len() implies #[trigger] matrix_fits(r[i].1, b) by {
            if i > 0 {
                assert(r[i] == put(mx.drop_first(), k, v)[i - 1]);
            }
        }
    } else if mx.len() > 0 && mx[0].0 == k {
        assert forall|i: int| 0 <= i < r.len() implies #[trigger] matrix_fits(r[i].1, b) by {
            if i > 0 {
                assert(r[i] == mx[i]);
            }
        }
    } else {
        assert forall|i: int| 0 <= i < r.len() implies #[trigger] matrix_fits(r[i].1, b) by {
            if i > 0 {
                assert(r[i] == mx[i - 1]);
            }
        }
    }
}

proof fn lemma_fill_maps_below(fs: Seq<FillView>, lats: Seq<(u32, u8)>, b: int)
    requires
        forall|i: int| 0 <= i < fs.len() ==> #[trigger] fill_fits(fs[i], b),
    ensures
        fill_maps(fs, lats) matches Ok(maps) ==> all_below(values(maps.0), b) && matrices_below(maps.1, b)
            && maps.1.len() <= fs.len(),
    decreases fs.len(),
{
    if fs.len() > 0 {
        lemma_fill_maps_below(fs.drop_last(), lats, b);
        assert(fs.last() == fs[fs.len() - 1]);
        assert(fill_fits(fs[fs.len() - 1], b));
        if let Ok(maps) = fill_maps(fs.drop_last(), lats) {
            match fs.last().target {
                FillTarget::Single(u) => {
                    lemma_put_below(maps.0, fs.last().cell, u, b);
                },
                FillTarget::Matrix(m) => {
                    lemma_put_matrices_below(maps.1, fs.last().cell, m@, b);
                    lemma_put_len(maps.1, fs.last().cell, m@);
                },
            }
        }
    } else {
        assert(values(Seq::<(u32, u32)>::empty()) =~= Seq::<u32>::empty());
    }
}

proof fn lemma_matrix_universes_below(mx: Seq<(u32, FillMatrixView)>, b: int)
    requires
        matrices_below(mx, b),
    ensures
        all_below(matrix_universes(mx), b),
    decreases mx.len(),
{
    if mx.len() > 0 {
        lemma_matrix_universes_below(mx.drop_last(), b);
        assert(mx.last() == mx[mx.len() - 1]);
        assert(matrix_fits(mx[mx.len() - 1].1, b));
        lemma_present_below(mx.last().1.universes, b);
    }
}

fn fold_max(top: u32, Ghost(base): Ghost<Seq<u32>>, s: &Vec<u32>) -> (r: u32)
    requires
        top == seq_max(base),
    ensures
        r == seq_max(base + s@),
{
    let mut t = top;
    let mut i: usize = 0;
    assert(base + s@.take(0) =~= base);
    while i < s.len()
        invariant
            i <= s.len(),
            t == seq_max(base + s@.take(i as int)),
        decreases s.len() - i,
    {
        assert((base + s@.take(i + 1)).drop_last() =~= base + s@.take(i as int));
        if s[i] > t {
            t = s[i];
        }
        i = i + 1;
    }
    assert(s@.take(s@.len() as int) =~= s@);
    t
}

fn values_exec(m: &Vec<(u32, u32)>) -> (r: Vec<u32>)
    ensures
        r@ == values(m@),
{
    let mut r: Vec<u32> = Vec::new();
    let mut i: usize = 0;
    while i < m.len()
        invariant
            i <= m.len(),
            r@ == values(m@.take(i as int)),
        decreases m.len() - i,
    {
        r.push(m[i].1);
        i = i + 1;
        assert(r@ =~= values(m@.take(i as int)));
    }
    assert(m@.take(m@.len() as int) =~= m@);
    r
}

fn matrix_universes_exec(mx: &Vec<(u32, FillMatrix)>) -> (r: Vec<u32>)
    ensures
        r@ == matrix_universes(mviews(mx@)),
{
    let ghost mv = mviews(mx@);
    let mut r: Vec<u32> = Vec::new();
    let mut i: usize = 0;
    assert(mv.take(0) =~= Seq::<(u32, FillMatrixView)>::empty());
    while i < mx.len()
        invariant
            i <= mx.len(),
            mv == mviews(mx@),
            r@ == matrix_universes(mv.take(i as int)),
        decreases mx.len() - i,
    {
        assert(mv.take(i + 1).drop_last() =~= mv.take(i as int));
        let u = &mx[i].1.universes;
        let ghost before = r@;
        let mut j: usize = 0;
        assert(u@.take(0) =~= Seq::<Option<u32>>::empty());
        assert(before + present(u@.take(0)) =~= before);
        while j < u.len()
            invariant
                j <= u.len(),
                r@ == before + present(u@.take(j as int)),
            decreases u.len() - j,
        {
            assert(u@.take(j + 1).drop_last() =~= u@.take(j as int));
            match u[j] {
                Some(x) => {
                    r.push(x);
                    assert(r@ =~= before + present(u@.take(j + 1)));
                },
                None => {},
            }
            j = j + 1;
        }
        assert(u@.take(u@.len() as int) =~= u@);
        assert(mv.take(i + 1).last().1.universes == u@);
        i = i + 1;
    }
    assert(mv.take(mx@.len() as int) =~= mv);
    r
}

pub(crate) fn cell_note(target: u32, action: &str, reason: Vec<char>) -> (r: DriftEntry)
    ensures
        r.scope == DriftScope::Cell,
        note_view(r) == (NoteView { target, action: action@, reason: reason@ }),
{
    let a = crate::text::chars_of(action);
    DriftEntry {
        scope: DriftScope::Cell,
        target,
        action: string_from_chars(a.as_slice()),
        reason: string_from_chars(reason.as_slice()),
    }
}

#[verifier::loop_isolation(false)]
fn lattice_entry_exec(mx: &Vec<(u32, FillMatrix)>, top: u32, k: usize) -> (r: Result<LatticePlan, Error>)
    requires
        k < mx.len(),
        top + 1 + k < 0x1_0000_0000,
    ensures
        match (r, lattice_entry(mviews(mx@), top, k as int)) {
            (Ok(a), Ok(b)) => a@ == b && a.note.scope == DriftScope::Cell,
            (Err(e), Err(f)) => e@ == f,
            _ => false,
        },
{
    let ghost mv = mviews(mx@);
    let cell = mx[k].0;
    let m = &mx[k].1;
    assert(mv[k as int].1 == m@ && mv[k as int].0 == cell);
    let mut j: usize = 0;
    while j < m.universes.len()
        invariant
            j <= m.universes.len(),
            forall|t: int| 0 <= t < j ==> m.universes@[t] is Some,
        decreases m.universes.len() - j,
    {
        if m.universes[j].is_none() {
            assert(mv[k as int].1.universes[j as int] is None);
            let mut t: Vec<char> = Vec::new();
            append_str(&mut t, "cell ");
            append_dec(&mut t, cell as u64);
            append_str(&mut t, " FILL matrix has a 0-hole (empty element) with no emitted spelling");
            return Err(Error::UniverseOutOfScope { detail: string_from_chars(t.as_slice()) });
        }
        j = j + 1;
    }
    let id: u32 = top + 1 + (k as u32);
    let c0: usize = #[verifier::truncate] (((m.max_index[0] as i64) - (m.min_index[0] as i64) + 1) as usize);
    let c1: usize = #[verifier::truncate] (((m.max_index[1] as i64) - (m.min_index[1] as i64) + 1) as usize);
    let c2: usize = #[verifier::truncate] (((m.max_index[2] as i64) - (m.min_index[2] as i64) + 1) as usize);
    let mut universes: Vec<u32> = Vec::new();
    let mut i: usize = 0;
    while i < m.universes.len()
        invariant
            i <= m.universes.len(),
            forall|t: int| 0 <= t < m.universes@.len() ==> m.universes@[t] is Some,
            universes@ == m.universes@.take(i as int).map_values(|o: Option<u32>| o->0),
        decreases m.universes.len() - i,
    {
        let u = match m.universes[i] {
            Some(u) => u,
            None => 0,
        };
        universes.push(u);
        i = i + 1;
        assert(universes@ =~= m.universes@.take(i as int).map_values(|o: Option<u32>| o->0));
    }
    assert(m.universes@.take(m.universes@.len() as int) =~= m.universes@);
    let mut reason: Vec<char> = Vec::new();
    append_str(&mut reason, "cell ");
    append_dec(&mut reason, cell as u64);
    append_str(&mut reason, " rectangular lattice emitted as lattice ");
    append_dec(&mut reason, id as u64);
    append_str(&mut reason, " (");
    append_dec(&mut reason, c0 as u64);
    append_str(&mut reason, "x");
    append_dec(&mut reason, c1 as u64);
    append_str(&mut reason, "x");
    append_dec(&mut reason, c2 as u64);
    append_str(&mut reason, " elements)");
    let note = cell_note(cell, "lattice-emitted", reason);
    let plan = LatticePlan {
        cell,
        id,
        min_index: m.min_index,
        max_index: m.max_index,
        counts: [c0, c1, c2],
        universes,
        note,
    };
    assert(plan@.counts =~= [axis_count(m@, 0), axis_count(m@, 1), axis_count(m@, 2)]);
    Ok(plan)
}

fn universe_notes_exec(m: &Vec<(u32, u32)>, notes: &mut Vec<DriftEntry>)
    ensures
        final(notes)@.map_values(|e: DriftEntry| note_view(e)) == old(notes)@.map_values(|e: DriftEntry| note_view(e))
            + universe_notes(m@),
        forall|i: int| 0 <= i < final(notes)@.len() ==> (#[trigger] final(notes)@[i]).scope == DriftScope::Cell
            || i < old(notes)@.len(),
        forall|i: int| 0 <= i < old(notes)@.len() ==> #[trigger] final(notes)@[i] == old(notes)@[i],
{
    let ghost start = notes@;
    let mut i: usize = 0;
    assert(m@.take(0) =~= Seq::<(u32, u32)>::empty());
    assert(notes@.map_values(|e: DriftEntry| note_view(e)) =~= start.map_values(|e: DriftEntry| note_view(e)) + universe_notes(m@.take(0)));
    while i < m.len()
        invariant
            i <= m.len(),
            notes@.len() >= start.len(),
            notes@.map_values(|e: DriftEntry| note_view(e)) == start.map_values(|e: DriftEntry| note_view(e))
                + universe_notes(m@.take(i as int)),
            forall|t: int| 0 <= t < notes@.len() ==> (#[trigger] notes@[t]).scope == DriftScope::Cell || t < start.len(),
            forall|t: int| 0 <= t < start.len() ==> #[trigger] notes@[t] == start[t],
        decreases m.len() - i,
    {
        assert(m@.take(i + 1).drop_last() =~= m@.take(i as int));
        let (cell, u) = m[i];
        if u != 0 {
            let mut reason: Vec<char> = Vec::new();
            append_str(&mut reason, "cell ");
            append_dec(&mut reason, cell as u64);
            append_str(&mut reason, " assigned to universe ");
            append_dec(&mut reason, u as u64);
            let note = cell_note(cell, "universe-assigned", reason);
            let ghost before = notes@.map_values(|e: DriftEntry| note_view(e));
            notes.push(note);
            assert(notes@.map_values(|e: DriftEntry| note_view(e)) =~= before.push(note_view(note)));
        }
        i = i + 1;
    }
    assert(m@.take(m@.len() as int) =~= m@);
}

fn fill_notes_exec(m: &Vec<(u32, u32)>, notes: &mut Vec<DriftEntry>)
    ensures
        final(notes)@.map_values(|e: DriftEntry| note_view(e)) == old(notes)@.map_values(|e: DriftEntry| note_view(e))
            + fill_notes(m@),
        forall|i: int| 0 <= i < final(notes)@.len() ==> (#[trigger] final(notes)@[i]).scope == DriftScope::Cell
            || i < old(notes)@.len(),
        forall|i: int| 0 <= i < old(notes)@.len() ==> #[trigger] final(notes)@[i] == old(notes)@[i],
{
    let ghost start = notes@;
    let mut i: usize = 0;
    assert(m@.take(0) =~= Seq::<(u32, u32)>::empty());
    assert(notes@.map_values(|e: DriftEntry| note_view(e)) =~= start.map_values(|e: DriftEntry| note_view(e)) + fill_notes(m@.take(0)));
    while i < m.len()
        invariant
            i <= m.len(),
            notes@.len() >= start.len(),
            notes@.map_values(|e: DriftEntry| note_view(e)) == start.map_values(|e: DriftEntry| note_view(e))
                + fill_notes(m@.take(i as int)),
            forall|t: int| 0 <= t < notes@.len() ==> (#[trigger] notes@[t]).scope == DriftScope::Cell || t < start.len(),
            forall|t: int| 0 <= t < start.len() ==> #[trigger] notes@[t] == start[t],
        decreases m.len() - i,
    {
        assert(m@.take(i + 1).drop_last() =~= m@.take(i as int));
        let (cell, u) = m[i];
        let mut reason: Vec<char> = Vec::new();
        append_str(&mut reason, "cell ");
        append_dec(&mut reason, cell as u64);
        append_str(&mut reason, " filled with universe ");
        append_dec(&mut reason, u as u64);
        let note = cell_note(cell, "fill-applied", reason);
        let ghost before = notes@.map_values(|e: DriftEntry| note_view(e));
        notes.push(note);
        assert(notes@.map_values(|e: DriftEntry| note_view(e)) =~= before.push(note_view(note)));
        i = i + 1;
    }
    assert(m@.take(m@.len() as int) =~= m@);
}

/// The resolved universes of a deck: cell universes and single-universe
/// fills (cell order), the lattice of each matrix-filled cell (cell order),
/// and the drift notes of the universe and fill assignments.
pub struct PlanView {
    pub universes: Seq<(u32, u32)>,
    pub fills: Seq<(u32, u32)>,
    pub lattices: Seq<Result<LatticePlanView, ErrorView>>,
    pub notes: Seq<NoteView>,
}

/// Universe resolution of a deck with lattice cards `lats`, universe cards
/// `us`, fill cards `fs` and cell numbers `cells`: the lattice types, then
/// the universe cards, then the fill cards are read in order (the first
/// refusal wins), then each lattice cell in cell order must be rectangular
/// with a matrix fill; lattice ids are allocated above the largest cell,
/// universe and filling-universe number, in cell order.
pub open spec fn universe_plan(
    lats: Seq<LatticeView>,
    us: Seq<UniverseView>,
    fs: Seq<FillView>,
    cells: Seq<u32>,
) -> Result<PlanView, ErrorView> {
    let lm = lattice_map(lats);
    match universe_map(us) {
        Err(e) => Err(e),
        Ok(um) => match fill_maps(fs, lm) {
            Err(e) => Err(e),
            Ok(maps) => match lattice_check(lm, maps.1, 0) {
                Err(e) => Err(e),
                Ok(_) => {
                    let top = seq_max(cells + values(um) + values(maps.0) + matrix_universes(maps.1));
                    Ok(PlanView {
                        universes: um,
                        fills: maps.0,
                        lattices: Seq::new(maps.1.len(), |k: int| lattice_entry(maps.1, top, k)),
                        notes: universe_notes(um) + fill_notes(maps.0),
                    })
                },
            },
        },
    }
}

/// What [`resolve_universes`] hands back.
#[derive(Debug)]
pub struct UniversePlan {
    /// Cell to containing universe, in cell order.
    pub universes: Vec<(u32, u32)>,
    /// Cell to single filling universe, in cell order.
    pub fills: Vec<(u32, u32)>,
    /// The lattice of each matrix-filled cell, in cell order, or the
    /// refusal of a matrix with a hole.
    pub lattices: Vec<Result<LatticePlan, Error>>,
    /// The universe-assignment and fill drift notes, in that order.
    pub notes: Vec<DriftEntry>,
}

pub open spec fn lattice_result_view(r: Result<LatticePlan, Error>) -> Result<LatticePlanView, ErrorView> {
    match r {
        Ok(p) => Ok(p@),
        Err(e) => Err(e@),
    }
}

impl View for UniversePlan {
    type V = PlanView;

    open spec fn view(&self) -> PlanView {
        PlanView {
            universes: self.universes@,
            fills: self.fills@,
            lattices: self.lattices@.map_values(|r: Result<LatticePlan, Error>| lattice_result_view(r)),
            notes: self.notes@.map_values(|e: DriftEntry| note_view(e)),
        }
    }
}

/// Resolve a deck's cell universes, single-universe fills and rectangular
/// lattices (see [`universe_plan`]).
pub fn resolve_universes(
    lattices: &Vec<LatticeView>,
    universes: &Vec<UniverseView>,
    fills: &Vec<FillView>,
    cells: &Vec<u32>,
) -> (r: Result<UniversePlan, Error>)
    requires
        numbers_fit(cells@, universes@, fills@),
    ensures
        match (r, universe_plan(lattices@, universes@, fills@, cells@)) {
            (Ok(a), Ok(b)) => {
                &&& a@ == b
                &&& forall|i: int| 0 <= i < a.notes@.len() ==> (#[trigger] a.notes@[i]).scope == DriftScope::Cell
                &&& forall|t: int| 0 <= t < a.lattices@.len() ==> (#[trigger] a.lattices@[t] matches Ok(p) ==> p.note.scope
                    == DriftScope::Cell)
            },
            (Err(e), Err(f)) => e@ == f,
            _ => false,
        },
{
    let lm = lattice_map_exec(lattices);
    let um = match universe_map_exec(universes) {
        Ok(m) => m,
        Err(e) => {
            return Err(e);
        },
    };
    let (fm, mx) = match fill_maps_exec(fills, &lm) {
        Ok(maps) => maps,
        Err(e) => {
            return Err(e);
        },
    };
    match lattice_check_exec(&lm, &mx) {
        Ok(()) => {},
        Err(e) => {
            return Err(e);
        },
    }
    let ghost mv = mviews(mx@);
    let ghost b = id_bound(fills@.len());
    proof {
        lemma_universe_map_below(universes@, b);
        lemma_fill_maps_below(fills@, lm@, b);
        lemma_matrix_universes_below(mv, b);
    }
    let uv = values_exec(&um);
    let fv = values_exec(&fm);
    let xv = matrix_universes_exec(&mx);
    assert(Seq::<u32>::empty() + cells@ =~= cells@);
    let t0 = fold_max(0, Ghost(Seq::empty()), cells);
    let t1 = fold_max(t0, Ghost(cells@), &uv);
    let t2 = fold_max(t1, Ghost(cells@ + values(um@)), &fv);
    let top = fold_max(t2, Ghost(cells@ + values(um@) + values(fm@)), &xv);
    proof {
        let all = cells@ + values(um@) + values(fm@) + matrix_universes(mv);
        assert forall|i: int| 0 <= i < all.len() implies #[trigger] all[i] < b by {
            if i < cells@.len() {
                assert(all[i] == cells@[i]);
            } else if i < cells@.len() + values(um@).len() {
                assert(all[i] == values(um@)[i - cells@.len()]);
            } else if i < cells@.len() + values(um@).len() + values(fm@).len() {
                assert(all[i] == values(fm@)[i - cells@.len() - values(um@).len()]);
            } else {
                assert(all[i] == matrix_universes(mv)[i - cells@.len() - values(um@).len() - values(fm@).len()]);
            }
        }
        lemma_max_below(all, b);
    }
    let mut plans: Vec<Result<LatticePlan, Error>> = Vec::new();
    let mut k: usize = 0;
    while k < mx.len()
        invariant
            k <= mx.len(),
            mx.len() <= fills.len(),
            fills.len() <= u32::MAX,
            top < id_bound(fills@.len()),
            mv == mviews(mx@),
            plans@.map_values(|r: Result<LatticePlan, Error>| lattice_result_view(r))
                == Seq::new(k as nat, |t: int| lattice_entry(mv, top, t)),
            forall|t: int| 0 <= t < plans@.len() ==> (#[trigger] plans@[t] matches Ok(p) ==> p.note.scope
                == DriftScope::Cell),
        decreases mx.len() - k,
    {
        let e = lattice_entry_exec(&mx, top, k);
        assert(lattice_result_view(e) == lattice_entry(mv, top, k as int));
        let ghost before = plans@.map_values(|r: Result<LatticePlan, Error>| lattice_result_view(r));
        let ghost ev = lattice_result_view(e);
        plans.push(e);
        assert(plans@.map_values(|r: Result<LatticePlan, Error>| lattice_result_view(r)) =~= before.push(ev));
        assert(plans@.map_values(|r: Result<LatticePlan, Error>| lattice_result_view(r)) =~= Seq::new(
            (k + 1) as nat,
            |t: int| lattice_entry(mv, top, t),
        ));
        k = k + 1;
    }
    let mut notes: Vec<DriftEntry> = Vec::new();
    assert(notes@.map_values(|e: DriftEntry| note_view(e)) =~= Seq::<NoteView>::empty());
    universe_notes_exec(&um, &mut notes);
    fill_notes_exec(&fm, &mut notes);
    proof {
        assert(Seq::<NoteView>::empty() + universe_notes(um@) =~= universe_notes(um@));
    }
    Ok(UniversePlan { universes: um, fills: fm, lattices: plans, notes })
}

/// Where element `p` of the emission order sits in the `k, j, i` order of
/// an `nx` by `ny` matrix: emission runs `z` ascending, `y` descending,
/// `x` ascending.
pub open spec fn source_index(nx: int, ny: int, p: int) -> int {
    let i = p % nx;
    let q = p / nx;
    let jr = q % ny;
    let k = q / ny;
    (k * ny + (ny - 1 - jr)) * nx + i
}

/// The element universes of an `nx` by `ny` by `nz` matrix in emission
/// order.
pub open spec fn emission_order(u: Seq<u32>, nx: int, ny: int, nz: int) -> Seq<u32> {
    Seq::new((nx * ny * nz) as nat, |p: int| u[source_index(nx, ny, p)])
}

proof fn lemma_emission_position(nx: int, ny: int, nz: int, k: int, jr: int, i: int)
    requires
        0 <= i < nx,
        0 <= jr < ny,
        0 <= k < nz,
    ensures
        source_index(nx, ny, (k * ny + jr) * nx + i) == (k * ny + (ny - 1 - jr)) * nx + i,
        0 <= (k * ny + jr) * nx + i < nx * ny * nz,
        0 <= (k * ny + (ny - 1 - jr)) * nx + i < nx * ny * nz,
{
    let p = (k * ny + jr) * nx + i;
    vstd::arithmetic::div_mod::lemma_fundamental_div_mod_converse(p, nx, k * ny + jr, i);
    vstd::arithmetic::div_mod::lemma_fundamental_div_mod_converse(k * ny + jr, ny, k, jr);
    assert(0 <= (k * ny + jr) * nx + i < nx * ny * nz) by (nonlinear_arith)
        requires
            0 <= i < nx,
            0 <= jr < ny,
            0 <= k < nz,
    {
        assert((k * ny + jr) * nx + i <= (k * ny + jr) * nx + nx - 1);
        assert((k * ny + jr) * nx + nx == (k * ny + jr + 1) * nx);
        assert(k * ny + jr + 1 <= k * ny + ny);
        assert(k * ny + ny == (k + 1) * ny);
        assert((k + 1) * ny <= nz * ny);
        assert((k * ny + jr + 1) * nx <= (nz * ny) * nx);
    }
    assert(0 <= (k * ny + (ny - 1 - jr)) * nx + i < nx * ny * nz) by (nonlinear_arith)
        requires
            0 <= i < nx,
            0 <= jr < ny,
            0 <= k < nz,
    {
        let j = ny - 1 - jr;
        assert(0 <= j < ny);
        assert((k * ny + j) * nx + i <= (k * ny + j) * nx + nx - 1);
        assert((k * ny + j) * nx + nx == (k * ny + j + 1) * nx);
        assert(k * ny + j + 1 <= k * ny + ny);
        assert(k * ny + ny == (k + 1) * ny);
        assert((k + 1) * ny <= nz * ny);
        assert((k * ny + j + 1) * nx <= (nz * ny) * nx);
    }
}

impl LatticePlan {
    /// The element universes in OpenMC and Serpent emission order: `z`
    /// ascending, `y` descending (rows top-down), `x` ascending.
    pub fn ordered(&self) -> (r: Vec<u32>)
        requires
            self.universes@.len() == self.counts[0] * self.counts[1] * self.counts[2],
        ensures
            r@ == emission_order(self.universes@, self.counts[0] as int, self.counts[1] as int, self.counts[2] as int),
    {
        let nx = self.counts[0];
        let ny = self.counts[1];
        let nz = self.counts[2];
        let ghost u = self.universes@;
        let ghost total = nx * ny * nz;
        let ghost target = emission_order(u, nx as int, ny as int, nz as int);
        let len = self.universes.len();
        assert(u.len() == len);
        let mut out: Vec<u32> = Vec::new();
        if nx == 0 || ny == 0 {
            assert(total == 0) by (nonlinear_arith)
                requires
                    nx == 0 || ny == 0,
                    total == nx * ny * nz,
            ;
            assert(out@ =~= target);
            return out;
        }
        let mut k: usize = 0;
        while k < nz
            invariant
                nx == self.counts[0],
                ny == self.counts[1],
                nz == self.counts[2],
                nx > 0,
                ny > 0,
                u == self.universes@,
                u.len() == nx * ny * nz,
                u.len() <= usize::MAX,
                target == emission_order(u, nx as int, ny as int, nz as int),
                k <= nz,
                out@ == target.take(k * ny * nx),
            decreases nz - k,
        {
            let mut jr: usize = 0;
            while jr < ny
                invariant
                    nx == self.counts[0],
                    ny == self.counts[1],
                    nz == self.counts[2],
                    nx > 0,
                    ny > 0,
                    u == self.universes@,
                    u.len() == nx * ny * nz,
                    u.len() <= usize::MAX,
                    target == emission_order(u, nx as int, ny as int, nz as int),
                    k < nz,
                    jr <= ny,
                    out@ == target.take((k * ny + jr) * nx),
                decreases ny - jr,
            {
                let j = ny - 1 - jr;
                let mut i: usize = 0;
                while i < nx
                    invariant
                        nx == self.counts[0],
                        ny == self.counts[1],
                        nz == self.counts[2],
                        nx > 0,
                        ny > 0,
                        u == self.universes@,
                        u.len() == nx * ny * nz,
                        u.len() <= usize::MAX,
                        target == emission_order(u, nx as int, ny as int, nz as int),
                        k < nz,
                        jr < ny,
                        j == ny - 1 - jr,
                        i <= nx,
                        out@ == target.take((k * ny + jr) * nx + i),
                    decreases nx - i,
                {
                    proof {
                        lemma_emission_position(nx as int, ny as int, nz as int, k as int, jr as int, i as int);
                    }
                    assert((k * ny + j) * nx + i < u.len());
                    assert(0 <= k * ny <= k * ny + j <= (k * ny + j) * nx) by (nonlinear_arith)
                        requires
                            nx >= 1,
                            k >= 0,
                            ny >= 1,
                            j >= 0,
                    ;
                    let idx = (k * ny + j) * nx + i;
                    let ghost p = (k * ny + jr) * nx + i;
                    out.push(self.universes[idx]);
                    assert(target[p] == u[idx as int]);
                    assert(out@ =~= target.take(p + 1));
                    i = i + 1;
                }
                assert((k * ny + jr) * nx + nx == (k * ny + jr + 1) * nx) by (nonlinear_arith);
                jr = jr + 1;
            }
            assert((k * ny + ny) * nx == (k + 1) * ny * nx) by (nonlinear_arith);
            k = k + 1;
        }
        assert(nz * ny * nx == nx * ny * nz) by (nonlinear_arith);
        assert(target.take((nz * ny * nx) as int) =~= target);
        out
    }
}

proof fn lemma_seq_max_ge(s: Seq<u32>, i: int)
    requires
        0 <= i < s.len(),
    ensures
        s[i] <= seq_max(s),
    decreases s.len(),
{
    if i < s.len() - 1 {
        lemma_seq_max_ge(s.drop_last(), i);
    }
}

/// Lattice ids live outside the cell and universe id spaces: every planned
/// lattice id exceeds every cell number and every universe that a cell
/// belongs to or is filled with, and no two lattices share an id.
pub proof fn lemma_lattice_ids_fresh(lats: Seq<LatticeView>, us: Seq<UniverseView>, fs: Seq<FillView>, cells: Seq<u32>)
    requires
        numbers_fit(cells, us, fs),
    ensures
        universe_plan(lats, us, fs, cells) matches Ok(p) ==> {
            &&& forall|k: int, i: int| 0 <= k < p.lattices.len() && 0 <= i < cells.len() && (#[trigger] p.lattices[k]) is Ok
                ==> #[trigger] cells[i] < p.lattices[k]->Ok_0.id
            &&& forall|k: int, j: int| 0 <= k < p.lattices.len() && 0 <= j < p.universes.len() && (#[trigger] p.lattices[k]) is Ok
                ==> #[trigger] p.universes[j].1 < p.lattices[k]->Ok_0.id
            &&& forall|k: int, j: int| 0 <= k < p.lattices.len() && 0 <= j < p.fills.len() && (#[trigger] p.lattices[k]) is Ok
                ==> #[trigger] p.fills[j].1 < p.lattices[k]->Ok_0.id
            &&& forall|k1: int, k2: int| 0 <= k1 < p.lattices.len() && 0 <= k2 < p.lattices.len() && k1 != k2
                && (#[trigger] p.lattices[k1]) is Ok && (#[trigger] p.lattices[k2]) is Ok
                ==> p.lattices[k1]->Ok_0.id != p.lattices[k2]->Ok_0.id
        },
{
    let lm = lattice_map(lats);
    match universe_map(us) {
        Err(_) => {},
        Ok(um) => match fill_maps(fs, lm) {
            Err(_) => {},
            Ok(maps) => match lattice_check(lm, maps.1, 0) {
                Err(_) => {},
                Ok(_) => {
                    let b = id_bound(fs.len());
                    lemma_universe_map_below(us, b);
                    lemma_fill_maps_below(fs, lm, b);
                    lemma_matrix_universes_below(maps.1, b);
                    let all = cells + values(um) + values(maps.0) + matrix_universes(maps.1);
                    assert forall|i: int| 0 <= i < all.len() implies #[trigger] all[i] < b by {
                        if i < cells.len() {
                            assert(all[i] == cells[i]);
                        } else if i < cells.len() + values(um).len() {
                            assert(all[i] == values(um)[i - cells.len()]);
                        } else if i < cells.len() + values(um).len() + values(maps.0).len() {
                            assert(all[i] == values(maps.0)[i - cells.len() - values(um).len()]);
                        } else {
                            assert(all[i] == matrix_universes(maps.1)[i - cells.len() - values(um).len() - values(maps.0).len()]);
                        }
                    }
                    lemma_max_below(all, b);
                    let top = seq_max(all);
                    let p = universe_plan(lats, us, fs, cells)->Ok_0;
                    assert(p.lattices.len() == maps.1.len());
                    assert forall|k: int| 0 <= k < p.lattices.len() && (#[trigger] p.lattices[k]) is Ok implies p.lattices[k]->Ok_0.id
                        == top + 1 + k by {
                        assert(p.lattices[k] == lattice_entry(maps.1, top, k));
                    }
                    assert forall|k: int, i: int| 0 <= k < p.lattices.len() && 0 <= i < cells.len() && (#[trigger] p.lattices[k]) is Ok
                        implies #[trigger] cells[i] < p.lattices[k]->Ok_0.id by {
                        assert(all[i] == cells[i]);
                        lemma_seq_max_ge(all, i);
                    }
                    assert forall|k: int, j: int| 0 <= k < p.lattices.len() && 0 <= j < p.universes.len() && (#[trigger] p.lattices[k]) is Ok
                        implies #[trigger] p.universes[j].1 < p.lattices[k]->Ok_0.id by {
                        assert(all[cells.len() + j] == values(um)[j]);
                        lemma_seq_max_ge(all, cells.len() + j);
                    }
                    assert forall|k: int, j: int| 0 <= k < p.lattices.len() && 0 <= j < p.fills.len() && (#[trigger] p.lattices[k]) is Ok
                        implies #[trigger] p.fills[j].1 < p.lattices[k]->Ok_0.id by {
                        assert(all[cells.len() + values(um).len() + j] == values(maps.0)[j]);
                        lemma_seq_max_ge(all, cells.len() + values(um).len() + j);
                    }
                },
            },
        },
    }
}

} // verus!
