//! The drift report of a geometry translation: which accepted translation
//! steps were not lossless, per cell, surface or deck.

use vstd::prelude::*;

verus! {

/// What a [`DriftEntry`] reports on.
#[derive(Debug, Clone, Copy, PartialEq, Eq, Structural)]
pub enum DriftScope {
    /// One cell (`target` is the cell number).
    Cell,
    /// One surface (`target` is the surface number).
    Surface,
    /// The deck as a whole (`target` is 0).
    Deck,
}

impl DriftScope {
    /// The scope's name (`cell`, `surface`, `deck`).
    pub fn as_str(self) -> (r: &'static str)
        ensures
            r@ == match self {
                DriftScope::Cell => "cell"@,
                DriftScope::Surface => "surface"@,
                DriftScope::Deck => "deck"@,
            },
    {
        match self {
            DriftScope::Cell => "cell",
            DriftScope::Surface => "surface",
            DriftScope::Deck => "deck",
        }
    }
}

/// One non-lossless but accepted translation step.
#[derive(Debug, Clone, PartialEq, Eq)]
pub struct DriftEntry {
    /// Which object the entry reports on.
    pub scope: DriftScope,
    /// Cell/surface number (`0` for deck scope).
    pub target: u32,
    /// Machine-readable action (`"macrobody-expansion"`, ...).
    pub action: String,
    /// Human-readable reason.
    pub reason: String,
}

/// Per-cell/per-surface drift report for one translation.
#[derive(Debug, Clone, PartialEq, Eq)]
pub struct DriftTable {
    /// Drift entries in translation order (surfaces, then cells, then deck).
    pub entries: Vec<DriftEntry>,
}

/// The entries of `s` with scope `scope`, in order.
pub open spec fn of_scope(s: Seq<DriftEntry>, scope: DriftScope) -> Seq<DriftEntry>
    decreases s.len(),
{
    if s.len() == 0 {
        s
    } else if s.last().scope == scope {
        of_scope(s.drop_last(), scope).push(s.last())
    } else {
        of_scope(s.drop_last(), scope)
    }
}

impl Default for DriftTable {
    fn default() -> (r: DriftTable)
        ensures
            r.entries@.len() == 0,
    {
        DriftTable { entries: Vec::new() }
    }
}

impl DriftTable {
    /// Number of drift entries.
    pub fn len(&self) -> (r: usize)
        ensures
            r == self.entries@.len(),
    {
        self.entries.len()
    }

    /// True when the translation was fully lossless.
    pub fn is_empty(&self) -> (r: bool)
        ensures
            r == (self.entries@.len() == 0),
    {
        self.entries.len() == 0
    }

    /// Entries for one scope, in order.
    pub fn for_scope(&self, scope: DriftScope) -> (r: Vec<&DriftEntry>)
        ensures
            r@.map_values(|e: &DriftEntry| *e) == of_scope(self.entries@, scope),
    {
        let mut r: Vec<&DriftEntry> = Vec::new();
        let mut i: usize = 0;
        assert(self.entries@.take(0) =~= Seq::<DriftEntry>::empty());
        while i < self.entries.len()
            invariant
                i <= self.entries.len(),
                r@.map_values(|e: &DriftEntry| *e) == of_scope(self.entries@.take(i as int), scope),
            decreases self.entries.len() - i,
        {
            let e = &self.entries[i];
            let ghost before = r@.map_values(|e: &DriftEntry| *e);
            assert(self.entries@.take(i + 1).drop_last() =~= self.entries@.take(i as int));
            if e.scope == scope {
                r.push(e);
                assert(r@.map_values(|e: &DriftEntry| *e) =~= before.push(*e));
            }
            i = i + 1;
        }
        assert(self.entries@.take(self.entries@.len() as int) =~= self.entries@);
        r
    }
}

} // verus!
