//! The order in which numbered cards are written: ascending by number,
//! cards of equal number in their deck order.

use vstd::prelude::*;

verus! {

/// Position `a` comes before position `b` when its number is smaller, or
/// equal with `a` earlier.
pub open spec fn before(ids: Seq<u32>, a: usize, b: usize) -> bool {
    ids[a as int] < ids[b as int] || (ids[a as int] == ids[b as int] && a < b)
}

/// `order` lists every position of `ids` once, ascending by number and,
/// among equal numbers, by position.
pub open spec fn ascending_order(ids: Seq<u32>, order: Seq<usize>) -> bool {
    &&& order.len() == ids.len()
    &&& forall|k: int| 0 <= k < order.len() ==> #[trigger] order[k] < ids.len()
    &&& forall|j: int, k: int| 0 <= j < k < order.len() ==> before(ids, #[trigger] order[j], #[trigger] order[k])
}

/// Where a position numbered `x` joins `order`: before the first listed
/// position, from `p` on, whose number is larger.
pub open spec fn slot(ids: Seq<u32>, order: Seq<usize>, x: u32, p: int) -> int
    decreases order.len() - p,
{
    if p < 0 || p >= order.len() || ids[order[p] as int] > x {
        p
    } else {
        slot(ids, order, x, p + 1)
    }
}

/// The first `n` positions of `ids` in writing order, each joining the
/// listing at its [`slot`].
pub open spec fn writing_order(ids: Seq<u32>, n: int) -> Seq<usize>
    decreases n,
{
    if n <= 0 {
        Seq::empty()
    } else {
        let o = writing_order(ids, n - 1);
        o.insert(slot(ids, o, ids[n - 1], 0), (n - 1) as usize)
    }
}

/// The positions of `ids` in writing order: every position once, ascending
/// by number, equal numbers in position order (see [`ascending_order`]).
pub fn ascending_positions(ids: &Vec<u32>) -> (r: Vec<usize>)
    ensures
        ascending_order(ids@, r@),
        r@ == writing_order(ids@, ids@.len() as int),
{
    let mut order: Vec<usize> = Vec::new();
    let mut i: usize = 0;
    while i < ids.len()
        invariant
            i <= ids.len(),
            order.len() == i,
            forall|k: int| 0 <= k < order.len() ==> #[trigger] order@[k] < i,
            forall|j: int, k: int| 0 <= j < k < order.len() ==> before(ids@, #[trigger] order@[j], #[trigger] order@[k]),
            order@ == writing_order(ids@, i as int),
        decreases ids.len() - i,
    {
        let x = ids[i];
        let mut p: usize = 0;
        while p < order.len() && ids[order[p]] <= x
            invariant
                p <= order.len(),
                i < ids.len(),
                x == ids@[i as int],
                forall|k: int| 0 <= k < order.len() ==> #[trigger] order@[k] < i,
                forall|k: int| 0 <= k < p ==> ids@[#[trigger] order@[k] as int] <= x,
                slot(ids@, order@, x, 0) == slot(ids@, order@, x, p as int),
            decreases order.len() - p,
        {
            p = p + 1;
        }
        let ghost old_order = order@;
        assert(slot(ids@, old_order, x, 0) == p);
        order.insert(p, i);
        proof {
            assert(order@ == old_order.insert(p as int, i));
            assert forall|k: int| 0 <= k < order.len() implies #[trigger] order@[k] < i + 1 by {
                if k < p {
                    assert(order@[k] == old_order[k]);
                } else if k > p {
                    assert(order@[k] == old_order[k - 1]);
                }
            }
            assert forall|j: int, k: int| 0 <= j < k < order.len() implies before(ids@, #[trigger] order@[j], #[trigger] order@[k]) by {
                if k < p {
                    assert(order@[j] == old_order[j] && order@[k] == old_order[k]);
                } else if k == p {
                    assert(order@[j] == old_order[j]);
                    assert(ids@[old_order[j] as int] <= x);
                } else if j == p {
                    assert(order@[k] == old_order[k - 1]);
                    if k - 1 == p as int {
                        assert(p < old_order.len());
                    } else {
                        assert(before(ids@, old_order[p as int], old_order[k - 1]));
                    }
                    assert(ids@[old_order[p as int] as int] > x);
                } else if j < p {
                    assert(order@[j] == old_order[j] && order@[k] == old_order[k - 1]);
                } else {
                    assert(order@[j] == old_order[j - 1] && order@[k] == old_order[k - 1]);
                }
            }
        }
        i = i + 1;
    }
    order
}

} // verus!
