//! The PDG-code histogram of a particle list.

use vstd::prelude::*;

verus! {

/// Occurrences of `c` in `s`.
pub open spec fn count_in(s: Seq<i32>, c: i32) -> nat
    decreases s.len(),
{
    if s.len() == 0 {
        0
    } else {
        count_in(s.drop_last(), c) + if s.last() == c { 1nat } else { 0nat }
    }
}

/// `h` is the histogram of `s`: strictly increasing codes, each with its
/// number of occurrences in `s`, and every code of `s` listed.
pub open spec fn is_histogram(h: Seq<(i32, u64)>, s: Seq<i32>) -> bool {
    &&& forall|i: int, j: int| 0 <= i < j < h.len() ==> h[i].0 < h[j].0
    &&& forall|i: int| 0 <= i < h.len() ==> #[trigger] h[i].1 == count_in(s, h[i].0) && h[i].1 >= 1
    &&& forall|k: int| 0 <= k < s.len() ==> exists|i: int| 0 <= i < h.len() && h[i].0 == #[trigger] s[k]
}

proof fn lemma_count_positive(s: Seq<i32>, c: i32)
    requires
        count_in(s, c) > 0,
    ensures
        exists|k: int| 0 <= k < s.len() && s[k] == c,
    decreases s.len(),
{
    if s.last() != c {
        lemma_count_positive(s.drop_last(), c);
        let k = choose|k: int| 0 <= k < s.drop_last().len() && s.drop_last()[k] == c;
        assert(s[k] == c);
    } else {
        assert(s[s.len() - 1] == c);
    }
}

/// Record count per PDG code, sorted by code.
pub fn pdg_histogram(codes: &Vec<i32>) -> (r: Vec<(i32, u64)>)
    ensures
        is_histogram(r@, codes@),
{
    let mut h: Vec<(i32, u64)> = Vec::new();
    let mut k: usize = 0;
    assert(codes@.take(0) =~= Seq::<i32>::empty());
    while k < codes.len()
        invariant
            k <= codes.len(),
            is_histogram(h@, codes@.take(k as int)),
            forall|i: int| 0 <= i < h@.len() ==> h@[i].1 <= k,
        decreases codes.len() - k,
    {
        let p = codes[k];
        let ghost old_h = h@;
        let ghost s = codes@.take(k as int);
        let ghost s1 = codes@.take(k + 1);
        assert(s1.drop_last() =~= s);
        assert(s1.last() == p);
        let mut pos: usize = 0;
        while pos < h.len() && h[pos].0 < p
            invariant
                pos <= h@.len(),
                h@ == old_h,
                forall|j: int| 0 <= j < pos ==> h@[j].0 < p,
            decreases h.len() - pos,
        {
            pos = pos + 1;
        }
        if pos < h.len() && h[pos].0 == p {
            let (c, n) = h[pos];
            h.set(pos, (c, n + 1));
            proof {
                assert forall|i: int| 0 <= i < h@.len() implies #[trigger] h@[i].1 == count_in(s1, h@[i].0) && h@[i].1 >= 1 by {
                    assert(count_in(s1, h@[i].0) == count_in(s, h@[i].0) + if p == h@[i].0 { 1nat } else { 0nat });
                    if i != pos as int {
                        assert(h@[i] == old_h[i]);
                        assert(old_h[i].0 != old_h[pos as int].0);
                    }
                }
                assert forall|q: int| 0 <= q < s1.len() implies exists|i: int| 0 <= i < h@.len() && h@[i].0 == #[trigger] s1[q] by {
                    if q < s.len() {
                        assert(s1[q] == s[q]);
                        let i = choose|i: int| 0 <= i < old_h.len() && old_h[i].0 == s[q];
                        assert(h@[i].0 == old_h[i].0);
                    } else {
                        assert(h@[pos as int].0 == p);
                    }
                }
            }
        } else {
            proof {
                if count_in(s, p) > 0 {
                    lemma_count_positive(s, p);
                    let q = choose|q: int| 0 <= q < s.len() && s[q] == p;
                    let i = choose|i: int| 0 <= i < old_h.len() && old_h[i].0 == s[q];
                    if i < pos {
                        assert(old_h[i].0 < p);
                    } else if i > pos {
                        assert(old_h[pos as int].0 < old_h[i].0);
                        assert(old_h[pos as int].0 >= p);
                    }
                }
                assert(count_in(s, p) == 0);
            }
            h.insert(pos, (p, 1));
            proof {
                assert forall|i: int, j: int| 0 <= i < j < h@.len() implies h@[i].0 < h@[j].0 by {
                    if j < pos {
                        assert(h@[i] == old_h[i] && h@[j] == old_h[j]);
                    } else if j == pos {
                        assert(h@[i] == old_h[i]);
                    } else if i < pos {
                        assert(h@[i] == old_h[i] && h@[j] == old_h[j - 1]);
                        assert(old_h[i].0 < p);
                        if pos < old_h.len() {
                            assert(old_h[pos as int].0 >= p);
                            assert(old_h[pos as int].0 != p);
                            if j - 1 > pos {
                                assert(old_h[pos as int].0 < old_h[j - 1].0);
                            }
                        }
                    } else if i == pos {
                        assert(h@[j] == old_h[j - 1]);
                        assert(old_h[pos as int].0 >= p && old_h[pos as int].0 != p);
                        if j - 1 > pos {
                            assert(old_h[pos as int].0 < old_h[j - 1].0);
                        }
                    } else {
                        assert(h@[i] == old_h[i - 1] && h@[j] == old_h[j - 1]);
                    }
                }
                assert forall|i: int| 0 <= i < h@.len() implies #[trigger] h@[i].1 == count_in(s1, h@[i].0) && h@[i].1 >= 1 by {
                    assert(count_in(s1, h@[i].0) == count_in(s, h@[i].0) + if p == h@[i].0 { 1nat } else { 0nat });
                    if i < pos {
                        assert(h@[i] == old_h[i]);
                        assert(old_h[i].0 < p);
                    } else if i > pos {
                        assert(h@[i] == old_h[i - 1]);
                        assert(old_h[pos as int].0 >= p && old_h[pos as int].0 != p);
                        if i - 1 > pos {
                            assert(old_h[pos as int].0 < old_h[i - 1].0);
                        }
                    }
                }
                assert forall|q: int| 0 <= q < s1.len() implies exists|i: int| 0 <= i < h@.len() && h@[i].0 == #[trigger] s1[q] by {
                    if q < s.len() {
                        assert(s1[q] == s[q]);
                        let i = choose|i: int| 0 <= i < old_h.len() && old_h[i].0 == s[q];
                        if i < pos {
                            assert(h@[i].0 == old_h[i].0);
                        } else {
                            assert(h@[i + 1].0 == old_h[i].0);
                        }
                    } else {
                        assert(h@[pos as int].0 == p);
                    }
                }
            }
        }
        k = k + 1;
    }
    assert(codes@.take(codes@.len() as int) =~= codes@);
    h
}

} // verus!
