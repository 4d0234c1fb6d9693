//! Sorting samples in the IEEE-754 total order.
use vstd::prelude::*;
use crate::sample_bits::{key_le, total_order_key};

verus! {

/// `s` is in ascending IEEE-754 total order.
pub open spec fn sorted_by_total_order(s: Seq<u64>) -> bool {
    forall|i: int, j: int| 0 <= i < j < s.len() ==> key_le(#[trigger] s[i], #[trigger] s[j])
}

/// The total order as a relation.
pub open spec fn total_order_leq() -> spec_fn(u64, u64) -> bool {
    |a: u64, b: u64| key_le(a, b)
}

/// `s` sorted in ascending IEEE-754 total order.
pub open spec fn total_order_sort(s: Seq<u64>) -> Seq<u64> {
    s.sort_by(total_order_leq())
}

/// `total_order_sort(s)` is sorted and has the elements of `s`.
pub proof fn lemma_total_order_sort(s: Seq<u64>)
    ensures
        sorted_by_total_order(total_order_sort(s)),
        total_order_sort(s).to_multiset() == s.to_multiset(),
        total_order_sort(s).len() == s.len(),
{
    broadcast use vstd::seq_lib::group_to_multiset_ensures;

    let leq = total_order_leq();
    assert forall|x: u64, y: u64| #[trigger] leq(x, y) && #[trigger] leq(y, x) implies x == y by {
        crate::sample_bits::lemma_total_key_injective(x, y);
    }
    assert(vstd::relations::total_ordering(leq));
    s.lemma_sort_by_ensures(leq);
    let t = total_order_sort(s);
    assert forall|i: int, j: int| 0 <= i < j < t.len() implies key_le(
        #[trigger] t[i],
        #[trigger] t[j],
    ) by {
        assert(leq(t[i], t[j]));
    }
    assert(t.to_multiset().len() == t.len());
    assert(s.to_multiset().len() == s.len());
}

/// Merges two sequences sorted in the total order into one.
fn merge(left: Vec<u64>, right: Vec<u64>) -> (merged: Vec<u64>)
    requires
        sorted_by_total_order(left@),
        sorted_by_total_order(right@),
    ensures
        sorted_by_total_order(merged@),
        merged@.to_multiset() == left@.to_multiset().add(right@.to_multiset()),
{
    broadcast use {vstd::seq_lib::group_to_multiset_ensures, vstd::multiset::group_multiset_axioms};

    let mut out: Vec<u64> = Vec::new();
    let mut i: usize = 0;
    let mut j: usize = 0;
    while i < left.len() || j < right.len()
        invariant
            i <= left.len(),
            j <= right.len(),
            sorted_by_total_order(left@),
            sorted_by_total_order(right@),
            sorted_by_total_order(out@),
            out@.to_multiset() == left@.take(i as int).to_multiset().add(
                right@.take(j as int).to_multiset(),
            ),
            out.len() > 0 && i < left.len() ==> key_le(out@.last(), left@[i as int]),
            out.len() > 0 && j < right.len() ==> key_le(out@.last(), right@[j as int]),
        decreases left.len() - i + right.len() - j,
    {
        let take_left: bool = if j >= right.len() {
            true
        } else if i >= left.len() {
            false
        } else {
            total_order_key(left[i]) <= total_order_key(right[j])
        };
        let x: u64 = if take_left {
            left[i]
        } else {
            right[j]
        };
        proof {
            let s = out@;
            assert forall|a: int, b: int| 0 <= a < b < s.push(x).len() implies key_le(
                #[trigger] s.push(x)[a],
                #[trigger] s.push(x)[b],
            ) by {
                if b == s.len() && a < s.len() - 1 {
                    assert(key_le(s[a], s[s.len() - 1]));
                }
            }
            let lt = left@.take(i as int);
            let rt = right@.take(j as int);
            vstd::seq_lib::to_multiset_build(s, x);
            vstd::seq_lib::to_multiset_build(lt, x);
            vstd::seq_lib::to_multiset_build(rt, x);
            if take_left {
                assert(left@.take(i + 1) =~= lt.push(x));
                assert(lt.push(x).to_multiset() == lt.to_multiset().insert(x));
                assert(s.push(x).to_multiset() =~= left@.take(i + 1).to_multiset().add(
                    rt.to_multiset(),
                ));
            } else {
                assert(right@.take(j + 1) =~= rt.push(x));
                assert(rt.push(x).to_multiset() == rt.to_multiset().insert(x));
                assert(s.push(x).to_multiset() =~= lt.to_multiset().add(
                    right@.take(j + 1).to_multiset(),
                ));
            }
        }
        out.push(x);
        if take_left {
            proof {
                if i + 1 < left.len() {
                    assert(key_le(left@[i as int], left@[i + 1]));
                }
            }
            i = i + 1;
        } else {
            proof {
                if j + 1 < right.len() {
                    assert(key_le(right@[j as int], right@[j + 1]));
                }
            }
            j = j + 1;
        }
    }
    proof {
        assert(left@.take(left.len() as int) =~= left@);
        assert(right@.take(right.len() as int) =~= right@);
    }
    out
}

/// The samples `samples[lo..hi]`, sorted in the total order.
fn sorted_range(samples: &[u64], lo: usize, hi: usize) -> (sorted: Vec<u64>)
    requires
        lo <= hi <= samples.len(),
    ensures
        sorted_by_total_order(sorted@),
        sorted@.to_multiset() == samples@.subrange(lo as int, hi as int).to_multiset(),
    decreases hi - lo,
{
    broadcast use vstd::seq_lib::group_to_multiset_ensures;

    if hi - lo <= 1 {
        let mut single: Vec<u64> = Vec::new();
        if hi > lo {
            single.push(samples[lo]);
        }
        proof {
            assert(single@ =~= samples@.subrange(lo as int, hi as int));
        }
        single
    } else {
        let mid: usize = lo + (hi - lo) / 2;
        let left = sorted_range(samples, lo, mid);
        let right = sorted_range(samples, mid, hi);
        proof {
            let whole = samples@.subrange(lo as int, hi as int);
            assert(whole =~= samples@.subrange(lo as int, mid as int) + samples@.subrange(
                mid as int,
                hi as int,
            ));
            vstd::seq_lib::lemma_multiset_commutative(
                samples@.subrange(lo as int, mid as int),
                samples@.subrange(mid as int, hi as int),
            );
        }
        merge(left, right)
    }
}

/// A copy of `samples` in ascending IEEE-754 total order (the order of
/// `f64::total_cmp`), by merge sort.
pub fn sorted_samples(samples: &[u64]) -> (sorted: Vec<u64>)
    ensures
        sorted@ == total_order_sort(samples@),
        sorted_by_total_order(sorted@),
        sorted@.to_multiset() == samples@.to_multiset(),
        sorted@.len() == samples@.len(),
{
    broadcast use vstd::seq_lib::group_to_multiset_ensures;

    let sorted = sorted_range(samples, 0, samples.len());
    proof {
        assert(samples@.subrange(0, samples@.len() as int) =~= samples@);
        assert(sorted@.to_multiset().len() == sorted@.len());
        assert(samples@.to_multiset().len() == samples@.len());
        lemma_total_order_sort(samples@);
        law_sorted_order_is_unique(sorted@, total_order_sort(samples@));
    }
    sorted
}

/// Sorting in the total order leaves no choice: two sorted sequences with
/// the same elements (counted with multiplicity) are equal, so a sorted
/// window, and every rank read from it, is determined by the window's
/// samples alone.
pub proof fn law_sorted_order_is_unique(a: Seq<u64>, b: Seq<u64>)
    requires
        sorted_by_total_order(a),
        sorted_by_total_order(b),
        a.to_multiset() == b.to_multiset(),
    ensures
        a == b,
    decreases a.len(),
{
    broadcast use vstd::seq_lib::group_to_multiset_ensures;

    assert(a.to_multiset().len() == a.len());
    assert(b.to_multiset().len() == b.len());
    if a.len() == 0 {
        assert(b.len() == 0);
        assert(a =~= b);
    } else {
        assert(b.len() == a.len());
        assert(a.contains(a[0]));
        assert(b.to_multiset().count(a[0]) > 0);
        let j: int = choose|j: int| 0 <= j < b.len() && b[j] == a[0];
        assert(b.contains(b[0]));
        assert(a.to_multiset().count(b[0]) > 0);
        let k: int = choose|k: int| 0 <= k < a.len() && a[k] == b[0];
        if j > 0 {
            assert(key_le(b[0], b[j]));
        }
        if k > 0 {
            assert(key_le(a[0], a[k]));
        }
        crate::sample_bits::lemma_total_key_injective(a[0], b[0]);
        assert(a[0] == b[0]);
        let ra = a.remove(0);
        let rb = b.remove(0);
        assert(ra.to_multiset() == a.to_multiset().remove(a[0]));
        assert(rb.to_multiset() == b.to_multiset().remove(b[0]));
        assert forall|x: int, y: int| 0 <= x < y < ra.len() implies key_le(
            #[trigger] ra[x],
            #[trigger] ra[y],
        ) by {
            assert(key_le(a[x + 1], a[y + 1]));
        }
        assert forall|x: int, y: int| 0 <= x < y < rb.len() implies key_le(
            #[trigger] rb[x],
            #[trigger] rb[y],
        ) by {
            assert(key_le(b[x + 1], b[y + 1]));
        }
        law_sorted_order_is_unique(ra, rb);
        assert(a =~= b) by {
            assert forall|i: int| 0 <= i < a.len() implies a[i] == b[i] by {
                if i > 0 {
                    assert(a[i] == ra[i - 1]);
                    assert(b[i] == rb[i - 1]);
                }
            }
        }
    }
}

} // verus!
