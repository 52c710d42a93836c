//! A total order on regions and a verified sort for it.
//!
//! Both merge passes sort by the vertical span `(y_start, y_end)`;
//! within one vertical span the order of the horizontal fields is the
//! tie-break, which makes the order total and the sorted sequence
//! unique.

use vstd::prelude::*;

use crate::region::Region;
use vstd::relations::sorted_by;
use vstd::relations::total_ordering;
use vstd::seq_lib::lemma_sorted_unique;

verus! {

/// The two regions cover the same vertical span.
pub open spec fn key_eq(a: Region, b: Region) -> bool {
    a.y_start == b.y_start && a.y_end == b.y_end
}

/// `a`'s vertical span sorts no later than `b`'s.
pub open spec fn key_le(a: Region, b: Region) -> bool {
    ||| a.y_start < b.y_start
    ||| (a.y_start == b.y_start && a.y_end <= b.y_end)
}

/// `a`'s vertical span sorts strictly before `b`'s.
pub open spec fn key_lt(a: Region, b: Region) -> bool {
    key_le(a, b) && !key_eq(a, b)
}

/// The total order used for sorting: by vertical span, then by
/// `x_start`, then by `x_end`.
pub open spec fn region_le(a: Region, b: Region) -> bool {
    if !key_eq(a, b) {
        key_le(a, b)
    } else {
        ||| a.x_start < b.x_start
        ||| (a.x_start == b.x_start && a.x_end <= b.x_end)
    }
}

/// `region_le` as a relation value, for vstd's ordering lemmas.
pub open spec fn region_order() -> spec_fn(Region, Region) -> bool {
    |a: Region, b: Region| region_le(a, b)
}

/// `region_order` is a total ordering.
pub proof fn lemma_region_order_total()
    ensures
        total_ordering(region_order()),
{
    let f = region_order();
    assert forall|a: Region, b: Region| #[trigger] f(a, b) && #[trigger] f(b, a) implies a == b by {
        assert(region_le(a, b) && region_le(b, a));
    }
    assert forall|a: Region, b: Region, c: Region|
        #[trigger] f(a, b) && #[trigger] f(b, c) implies f(a, c) by {
        assert(region_le(a, b) && region_le(b, c));
        assert(region_le(a, c));
    }
    assert forall|a: Region, b: Region| #[trigger] f(a, b) || #[trigger] f(b, a) by {
        assert(region_le(a, b) || region_le(b, a));
    }
}

/// Compares two regions in the `region_le` order.
fn region_le_exec(a: &Region, b: &Region) -> (r: bool)
    ensures
        r == region_le(*a, *b),
{
    if a.y_start != b.y_start || a.y_end != b.y_end {
        a.y_start < b.y_start || (a.y_start == b.y_start && a.y_end <= b.y_end)
    } else {
        a.x_start < b.x_start || (a.x_start == b.x_start && a.x_end <= b.x_end)
    }
}

/// The position in `out` before which `r` belongs: the first index whose
/// element does not sort at or before `r`.
fn insertion_point(out: &Vec<Region>, r: &Region) -> (k: usize)
    ensures
        k <= out@.len(),
        forall|j: int| 0 <= j < k ==> region_le(#[trigger] out@[j], *r),
        k < out@.len() ==> !region_le(out@[k as int], *r),
{
    let mut k: usize = 0;
    while k < out.len()
        invariant
            k <= out@.len(),
            forall|j: int| 0 <= j < k ==> region_le(#[trigger] out@[j], *r),
        decreases out@.len() - k,
    {
        if !region_le_exec(&out[k], r) {
            return k;
        }
        k = k + 1;
    }
    k
}

/// Sorts the regions into the unique `region_le`-sorted order.
pub fn sort_regions_by_position(regions: &mut Vec<Region>)
    ensures
        final(regions)@ == old(regions)@.sort_by(region_order()),
{
    broadcast use vstd::seq_lib::group_to_multiset_ensures;

    let mut out: Vec<Region> = Vec::new();
    let mut i: usize = 0;
    while i < regions.len()
        invariant
            i <= regions@.len(),
            regions@ == old(regions)@,
            sorted_by(out@, region_order()),
            out@.to_multiset() == regions@.take(i as int).to_multiset(),
        decreases regions@.len() - i,
    {
        let r: Region = regions[i];
        let k: usize = insertion_point(&out, &r);
        let ghost prev = out@;
        out.insert(k, r);
        proof {
            let f = region_order();
            assert(out@ == prev.insert(k as int, r));
            prev.insert_ensures(k as int, r);
            assert forall|a: int, b: int| 0 <= a < b < out@.len() implies #[trigger] f(
                out@[a],
                out@[b],
            ) by {
                if b < k {
                    assert(f(prev[a], prev[b]));
                } else if b == k {
                    assert(region_le(prev[a], r));
                } else if a > k {
                    assert(f(prev[a - 1], prev[b - 1]));
                } else if a == k {
                    assert(!region_le(prev[k as int], r));
                    assert(region_le(r, prev[k as int]));
                    assert(f(prev[k as int], prev[b - 1]) || k as int == b - 1);
                    assert(region_le(r, prev[b - 1]));
                } else {
                    assert(f(prev[a], prev[b - 1]));
                }
            }
            assert(regions@.take(i + 1) =~= regions@.take(i as int).push(r));
            vstd::seq_lib::to_multiset_insert(prev, k as int, r);
            vstd::seq_lib::to_multiset_build(regions@.take(i as int), r);
            assert(out@.to_multiset() == regions@.take(i + 1).to_multiset());
        }
        i = i + 1;
    }
    proof {
        assert(regions@.take(regions@.len() as int) =~= regions@);
        lemma_region_order_total();
        old(regions)@.lemma_sort_by_ensures(region_order());
        lemma_sorted_unique(out@, old(regions)@.sort_by(region_order()), region_order());
        assert(out@ =~= old(regions)@.sort_by(region_order()));
    }
    *regions = out;
}

} // verus!
