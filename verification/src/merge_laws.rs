//! Proved properties of the merge passes: both passes keep regions
//! inside the image, and the same-row merge is idempotent.

use vstd::prelude::*;

use crate::merge::merge_spanning;
use crate::merge::same_row_fold;
use crate::merge::same_row_merge_spec;
use crate::merge::vertical_fold;
use crate::merge::vertical_merge_spec;
use crate::ordering::key_eq;
use crate::ordering::key_le;
use crate::ordering::key_lt;
use crate::ordering::lemma_region_order_total;
use crate::ordering::region_le;
use crate::ordering::region_order;
use crate::region::Region;
use crate::region::region_wf;
use vstd::relations::sorted_by;
use vstd::seq_lib::lemma_sorted_unique;

verus! {

proof fn lemma_same_row_fold_wf(s: Seq<Region>, i: int, cur: Region, acc: Seq<Region>, w: int, h: int)
    requires
        0 <= i <= s.len(),
        region_wf(cur, w, h),
        forall|t: int| i <= t < s.len() ==> region_wf(#[trigger] s[t], w, h),
        forall|t: int| 0 <= t < acc.len() ==> region_wf(#[trigger] acc[t], w, h),
    ensures
        forall|t: int|
            0 <= t < same_row_fold(s, i, cur, acc).len() ==> region_wf(
                #[trigger] same_row_fold(s, i, cur, acc)[t],
                w,
                h,
            ),
    decreases s.len() - i,
{
    if i >= s.len() {
        assert(same_row_fold(s, i, cur, acc) == acc.push(cur));
        assert forall|t: int| 0 <= t < acc.push(cur).len() implies region_wf(
            #[trigger] acc.push(cur)[t],
            w,
            h,
        ) by {
            if t < acc.len() {
                assert(region_wf(acc[t], w, h));
            }
        }
    } else if key_eq(s[i], cur) {
        assert(region_wf(s[i], w, h));
        assert(region_wf(merge_spanning(cur, s[i]), w, h));
        lemma_same_row_fold_wf(s, i + 1, merge_spanning(cur, s[i]), acc, w, h);
        assert(same_row_fold(s, i, cur, acc) == same_row_fold(
            s,
            i + 1,
            merge_spanning(cur, s[i]),
            acc,
        ));
    } else {
        assert forall|t: int| 0 <= t < acc.push(cur).len() implies region_wf(
            #[trigger] acc.push(cur)[t],
            w,
            h,
        ) by {
            if t < acc.len() {
                assert(region_wf(acc[t], w, h));
            }
        }
        lemma_same_row_fold_wf(s, i + 1, s[i], acc.push(cur), w, h);
        assert(same_row_fold(s, i, cur, acc) == same_row_fold(s, i + 1, s[i], acc.push(cur)));
    }
}

proof fn lemma_vertical_fold_wf(s: Seq<Region>, i: int, cur: Region, acc: Seq<Region>, w: int, h: int)
    requires
        0 <= i <= s.len(),
        region_wf(cur, w, h),
        forall|t: int| i <= t < s.len() ==> region_wf(#[trigger] s[t], w, h),
        forall|t: int| 0 <= t < acc.len() ==> region_wf(#[trigger] acc[t], w, h),
    ensures
        forall|t: int|
            0 <= t < vertical_fold(s, i, cur, acc).len() ==> region_wf(
                #[trigger] vertical_fold(s, i, cur, acc)[t],
                w,
                h,
            ),
    decreases s.len() - i,
{
    if i >= s.len() {
        assert(vertical_fold(s, i, cur, acc) == acc.push(cur));
        assert forall|t: int| 0 <= t < acc.push(cur).len() implies region_wf(
            #[trigger] acc.push(cur)[t],
            w,
            h,
        ) by {
            if t < acc.len() {
                assert(region_wf(acc[t], w, h));
            }
        }
    } else if s[i].y_start == cur.y_end {
        assert(region_wf(s[i], w, h));
        assert(region_wf(crate::merge::merge_stacked(cur, s[i]), w, h));
        lemma_vertical_fold_wf(s, i + 1, crate::merge::merge_stacked(cur, s[i]), acc, w, h);
        assert(vertical_fold(s, i, cur, acc) == vertical_fold(
            s,
            i + 1,
            crate::merge::merge_stacked(cur, s[i]),
            acc,
        ));
    } else {
        assert forall|t: int| 0 <= t < acc.push(cur).len() implies region_wf(
            #[trigger] acc.push(cur)[t],
            w,
            h,
        ) by {
            if t < acc.len() {
                assert(region_wf(acc[t], w, h));
            }
        }
        lemma_vertical_fold_wf(s, i + 1, s[i], acc.push(cur), w, h);
        assert(vertical_fold(s, i, cur, acc) == vertical_fold(s, i + 1, s[i], acc.push(cur)));
    }
}

/// Every region in the input of a sort is well-formed exactly when every
/// region of the sorted sequence is.
proof fn lemma_sorted_elements_wf(s: Seq<Region>, w: int, h: int)
    requires
        forall|t: int| 0 <= t < s.len() ==> region_wf(#[trigger] s[t], w, h),
    ensures
        forall|t: int|
            0 <= t < s.sort_by(region_order()).len() ==> region_wf(
                #[trigger] s.sort_by(region_order())[t],
                w,
                h,
            ),
{
    lemma_region_order_total();
    s.lemma_sort_by_ensures(region_order());
    let srt = s.sort_by(region_order());
    assert forall|t: int| 0 <= t < srt.len() implies region_wf(#[trigger] srt[t], w, h) by {
        assert(srt.contains(srt[t]));
        assert(s.contains(srt[t]));
        let idx = choose|idx: int| 0 <= idx < s.len() && s[idx] == srt[t];
        assert(region_wf(s[idx], w, h));
    }
}

/// The same-row merge keeps every region inside the image: if all input
/// regions are well-formed for the image's dimensions, so is every
/// merged region.
pub proof fn lemma_same_row_merge_preserves_wf(s: Seq<Region>, w: int, h: int)
    requires
        forall|t: int| 0 <= t < s.len() ==> region_wf(#[trigger] s[t], w, h),
    ensures
        forall|t: int|
            0 <= t < same_row_merge_spec(s).len() ==> region_wf(
                #[trigger] same_row_merge_spec(s)[t],
                w,
                h,
            ),
{
    lemma_sorted_elements_wf(s, w, h);
    let srt = s.sort_by(region_order());
    if srt.len() > 0 {
        lemma_same_row_fold_wf(srt, 1, srt[0], Seq::empty(), w, h);
    }
}

/// The vertical-adjacency merge keeps every region inside the image.
pub proof fn lemma_vertical_merge_preserves_wf(s: Seq<Region>, w: int, h: int)
    requires
        forall|t: int| 0 <= t < s.len() ==> region_wf(#[trigger] s[t], w, h),
    ensures
        forall|t: int|
            0 <= t < vertical_merge_spec(s).len() ==> region_wf(
                #[trigger] vertical_merge_spec(s)[t],
                w,
                h,
            ),
{
    lemma_sorted_elements_wf(s, w, h);
    let srt = s.sort_by(region_order());
    if srt.len() > 0 {
        lemma_vertical_fold_wf(srt, 1, srt[0], Seq::empty(), w, h);
    }
}

proof fn lemma_same_row_fold_len(s: Seq<Region>, i: int, cur: Region, acc: Seq<Region>)
    ensures
        same_row_fold(s, i, cur, acc).len() > acc.len(),
    decreases s.len() - i,
{
    if i >= s.len() {
    } else if key_eq(s[i], cur) {
        lemma_same_row_fold_len(s, i + 1, merge_spanning(cur, s[i]), acc);
    } else {
        lemma_same_row_fold_len(s, i + 1, s[i], acc.push(cur));
    }
}

proof fn lemma_vertical_fold_len(s: Seq<Region>, i: int, cur: Region, acc: Seq<Region>)
    ensures
        vertical_fold(s, i, cur, acc).len() > acc.len(),
    decreases s.len() - i,
{
    if i >= s.len() {
    } else if s[i].y_start == cur.y_end {
        lemma_vertical_fold_len(s, i + 1, crate::merge::merge_stacked(cur, s[i]), acc);
    } else {
        lemma_vertical_fold_len(s, i + 1, s[i], acc.push(cur));
    }
}

/// Neither merge pass can lose every region: a non-empty candidate list
/// merges to a non-empty region list.
pub proof fn lemma_merges_keep_some_region(s: Seq<Region>)
    requires
        s.len() >= 1,
    ensures
        same_row_merge_spec(s).len() >= 1,
        vertical_merge_spec(s).len() >= 1,
{
    broadcast use vstd::seq_lib::group_to_multiset_ensures;

    lemma_region_order_total();
    s.lemma_sort_by_ensures(region_order());
    let t = s.sort_by(region_order());
    assert(t.to_multiset().len() == s.to_multiset().len());
    assert(t.len() == s.len());
    lemma_same_row_fold_len(t, 1, t[0], Seq::empty());
    lemma_vertical_fold_len(t, 1, t[0], Seq::empty());
}

/// Both merge passes leave an empty candidate list empty.
pub proof fn lemma_merge_specs_of_empty()
    ensures
        same_row_merge_spec(Seq::<Region>::empty()) == Seq::<Region>::empty(),
        vertical_merge_spec(Seq::<Region>::empty()) == Seq::<Region>::empty(),
{
    broadcast use vstd::seq_lib::group_to_multiset_ensures;

    lemma_region_order_total();
    let e = Seq::<Region>::empty();
    e.lemma_sort_by_ensures(region_order());
    assert(e.sort_by(region_order()).to_multiset() =~= e.to_multiset());
    assert(e.to_multiset().len() == 0);
    assert(e.sort_by(region_order()).to_multiset().len() == 0);
    assert(e.sort_by(region_order()).len() == 0);
}

proof fn lemma_same_row_fold_strict(s: Seq<Region>, i: int, cur: Region, acc: Seq<Region>)
    requires
        0 <= i <= s.len(),
        forall|a: int, b: int| i <= a < b < s.len() ==> key_le(#[trigger] s[a], #[trigger] s[b]),
        forall|t: int| i <= t < s.len() ==> key_le(cur, #[trigger] s[t]),
        forall|a: int, b: int|
            0 <= a < b < acc.len() ==> key_lt(#[trigger] acc[a], #[trigger] acc[b]),
        forall|t: int| 0 <= t < acc.len() ==> key_lt(#[trigger] acc[t], cur),
    ensures
        forall|a: int, b: int|
            0 <= a < b < same_row_fold(s, i, cur, acc).len() ==> key_lt(
                #[trigger] same_row_fold(s, i, cur, acc)[a],
                #[trigger] same_row_fold(s, i, cur, acc)[b],
            ),
        same_row_fold(s, i, cur, acc).len() >= acc.len() + 1,
    decreases s.len() - i,
{
    if i >= s.len() {
    } else if key_eq(s[i], cur) {
        let cur2 = merge_spanning(cur, s[i]);
        assert forall|t: int| i + 1 <= t < s.len() implies key_le(cur2, #[trigger] s[t]) by {
            assert(key_le(cur, s[t]));
        }
        assert forall|t: int| 0 <= t < acc.len() implies key_lt(#[trigger] acc[t], cur2) by {
            assert(key_lt(acc[t], cur));
        }
        lemma_same_row_fold_strict(s, i + 1, cur2, acc);
    } else {
        let acc2 = acc.push(cur);
        assert(key_lt(cur, s[i]));
        assert forall|a: int, b: int| 0 <= a < b < acc2.len() implies key_lt(
            #[trigger] acc2[a],
            #[trigger] acc2[b],
        ) by {
            if b < acc.len() {
                assert(key_lt(acc[a], acc[b]));
            } else {
                assert(acc2[b] == cur);
                if a < acc.len() {
                    assert(key_lt(acc[a], cur));
                }
            }
        }
        assert forall|t: int| 0 <= t < acc2.len() implies key_lt(#[trigger] acc2[t], s[i]) by {
            if t < acc.len() {
                assert(key_lt(acc[t], cur));
            }
            assert(key_lt(cur, s[i]));
        }
        lemma_same_row_fold_strict(s, i + 1, s[i], acc2);
    }
}

proof fn lemma_same_row_fold_identity(s: Seq<Region>, i: int, cur: Region, acc: Seq<Region>)
    requires
        0 <= i <= s.len(),
        i < s.len() ==> key_lt(cur, s[i]),
        forall|a: int, b: int| i <= a < b < s.len() ==> key_lt(#[trigger] s[a], #[trigger] s[b]),
    ensures
        same_row_fold(s, i, cur, acc) == acc.push(cur) + s.subrange(i, s.len() as int),
    decreases s.len() - i,
{
    if i >= s.len() {
        assert(acc.push(cur) + s.subrange(i, s.len() as int) =~= acc.push(cur));
    } else {
        assert(!key_eq(s[i], cur));
        lemma_same_row_fold_identity(s, i + 1, s[i], acc.push(cur));
        assert(acc.push(cur).push(s[i]) + s.subrange(i + 1, s.len() as int) =~= acc.push(cur)
            + s.subrange(i, s.len() as int));
    }
}

/// A sequence that is already sorted is its own sorted permutation.
proof fn lemma_sort_of_sorted(s: Seq<Region>)
    requires
        sorted_by(s, region_order()),
    ensures
        s.sort_by(region_order()) == s,
{
    lemma_region_order_total();
    s.lemma_sort_by_ensures(region_order());
    lemma_sorted_unique(s, s.sort_by(region_order()), region_order());
}

/// The same-row merge is idempotent: applying it to its own output
/// changes nothing, since the output has exactly one region per
/// distinct vertical span, already in order.
pub proof fn lemma_same_row_merge_idempotent(s: Seq<Region>)
    ensures
        same_row_merge_spec(same_row_merge_spec(s)) == same_row_merge_spec(s),
{
    lemma_region_order_total();
    s.lemma_sort_by_ensures(region_order());
    let t = s.sort_by(region_order());
    let m = same_row_merge_spec(s);
    if t.len() == 0 {
        assert(m =~= Seq::<Region>::empty());
        assert(sorted_by(m, region_order()));
        lemma_sort_of_sorted(m);
    } else {
        let f = region_order();
        assert forall|a: int, b: int| 0 <= a < b < t.len() implies key_le(
            #[trigger] t[a],
            #[trigger] t[b],
        ) by {
            assert(f(t[a], t[b]));
            assert(region_le(t[a], t[b]));
        }
        assert forall|u: int| 1 <= u < t.len() implies key_le(t[0], #[trigger] t[u]) by {
            assert(f(t[0], t[u]));
            assert(region_le(t[0], t[u]));
        }
        lemma_same_row_fold_strict(t, 1, t[0], Seq::empty());
        assert(m == same_row_fold(t, 1, t[0], Seq::empty()));
        assert(m.len() >= 1);
        assert forall|a: int, b: int| 0 <= a < b < m.len() implies #[trigger] f(m[a], m[b]) by {
            assert(key_lt(m[a], m[b]));
            assert(region_le(m[a], m[b]));
        }
        assert(sorted_by(m, region_order()));
        lemma_sort_of_sorted(m);
        lemma_same_row_fold_identity(m, 1, m[0], Seq::empty());
        assert(Seq::<Region>::empty().push(m[0]) + m.subrange(1, m.len() as int) =~= m);
        assert(same_row_merge_spec(m) == m);
    }
}

} // verus!
