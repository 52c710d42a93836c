//! The two region merge passes.
//!
//! Pass one collapses all candidates that share an exact vertical span
//! into one region spanning their union of horizontal ranges. Pass two
//! walks the result in vertical order and merges runs of regions whose
//! vertical spans are exactly contiguous (`y_end` of one equals
//! `y_start` of the next), regardless of horizontal overlap.

use vstd::prelude::*;

use crate::ordering::key_eq;
use crate::ordering::key_le;
use crate::ordering::key_lt;
use crate::ordering::lemma_region_order_total;
use crate::ordering::region_le;
use crate::ordering::region_order;
use crate::ordering::sort_regions_by_position;
use crate::region::Region;
use crate::region::region_wf;
use vstd::relations::sorted_by;
use vstd::seq_lib::lemma_sorted_unique;

verus! {

/// Two regions with the same vertical span collapsed into one that
/// spans both horizontal ranges.
pub open spec fn merge_spanning(a: Region, b: Region) -> Region {
    Region {
        x_start: if a.x_start <= b.x_start {
            a.x_start
        } else {
            b.x_start
        },
        x_end: if a.x_end >= b.x_end {
            a.x_end
        } else {
            b.x_end
        },
        y_start: a.y_start,
        y_end: a.y_end,
    }
}

/// Two vertically contiguous regions merged into their common bounding
/// box: the union of horizontal ranges, from the top of `a` to the
/// bottom of `b`.
pub open spec fn merge_stacked(a: Region, b: Region) -> Region {
    Region {
        x_start: if a.x_start <= b.x_start {
            a.x_start
        } else {
            b.x_start
        },
        x_end: if a.x_end >= b.x_end {
            a.x_end
        } else {
            b.x_end
        },
        y_start: a.y_start,
        y_end: b.y_end,
    }
}

/// Walking the sorted candidates from position `i` with `cur` holding
/// the group collapsed so far: a candidate with `cur`'s vertical span
/// joins the group; any other candidate closes the group and starts a
/// new one.
pub open spec fn same_row_fold(s: Seq<Region>, i: int, cur: Region, acc: Seq<Region>) -> Seq<
    Region,
>
    decreases s.len() - i,
{
    if i >= s.len() {
        acc.push(cur)
    } else if key_eq(s[i], cur) {
        same_row_fold(s, i + 1, merge_spanning(cur, s[i]), acc)
    } else {
        same_row_fold(s, i + 1, s[i], acc.push(cur))
    }
}

/// The same-row merge: sort by vertical span and collapse each group of
/// candidates sharing one vertical span into a single region.
pub open spec fn same_row_merge_spec(s: Seq<Region>) -> Seq<Region> {
    let t = s.sort_by(region_order());
    if t.len() == 0 {
        Seq::empty()
    } else {
        same_row_fold(t, 1, t[0], Seq::empty())
    }
}

/// Walking the sorted regions from position `i` with `cur` holding the
/// run merged so far: a region starting exactly where `cur` ends joins
/// the run; any other region closes the run and starts a new one.
pub open spec fn vertical_fold(s: Seq<Region>, i: int, cur: Region, acc: Seq<Region>) -> Seq<
    Region,
>
    decreases s.len() - i,
{
    if i >= s.len() {
        acc.push(cur)
    } else if s[i].y_start == cur.y_end {
        vertical_fold(s, i + 1, merge_stacked(cur, s[i]), acc)
    } else {
        vertical_fold(s, i + 1, s[i], acc.push(cur))
    }
}

/// The vertical-adjacency merge: sort by vertical span and merge each
/// maximal run of exactly contiguous regions into one bounding box.
pub open spec fn vertical_merge_spec(s: Seq<Region>) -> Seq<Region> {
    let t = s.sort_by(region_order());
    if t.len() == 0 {
        Seq::empty()
    } else {
        vertical_fold(t, 1, t[0], Seq::empty())
    }
}

/// Collapses regions that share an exact vertical span, leaving one
/// region per distinct vertical span, ordered by that span.
pub fn merge_barcode_regions(regions: &mut Vec<Region>)
    ensures
        final(regions)@ == same_row_merge_spec(old(regions)@),
{
    sort_regions_by_position(regions);
    let ghost t = regions@;
    if regions.len() == 0 {
        return ;
    }
    let mut acc: Vec<Region> = Vec::new();
    let mut cur: Region = regions[0];
    let mut i: usize = 1;
    while i < regions.len()
        invariant
            1 <= i <= regions@.len(),
            regions@ == t,
            same_row_fold(t, i as int, cur, acc@) == same_row_fold(t, 1, t[0], Seq::empty()),
        decreases regions@.len() - i,
    {
        let r: Region = regions[i];
        if r.y_start == cur.y_start && r.y_end == cur.y_end {
            cur =
            Region {
                x_start: if cur.x_start <= r.x_start {
                    cur.x_start
                } else {
                    r.x_start
                },
                x_end: if cur.x_end >= r.x_end {
                    cur.x_end
                } else {
                    r.x_end
                },
                y_start: cur.y_start,
                y_end: cur.y_end,
            };
        } else {
            acc.push(cur);
            cur = r;
        }
        i = i + 1;
    }
    acc.push(cur);
    *regions = acc;
}

/// Merges each maximal run of vertically contiguous regions (after
/// sorting by vertical span) into one bounding box.
pub fn merge_regions_if_y_matches(regions: &mut Vec<Region>)
    ensures
        final(regions)@ == vertical_merge_spec(old(regions)@),
{
    sort_regions_by_position(regions);
    let ghost t = regions@;
    if regions.len() == 0 {
        return ;
    }
    let mut acc: Vec<Region> = Vec::new();
    let mut cur: Region = regions[0];
    let mut i: usize = 1;
    while i < regions.len()
        invariant
            1 <= i <= regions@.len(),
            regions@ == t,
            vertical_fold(t, i as int, cur, acc@) == vertical_fold(t, 1, t[0], Seq::empty()),
        decreases regions@.len() - i,
    {
        let r: Region = regions[i];
        if r.y_start == cur.y_end {
            cur =
            Region {
                x_start: if cur.x_start <= r.x_start {
                    cur.x_start
                } else {
                    r.x_start
                },
                x_end: if cur.x_end >= r.x_end {
                    cur.x_end
                } else {
                    r.x_end
                },
                y_start: cur.y_start,
                y_end: r.y_end,
            };
        } else {
            acc.push(cur);
            cur = r;
        }
        i = i + 1;
    }
    acc.push(cur);
    *regions = acc;
}

} // verus!
