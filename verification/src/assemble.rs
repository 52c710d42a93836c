//! Assembling the final region list from the per-cell activity verdicts.
//!
//! The caller measures each prepared scanline (see `prepare_cell_scans`)
//! and hands back one boolean per cell; everything from there to the
//! final region list — run detection per strip and both merge passes —
//! happens here.

use vstd::prelude::*;

use crate::adjust::adjust_regions;
use crate::adjust::adjust_spec;
use crate::config::DetectionConfig;
use crate::geometry::cells_per_row_of;
use crate::geometry::geometry_degenerate;
use crate::merge::merge_barcode_regions;
use crate::merge::merge_regions_if_y_matches;
use crate::merge::same_row_merge_spec;
use crate::merge::vertical_merge_spec;
use crate::merge_laws::lemma_merge_specs_of_empty;
use crate::merge_laws::lemma_merges_keep_some_region;
use crate::merge_laws::lemma_same_row_merge_preserves_wf;
use crate::merge_laws::lemma_vertical_merge_preserves_wf;
use crate::region::Region;
use crate::region::region_wf;
use crate::runs::detect_regions;
use crate::runs::emitted_regions_prefix;
use crate::runs::lemma_all_active_strip_emits;
use crate::runs::strip_regions;
use crate::scan::total_cells;
use vstd::arithmetic::div_mod::lemma_fundamental_div_mod;

verus! {

/// The candidate regions of the first `n` strips: strip `j` contributes
/// the regions detected in its slice of the activity vector, with its
/// vertical span `j * strip_height .. (j + 1) * strip_height`.
pub open spec fn candidates_spec(
    activity: Seq<bool>,
    cells: int,
    k: int,
    cell_width: int,
    strip_height: int,
    n: int,
) -> Seq<Region>
    decreases n,
{
    if n <= 0 {
        Seq::empty()
    } else {
        candidates_spec(activity, cells, k, cell_width, strip_height, n - 1) + strip_regions(
            activity.subrange((n - 1) * cells, n * cells),
            k,
            cell_width,
            (n - 1) * strip_height,
            strip_height,
        )
    }
}

/// The final region list for an image whose per-cell activity is
/// `activity`: all strips' candidates, merged by the same-row pass and
/// then the vertical-adjacency pass.
pub open spec fn assemble_spec(
    width: int,
    height: int,
    cfg: DetectionConfig,
    activity: Seq<bool>,
) -> Seq<Region> {
    let cells = cells_per_row_of(width, height, cfg);
    let cell_width = width / cells;
    let strip_height = cfg.strip_height as int;
    let strip_count = height / strip_height;
    vertical_merge_spec(
        same_row_merge_spec(
            candidates_spec(
                activity,
                cells,
                cfg.consecutive_run_threshold as int,
                cell_width,
                strip_height,
                strip_count,
            ),
        ),
    )
}

/// Turns the per-cell activity verdicts of an image into its final,
/// merged barcode region list.
pub fn assemble_barcode_regions(
    width: u32,
    height: u32,
    cfg: &DetectionConfig,
    activity: &Vec<bool>,
) -> (regions: Vec<Region>)
    requires
        !geometry_degenerate(width as int, height as int, *cfg),
        activity@.len() == total_cells(width as int, height as int, *cfg),
    ensures
        regions@ == assemble_spec(width as int, height as int, *cfg, activity@),
        forall|t: int|
            0 <= t < regions@.len() ==> region_wf(
                #[trigger] regions@[t],
                width as int,
                height as int,
            ),
{
    let cells: u32 = if width <= height {
        cfg.portrait_cells_per_row
    } else {
        cfg.landscape_cells_per_row
    };
    let cell_width: u32 = width / cells;
    let strip_height: u32 = cfg.strip_height;
    let strip_count: u32 = height / strip_height;
    let ghost gw: int = width as int;
    let ghost gh: int = height as int;
    let ghost cellsg: int = cells as int;
    let ghost cwg: int = cell_width as int;
    let ghost shg: int = strip_height as int;
    let ghost scg: int = strip_count as int;
    let ghost kg: int = cfg.consecutive_run_threshold as int;
    proof {
        lemma_fundamental_div_mod(gw, cellsg);
        lemma_fundamental_div_mod(gh, shg);
        assert(cellsg * cwg <= gw && scg * shg <= gh) by (nonlinear_arith)
            requires
                gw == cellsg * cwg + gw % cellsg,
                gh == shg * scg + gh % shg,
                0 <= gw % cellsg,
                0 <= gh % shg,
        ;
        assert(activity@.len() == scg * cellsg);
    }
    proof {
        vstd::std_specs::vec::axiom_spec_len(activity);
        assert(activity@.len() <= usize::MAX);
    }
    let mut candidates: Vec<Region> = Vec::new();
    let mut j: u32 = 0;
    while j < strip_count
        invariant
            j <= strip_count,
            cells == cells_per_row_of(gw, gh, *cfg) as u32,
            gw == width as int && gh == height as int,
            cellsg == cells as int && cwg == cell_width as int,
            shg == strip_height as int && scg == strip_count as int,
            kg == cfg.consecutive_run_threshold as int,
            cwg == gw / cellsg && scg == gh / shg && shg == cfg.strip_height as int,
            1 <= cellsg && 1 <= cwg && 1 <= shg,
            cellsg * cwg <= gw,
            scg * shg <= gh,
            activity@.len() == scg * cellsg,
            activity@.len() <= usize::MAX,
            candidates@ == candidates_spec(activity@, cellsg, kg, cwg, shg, j as int),
            forall|t: int|
                0 <= t < candidates@.len() ==> region_wf(#[trigger] candidates@[t], gw, gh),
        decreases strip_count - j,
    {
        proof {
            assert((j + 1) * cellsg <= scg * cellsg && 0 <= j * cellsg && j * cellsg + cellsg == (j
                + 1) * cellsg) by (nonlinear_arith)
                requires
                    0 <= j < scg,
                    cellsg >= 1,
            ;
            assert((j + 1) * shg <= scg * shg && 0 <= j * shg && j * shg + shg == (j + 1) * shg)
                by (nonlinear_arith)
                requires
                    0 <= j < scg,
                    shg >= 1,
            ;
        }
        proof {
            assert(j * cellsg <= scg * cellsg) by (nonlinear_arith)
                requires
                    0 <= j <= scg,
                    cellsg >= 0,
            ;
        }
        let base: usize = (j as usize) * (cells as usize);
        let mut hot: Vec<bool> = Vec::new();
        let mut i: usize = 0;
        while i < cells as usize
            invariant
                i <= cellsg,
                base == j * cellsg,
                base + cellsg <= activity@.len(),
                activity@.len() <= usize::MAX,
                cellsg == cells as int,
                hot@ =~= activity@.subrange(base as int, base + i),
            decreases cellsg - i,
        {
            let v: bool = activity[base + i];
            hot.push(v);
            proof {
                assert(hot@ =~= activity@.subrange(base as int, base + i + 1));
            }
            i = i + 1;
        }
        let y0: u32 = j * strip_height;
        let ghost before = candidates@;
        detect_regions(&hot, cell_width, y0, strip_height, cfg.consecutive_run_threshold, &mut candidates);
        proof {
            assert(hot@ == activity@.subrange(j * cellsg, (j + 1) * cellsg));
            assert(candidates@ == before + strip_regions(hot@, kg, cwg, j * shg, shg));
            assert(candidates@ == candidates_spec(activity@, cellsg, kg, cwg, shg, j + 1));
            assert forall|t: int| 0 <= t < candidates@.len() implies region_wf(
                #[trigger] candidates@[t],
                gw,
                gh,
            ) by {
                if t < before.len() {
                    assert(region_wf(before[t], gw, gh));
                } else {
                    assert(candidates@[t].x_end <= hot@.len() * cwg);
                    assert(hot@.len() * cwg == cellsg * cwg);
                }
            }
        }
        j = j + 1;
    }
    let ghost all_candidates = candidates@;
    merge_barcode_regions(&mut candidates);
    proof {
        lemma_same_row_merge_preserves_wf(all_candidates, gw, gh);
    }
    let ghost rowed = candidates@;
    merge_regions_if_y_matches(&mut candidates);
    proof {
        lemma_vertical_merge_preserves_wf(rowed, gw, gh);
    }
    candidates
}

/// Turns the per-cell activity verdicts into character regions: the
/// merged barcode regions, each repositioned onto the band expected to
/// hold text below the barcode.
pub fn assemble_character_regions(
    width: u32,
    height: u32,
    cfg: &DetectionConfig,
    activity: &Vec<bool>,
) -> (regions: Vec<Region>)
    requires
        !geometry_degenerate(width as int, height as int, *cfg),
        activity@.len() == total_cells(width as int, height as int, *cfg),
    ensures
        regions@ == assemble_spec(width as int, height as int, *cfg, activity@).map_values(
            |r: Region| adjust_spec(r, height as int),
        ),
{
    let mut regions: Vec<Region> = assemble_barcode_regions(width, height, cfg, activity);
    adjust_regions(&mut regions, width, height);
    regions
}

/// When no cell is active at all, the pipeline returns no regions.
pub proof fn lemma_no_activity_no_regions(
    width: int,
    height: int,
    cfg: DetectionConfig,
    activity: Seq<bool>,
)
    requires
        0 <= width,
        0 <= height,
        forall|t: int| 0 <= t < activity.len() ==> !activity[t],
        activity.len() == total_cells(width, height, cfg),
        !geometry_degenerate(width, height, cfg),
    ensures
        assemble_spec(width, height, cfg, activity) == Seq::<Region>::empty(),
{
    let cells = cells_per_row_of(width, height, cfg);
    let cw = width / cells;
    let sh = cfg.strip_height as int;
    let sc = height / sh;
    let k = cfg.consecutive_run_threshold as int;
    vstd::arithmetic::div_mod::lemma_div_pos_is_pos(height, sh);
    lemma_candidates_of_inactive_empty(activity, cells, k, cw, sh, sc);
    lemma_merge_specs_of_empty();
}

/// When every cell of the image is active and a row holds at least
/// `consecutive_run_threshold` cells, the pipeline returns at least one
/// region.
pub proof fn lemma_all_active_yields_region(
    width: int,
    height: int,
    cfg: DetectionConfig,
    activity: Seq<bool>,
)
    requires
        0 <= width,
        0 <= height,
        !geometry_degenerate(width, height, cfg),
        activity.len() == total_cells(width, height, cfg),
        forall|t: int| 0 <= t < activity.len() ==> activity[t],
        1 <= cfg.consecutive_run_threshold <= cells_per_row_of(width, height, cfg),
    ensures
        assemble_spec(width, height, cfg, activity).len() >= 1,
{
    let cells = cells_per_row_of(width, height, cfg);
    let cw = width / cells;
    let sh = cfg.strip_height as int;
    let sc = height / sh;
    let k = cfg.consecutive_run_threshold as int;
    vstd::arithmetic::div_mod::lemma_div_pos_is_pos(height, sh);
    assert(sc >= 1);
    assert((sc - 1) * cells >= 0 && (sc - 1) * cells + cells == sc * cells) by (nonlinear_arith)
        requires
            sc >= 1,
            cells >= 0,
    ;
    let sub = activity.subrange((sc - 1) * cells, sc * cells);
    assert(forall|e: int| 0 <= e < sub.len() ==> sub[e]);
    lemma_all_active_strip_emits(sub, k, cw, (sc - 1) * sh, sh);
    let cands = candidates_spec(activity, cells, k, cw, sh, sc);
    assert(cands.len() >= 1);
    lemma_merges_keep_some_region(cands);
    lemma_merges_keep_some_region(same_row_merge_spec(cands));
}

proof fn lemma_strip_of_inactive_empty(hot: Seq<bool>, n: int, k: int, cw: int, y0: int, sh: int)
    requires
        n <= hot.len(),
        forall|e: int| 0 <= e < hot.len() ==> !hot[e],
    ensures
        emitted_regions_prefix(hot, n, k, cw, y0, sh) == Seq::<Region>::empty(),
    decreases n,
{
    if n > 0 {
        lemma_strip_of_inactive_empty(hot, n - 1, k, cw, y0, sh);
    }
}

proof fn lemma_candidates_of_inactive_empty(
    activity: Seq<bool>,
    cells: int,
    k: int,
    cw: int,
    sh: int,
    n: int,
)
    requires
        0 <= cells,
        0 <= n,
        n * cells <= activity.len(),
        forall|t: int| 0 <= t < activity.len() ==> !activity[t],
    ensures
        candidates_spec(activity, cells, k, cw, sh, n) == Seq::<Region>::empty(),
    decreases n,
{
    if n > 0 {
        assert((n - 1) * cells >= 0 && (n - 1) * cells + cells == n * cells && (n - 1) * cells <= n
            * cells) by (nonlinear_arith)
            requires
                n >= 1,
                cells >= 0,
        ;
        lemma_candidates_of_inactive_empty(activity, cells, k, cw, sh, n - 1);
        let sub = activity.subrange((n - 1) * cells, n * cells);
        assert(forall|e: int| 0 <= e < sub.len() ==> !sub[e]);
        lemma_strip_of_inactive_empty(sub, sub.len() as int, k, cw, (n - 1) * sh, sh);
        assert(candidates_spec(activity, cells, k, cw, sh, n) =~= Seq::<Region>::empty());
    }
}

} // verus!
