//! Run detection: turning one strip's per-cell activity into candidate
//! regions.
//!
//! Scanning left to right, a counter tracks the current run of active
//! cells. From the moment the run reaches the configured threshold, a
//! candidate region covering the whole run so far is emitted at every
//! further cell of the run, so a long run yields several overlapping
//! candidates. The merge passes rely on exactly this shape.

use vstd::prelude::*;

use crate::region::Region;

verus! {

/// The length of the run of active cells ending at cell `e` (zero when
/// `e` lies outside the strip or is inactive).
pub open spec fn hot_run_len(hot: Seq<bool>, e: int) -> int
    decreases e,
{
    if e < 0 || e >= hot.len() {
        0
    } else if !hot[e] {
        0
    } else if e == 0 {
        1
    } else {
        hot_run_len(hot, e - 1) + 1
    }
}

/// A region built from mathematical coordinates (which the callers keep
/// within `u32` range).
pub open spec fn mk_region(xs: int, xe: int, ys: int, ye: int) -> Region {
    Region { x_start: xs as u32, x_end: xe as u32, y_start: ys as u32, y_end: ye as u32 }
}

/// The candidate regions emitted while scanning the first `n` cells of a
/// strip whose activity is `hot`: cell `e` emits one region exactly when
/// it lies in a run of at least `k` active cells, covering the run's
/// cells so far, converted to pixel coordinates with `cell_width`, and
/// spanning the strip's rows `y0 .. y0 + strip_height`.
pub open spec fn emitted_regions_prefix(
    hot: Seq<bool>,
    n: int,
    k: int,
    cell_width: int,
    y0: int,
    strip_height: int,
) -> Seq<Region>
    decreases n,
{
    if n <= 0 {
        Seq::empty()
    } else {
        let rest = emitted_regions_prefix(hot, n - 1, k, cell_width, y0, strip_height);
        if hot[n - 1] && hot_run_len(hot, n - 1) >= k {
            rest.push(
                mk_region(
                    (n - hot_run_len(hot, n - 1)) * cell_width,
                    n * cell_width,
                    y0,
                    y0 + strip_height,
                ),
            )
        } else {
            rest
        }
    }
}

/// All candidate regions of one strip.
pub open spec fn strip_regions(
    hot: Seq<bool>,
    k: int,
    cell_width: int,
    y0: int,
    strip_height: int,
) -> Seq<Region> {
    emitted_regions_prefix(hot, hot.len() as int, k, cell_width, y0, strip_height)
}

/// In a fully active strip the run ending at `e` spans the whole prefix.
proof fn lemma_all_active_run_len(hot: Seq<bool>, e: int)
    requires
        0 <= e < hot.len(),
        forall|t: int| 0 <= t < hot.len() ==> hot[t],
    ensures
        hot_run_len(hot, e) == e + 1,
    decreases e,
{
    if e > 0 {
        lemma_all_active_run_len(hot, e - 1);
    }
}

/// A fully active strip of at least `k` cells emits at least one
/// candidate region.
pub proof fn lemma_all_active_strip_emits(hot: Seq<bool>, k: int, cell_width: int, y0: int, strip_height: int)
    requires
        1 <= k <= hot.len(),
        forall|t: int| 0 <= t < hot.len() ==> hot[t],
    ensures
        strip_regions(hot, k, cell_width, y0, strip_height).len() >= 1,
{
    let n = hot.len() as int;
    lemma_all_active_run_len(hot, n - 1);
    assert(hot[n - 1] && hot_run_len(hot, n - 1) >= k);
    assert(strip_regions(hot, k, cell_width, y0, strip_height) == emitted_regions_prefix(
        hot,
        n,
        k,
        cell_width,
        y0,
        strip_height,
    ));
    assert(emitted_regions_prefix(hot, n, k, cell_width, y0, strip_height).len() >= 1);
}

/// Scans one strip's activity vector and appends the emitted candidate
/// regions to `out`.
pub fn detect_regions(
    hot: &Vec<bool>,
    cell_width: u32,
    y_start: u32,
    strip_height: u32,
    consecutive_threshold: usize,
    out: &mut Vec<Region>,
)
    requires
        hot@.len() <= u32::MAX,
        hot@.len() * cell_width <= u32::MAX,
        y_start + strip_height <= u32::MAX,
    ensures
        final(out)@ == old(out)@ + strip_regions(
            hot@,
            consecutive_threshold as int,
            cell_width as int,
            y_start as int,
            strip_height as int,
        ),
        forall|idx: int|
            old(out)@.len() <= idx < final(out)@.len() ==> {
                let r = #[trigger] final(out)@[idx];
                &&& r.x_start <= r.x_end
                &&& r.x_end <= hot@.len() * cell_width
                &&& r.y_start == y_start
                &&& r.y_end == y_start + strip_height
            },
{
    let n: usize = hot.len();
    let ghost k: int = consecutive_threshold as int;
    let ghost cw: int = cell_width as int;
    let ghost y0: int = y_start as int;
    let ghost sh: int = strip_height as int;
    let mut i: usize = 0;
    let mut count: usize = 0;
    while i < n
        invariant
            i <= n,
            n == hot@.len(),
            n <= u32::MAX,
            n * cell_width <= u32::MAX,
            y_start + strip_height <= u32::MAX,
            k == consecutive_threshold as int,
            cw == cell_width as int && y0 == y_start as int && sh == strip_height as int,
            count <= i,
            count == hot_run_len(hot@, i - 1),
            out@ == old(out)@ + emitted_regions_prefix(hot@, i as int, k, cw, y0, sh),
            forall|idx: int|
                old(out)@.len() <= idx < out@.len() ==> {
                    let r = #[trigger] out@[idx];
                    &&& r.x_start <= r.x_end
                    &&& r.x_end <= hot@.len() * cell_width
                    &&& r.y_start == y_start
                    &&& r.y_end == y_start + strip_height
                },
        decreases n - i,
    {
        if hot[i] {
            count = count + 1;
            assert(count == hot_run_len(hot@, i as int));
            if count >= consecutive_threshold {
                let s: usize = i + 1 - count;
                proof {
                    assert(s * cw <= n * cw && (i + 1) * cw <= n * cw && 0 <= s * cw && s * cw <= (i
                        + 1) * cw) by (nonlinear_arith)
                        requires
                            0 <= s <= i + 1 <= n,
                            cw >= 0,
                    ;
                }
                let xs: u32 = (s as u32) * cell_width;
                let xe: u32 = (i as u32 + 1) * cell_width;
                let r = Region { x_start: xs, x_end: xe, y_start, y_end: y_start + strip_height };
                out.push(r);
                proof {
                    assert(r == mk_region((i + 1 - count) * cw, (i + 1) * cw, y0, y0 + sh));
                    assert(out@ == old(out)@ + emitted_regions_prefix(hot@, i + 1, k, cw, y0, sh));
                }
            } else {
                proof {
                    assert(emitted_regions_prefix(hot@, i + 1, k, cw, y0, sh)
                        == emitted_regions_prefix(hot@, i as int, k, cw, y0, sh));
                }
            }
        } else {
            count = 0;
            proof {
                assert(emitted_regions_prefix(hot@, i + 1, k, cw, y0, sh)
                    == emitted_regions_prefix(hot@, i as int, k, cw, y0, sh));
            }
        }
        i = i + 1;
    }
    proof {
        assert(out@ == old(out)@ + strip_regions(hot@, k, cw, y0, sh));
    }
}

} // verus!
