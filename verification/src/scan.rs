//! Preparing the per-cell scanlines of an image.
//!
//! For every cell of the grid this produces the binarized scanline and a
//! flag saying whether the cell still needs its frequency content
//! measured. Cells rejected by the uniformity filter are already decided
//! here; the frequency measurement itself is floating-point work that the
//! caller performs on the prepared lines (see `assemble_barcode_regions`
//! for the rest of the pipeline).

use vstd::prelude::*;

use crate::config::DetectionConfig;
use crate::geometry::GridGeometry;
use crate::geometry::cells_per_row_of;
use crate::geometry::geometry_degenerate;
use crate::geometry::grid_of;
use crate::geometry::plan_grid;
use crate::geometry::scan_row_of_strip;
use crate::region::DetectError;
use crate::sampling::binarized_line;
use crate::sampling::sample_binarized_line;
use crate::uniformity::contains_large_white_black_regions;
use crate::uniformity::has_uniform_run_exceeding;
use crate::uniformity::uniform_between;
use vstd::arithmetic::div_mod::lemma_fundamental_div_mod;
use vstd::arithmetic::div_mod::lemma_fundamental_div_mod_converse;

verus! {

/// The prepared scan of a whole image: one entry per grid cell, in
/// strip-major order (cell `i` of strip `j` is entry `j * cells_per_row + i`).
pub struct ScanPlan {
    pub geometry: GridGeometry,
    /// The binarized scanline of each cell.
    pub lines: Vec<Vec<bool>>,
    /// Whether the cell still needs its frequency content measured;
    /// `false` means the uniformity filter already rejected the cell.
    pub measure: Vec<bool>,
}

/// How many cells the whole grid of an image has.
pub open spec fn total_cells(width: int, height: int, cfg: DetectionConfig) -> int {
    (height / (cfg.strip_height as int)) * cells_per_row_of(width, height, cfg)
}

/// The binarized scanline of cell `t` (in strip-major order) of the grid.
pub open spec fn cell_scan_line(
    pixels: Seq<u8>,
    width: int,
    height: int,
    cfg: DetectionConfig,
    t: int,
) -> Seq<bool> {
    let cells = cells_per_row_of(width, height, cfg);
    let cell_width = width / cells;
    binarized_line(
        pixels,
        width,
        scan_row_of_strip(t / cells, cfg.strip_height as int),
        (t % cells) * cell_width,
        cell_width,
        cfg.binarize_threshold,
    )
}

/// Whether cell `t` still needs its frequency content measured: the
/// uniformity filter, when enabled, has not rejected its scanline.
pub open spec fn cell_needs_measure(
    pixels: Seq<u8>,
    width: int,
    height: int,
    cfg: DetectionConfig,
    t: int,
) -> bool {
    !(cfg.enable_uniformity_filter && has_uniform_run_exceeding(
        cell_scan_line(pixels, width, height, cfg, t),
        cfg.max_uniform_run_width as int,
    ))
}

/// Validates the image, derives its grid, and prepares every cell's
/// binarized scanline together with its uniformity-filter verdict.
pub fn prepare_cell_scans(
    pixels: &Vec<u8>,
    width: u32,
    height: u32,
    cfg: &DetectionConfig,
) -> (r: Result<ScanPlan, DetectError>)
    ensures
        (r is Err) <==> (pixels@.len() != (width as int) * (height as int)
            || geometry_degenerate(width as int, height as int, *cfg)),
        r matches Err(e) ==> e == (if pixels@.len() != (width as int) * (height as int) {
            DetectError::InvalidBuffer
        } else {
            DetectError::DegenerateGeometry
        }),
        r matches Ok(plan) ==> {
            &&& plan.geometry == grid_of(width as int, height as int, *cfg)
            &&& plan.lines@.len() == total_cells(width as int, height as int, *cfg)
            &&& plan.measure@.len() == total_cells(width as int, height as int, *cfg)
            &&& forall|t: int|
                0 <= t < plan.lines@.len() ==> (#[trigger] plan.lines@[t])@ == cell_scan_line(
                    pixels@,
                    width as int,
                    height as int,
                    *cfg,
                    t,
                )
            &&& forall|t: int|
                0 <= t < plan.measure@.len() ==> #[trigger] plan.measure@[t] == cell_needs_measure(
                    pixels@,
                    width as int,
                    height as int,
                    *cfg,
                    t,
                )
        },
{
    let g: GridGeometry = match plan_grid(pixels, width, height, cfg) {
        Ok(g) => g,
        Err(e) => {
            return Err(e);
        },
    };
    let ghost gw: int = width as int;
    let ghost gh: int = height as int;
    let ghost cells: int = cells_per_row_of(gw, gh, *cfg);
    let ghost cw: int = gw / cells;
    let ghost sh: int = cfg.strip_height as int;
    let ghost sc: int = gh / sh;
    proof {
        lemma_fundamental_div_mod(gw, cells);
        lemma_fundamental_div_mod(gh, sh);
        assert(cells * cw <= gw && sc * sh <= gh) by (nonlinear_arith)
            requires
                gw == cells * cw + gw % cells,
                gh == sh * sc + gh % sh,
                0 <= gw % cells,
                0 <= gh % sh,
        ;
    }
    let mut lines: Vec<Vec<bool>> = Vec::new();
    let mut measure: Vec<bool> = Vec::new();
    let mut j: u32 = 0;
    while j < g.strip_count
        invariant
            j <= g.strip_count,
            g == grid_of(gw, gh, *cfg),
            !geometry_degenerate(gw, gh, *cfg),
            gw == width as int && gh == height as int,
            pixels@.len() == gw * gh,
            cells == cells_per_row_of(gw, gh, *cfg) && cells == g.cells_per_row,
            cw == gw / cells && cw == g.cell_width,
            sh == cfg.strip_height as int && sh == g.strip_height,
            sc == gh / sh && sc == g.strip_count,
            cells * cw <= gw,
            sc * sh <= gh,
            1 <= cells && 1 <= cw && 1 <= sh && 1 <= sc,
            lines@.len() == j * cells,
            measure@.len() == j * cells,
            forall|t: int|
                0 <= t < lines@.len() ==> (#[trigger] lines@[t])@ == cell_scan_line(
                    pixels@,
                    gw,
                    gh,
                    *cfg,
                    t,
                ),
            forall|t: int|
                0 <= t < measure@.len() ==> #[trigger] measure@[t] == cell_needs_measure(
                    pixels@,
                    gw,
                    gh,
                    *cfg,
                    t,
                ),
        decreases g.strip_count - j,
    {
        proof {
            assert(j * sh + sh <= sc * sh) by (nonlinear_arith)
                requires
                    j < sc,
                    sh >= 1,
            ;
            assert(sh / 2 < sh) by (nonlinear_arith)
                requires
                    sh >= 1,
            ;
        }
        let row: u32 = j * g.strip_height + g.strip_height / 2;
        proof {
            assert(row == scan_row_of_strip(j as int, sh));
            assert((row + 1) * gw <= gh * gw) by (nonlinear_arith)
                requires
                    row + 1 <= gh,
                    gw >= 0,
            ;
        }
        let mut i: u32 = 0;
        while i < g.cells_per_row
            invariant
                i <= cells,
                j < sc,
                g == grid_of(gw, gh, *cfg),
                gw == width as int && gh == height as int,
                pixels@.len() == gw * gh,
                cells == g.cells_per_row && cw == g.cell_width,
                sh == cfg.strip_height as int && sh == g.strip_height,
                sc == g.strip_count,
                cells == cells_per_row_of(gw, gh, *cfg) && cw == gw / cells,
                cells * cw <= gw,
                1 <= cells && 1 <= cw && 1 <= sh && 1 <= sc,
                row == scan_row_of_strip(j as int, sh),
                (row + 1) * gw <= pixels@.len(),
                lines@.len() == j * cells + i,
                measure@.len() == j * cells + i,
                forall|t: int|
                    0 <= t < lines@.len() ==> (#[trigger] lines@[t])@ == cell_scan_line(
                        pixels@,
                        gw,
                        gh,
                        *cfg,
                        t,
                    ),
                forall|t: int|
                    0 <= t < measure@.len() ==> #[trigger] measure@[t] == cell_needs_measure(
                        pixels@,
                        gw,
                        gh,
                        *cfg,
                        t,
                    ),
            decreases cells - i,
        {
            proof {
                assert(i * cw >= 0 && i * cw + cw <= cells * cw) by (nonlinear_arith)
                    requires
                        0 <= i < cells,
                        cw >= 1,
                ;
            }
            let x0: u32 = i * g.cell_width;
            let line = sample_binarized_line(
                pixels,
                width,
                row,
                x0,
                g.cell_width,
                cfg.binarize_threshold,
            );
            let needs: bool = if cfg.enable_uniformity_filter {
                !contains_large_white_black_regions(&line, cfg.max_uniform_run_width)
            } else {
                true
            };
            proof {
                let t: int = j * cells + i;
                lemma_fundamental_div_mod_converse(t, cells, j as int, i as int);
                assert(line@ == cell_scan_line(pixels@, gw, gh, *cfg, t));
            }
            lines.push(line);
            measure.push(needs);
            i = i + 1;
        }
        proof {
            assert(j * cells + cells == (j + 1) * cells) by (nonlinear_arith);
        }
        j = j + 1;
    }
    proof {
        assert(lines@.len() == total_cells(gw, gh, *cfg)) by (nonlinear_arith)
            requires
                lines@.len() == sc * cells,
                sc == gh / sh,
                cells == cells_per_row_of(gw, gh, *cfg),
                sh == cfg.strip_height as int,
        ;
    }
    Ok(ScanPlan { geometry: g, lines, measure })
}

/// In a fully uniform image every cell's scanline is one long run, so
/// (when the filter is enabled and a cell is wider than the permitted
/// run) every cell is rejected before any frequency measurement.
pub proof fn lemma_uniform_image_cells_rejected(
    pixels: Seq<u8>,
    width: int,
    height: int,
    cfg: DetectionConfig,
)
    requires
        0 <= width,
        0 <= height,
        pixels.len() == width * height,
        !geometry_degenerate(width, height, cfg),
        cfg.enable_uniformity_filter,
        cfg.max_uniform_run_width < width / cells_per_row_of(width, height, cfg),
        forall|a: int, b: int|
            0 <= a < pixels.len() && 0 <= b < pixels.len() ==> #[trigger] pixels[a]
                == #[trigger] pixels[b],
    ensures
        forall|t: int|
            0 <= t < total_cells(width, height, cfg) ==> !cell_needs_measure(
                pixels,
                width,
                height,
                cfg,
                t,
            ),
{
    let cells = cells_per_row_of(width, height, cfg);
    let cw = width / cells;
    let sh = cfg.strip_height as int;
    let sc = height / sh;
    let maxw = cfg.max_uniform_run_width as int;
    lemma_fundamental_div_mod(width, cells);
    lemma_fundamental_div_mod(height, sh);
    assert(cells * cw <= width && sc * sh <= height) by (nonlinear_arith)
        requires
            width == cells * cw + width % cells,
            height == sh * sc + height % sh,
            0 <= width % cells,
            0 <= height % sh,
    ;
    assert forall|t: int| 0 <= t < total_cells(width, height, cfg) implies !cell_needs_measure(
        pixels,
        width,
        height,
        cfg,
        t,
    ) by {
        let j = t / cells;
        let i = t % cells;
        lemma_fundamental_div_mod(t, cells);
        assert(0 <= i < cells);
        assert(0 <= j < sc) by (nonlinear_arith)
            requires
                t == cells * j + i,
                0 <= i < cells,
                0 <= t < sc * cells,
                1 <= cells,
        ;
        let row = scan_row_of_strip(j, sh);
        assert(sh / 2 < sh && 0 <= sh / 2) by (nonlinear_arith)
            requires
                sh >= 1,
        ;
        assert(0 <= row && row + 1 <= sc * sh) by (nonlinear_arith)
            requires
                0 <= j < sc,
                sh >= 1,
                0 <= sh / 2 < sh,
                row == j * sh + sh / 2,
        ;
        let x0 = i * cw;
        assert(0 <= x0 && x0 + cw <= cells * cw) by (nonlinear_arith)
            requires
                0 <= i < cells,
                cw >= 1,
                x0 == i * cw,
        ;
        assert((row + 1) * width <= height * width) by (nonlinear_arith)
            requires
                row + 1 <= height,
                width >= 0,
        ;
        assert(height * width == width * height) by (nonlinear_arith);
        let line = cell_scan_line(pixels, width, height, cfg, t);
        assert(line.len() == cw);
        assert forall|u: int| 0 <= u <= maxw implies #[trigger] line[u] == line[0] by {
            assert(row * width + x0 + u < (row + 1) * width && 0 <= row * width + x0)
                by (nonlinear_arith)
                requires
                    0 <= row,
                    0 <= x0,
                    x0 + u < width,
                    u >= 0,
                    width >= 0,
            ;
            assert(pixels[row * width + x0 + u] == pixels[row * width + x0]);
        }
        assert(uniform_between(line, 0, 0 + maxw));
        assert(has_uniform_run_exceeding(line, maxw));
    }
}

} // verus!
