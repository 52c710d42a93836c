//! Grid partitioning: how an image is divided into strips and cells.

use vstd::prelude::*;

use crate::config::DetectionConfig;
use crate::region::DetectError;

verus! {

/// The derived grid of an image: each of the `strip_count` horizontal
/// strips of height `strip_height` is divided into `cells_per_row` cells
/// of width `cell_width`. Remainder pixels at the right and bottom edges
/// fall outside the grid and are not sampled.
#[derive(Clone, Copy, Debug, PartialEq, Eq, Structural)]
pub struct GridGeometry {
    pub cells_per_row: u32,
    pub cell_width: u32,
    pub strip_height: u32,
    pub strip_count: u32,
}

/// How many cells per row the configuration selects for an image of the
/// given aspect ratio: the portrait count when `width <= height`, the
/// landscape count otherwise.
pub open spec fn cells_per_row_of(width: int, height: int, cfg: DetectionConfig) -> int {
    if width <= height {
        cfg.portrait_cells_per_row as int
    } else {
        cfg.landscape_cells_per_row as int
    }
}

/// The image is too small (or the configuration too coarse) to be
/// analyzed: the grid would have zero-width cells or zero strips.
pub open spec fn geometry_degenerate(width: int, height: int, cfg: DetectionConfig) -> bool {
    ||| cells_per_row_of(width, height, cfg) == 0
    ||| cfg.strip_height == 0
    ||| width / cells_per_row_of(width, height, cfg) == 0
    ||| height / (cfg.strip_height as int) == 0
}

/// The grid that `plan_grid` derives for a non-degenerate image.
pub open spec fn grid_of(width: int, height: int, cfg: DetectionConfig) -> GridGeometry {
    GridGeometry {
        cells_per_row: cells_per_row_of(width, height, cfg) as u32,
        cell_width: (width / cells_per_row_of(width, height, cfg)) as u32,
        strip_height: cfg.strip_height,
        strip_count: (height / (cfg.strip_height as int)) as u32,
    }
}

/// The row (y coordinate) whose scanline strip `j` samples: the strip's
/// vertical midpoint.
pub open spec fn scan_row_of_strip(j: int, strip_height: int) -> int {
    j * strip_height + strip_height / 2
}

/// Derives the grid for an image, after validating the pixel buffer.
///
/// Returns `InvalidBuffer` exactly when the buffer's length differs from
/// `width * height`, and `DegenerateGeometry` exactly when the buffer is
/// valid but the grid would have zero-width cells or zero strips.
pub fn plan_grid(
    pixels: &Vec<u8>,
    width: u32,
    height: u32,
    cfg: &DetectionConfig,
) -> (r: Result<GridGeometry, DetectError>)
    ensures
        r == (if pixels@.len() != (width as int) * (height as int) {
            Result::<GridGeometry, DetectError>::Err(DetectError::InvalidBuffer)
        } else if geometry_degenerate(width as int, height as int, *cfg) {
            Result::<GridGeometry, DetectError>::Err(DetectError::DegenerateGeometry)
        } else {
            Result::<GridGeometry, DetectError>::Ok(grid_of(width as int, height as int, *cfg))
        }),
{
    proof {
        assert((width as int) * (height as int) <= 0xffff_ffff * 0xffff_ffff)
            by (nonlinear_arith)
            requires
                width <= 0xffff_ffffu32,
                height <= 0xffff_ffffu32,
        ;
    }
    if (pixels.len() as u64) != (width as u64) * (height as u64) {
        return Err(DetectError::InvalidBuffer);
    }
    let cells_per_row: u32 = if width <= height {
        cfg.portrait_cells_per_row
    } else {
        cfg.landscape_cells_per_row
    };
    if cells_per_row == 0 || cfg.strip_height == 0 {
        return Err(DetectError::DegenerateGeometry);
    }
    let cell_width: u32 = width / cells_per_row;
    let strip_count: u32 = height / cfg.strip_height;
    if cell_width == 0 || strip_count == 0 {
        return Err(DetectError::DegenerateGeometry);
    }
    Ok(
        GridGeometry {
            cells_per_row,
            cell_width,
            strip_height: cfg.strip_height,
            strip_count,
        },
    )
}

} // verus!
