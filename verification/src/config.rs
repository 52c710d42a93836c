//! Tunable parameters of the detection pipeline.

use vstd::prelude::*;

verus! {

/// All tunables of the detector, with empirically chosen defaults.
///
/// The cells-per-row counts select how finely a strip is subdivided,
/// depending on whether the image is portrait-like (`width <= height`)
/// or landscape-like. `strip_height` is the height in pixels of one
/// horizontal strip; one scanline per strip is sampled, at the strip's
/// vertical midpoint. A sample binarizes to white when its intensity is
/// strictly greater than `binarize_threshold`. A cell counts as active
/// when the summed magnitude of its non-DC frequency coefficients is
/// strictly greater than `magnitude_threshold`. A candidate region is
/// emitted once `consecutive_run_threshold` adjacent active cells have
/// been seen. When `enable_uniformity_filter` is set, a cell whose
/// binarized scanline has a run of more than `max_uniform_run_width`
/// identical samples is treated as inactive without measuring it.
#[derive(Clone, Copy, Debug)]
pub struct DetectionConfig {
    pub portrait_cells_per_row: u32,
    pub landscape_cells_per_row: u32,
    pub strip_height: u32,
    pub binarize_threshold: u8,
    pub magnitude_threshold: u32,
    pub consecutive_run_threshold: usize,
    pub max_uniform_run_width: usize,
    pub enable_uniformity_filter: bool,
}

/// The documented default configuration.
pub open spec fn default_config() -> DetectionConfig {
    DetectionConfig {
        portrait_cells_per_row: 60,
        landscape_cells_per_row: 100,
        strip_height: 50,
        binarize_threshold: 128,
        magnitude_threshold: 50,
        consecutive_run_threshold: 5,
        max_uniform_run_width: 10,
        enable_uniformity_filter: true,
    }
}

impl Default for DetectionConfig {
    fn default() -> (c: Self)
        ensures
            c == default_config(),
    {
        DetectionConfig {
            portrait_cells_per_row: 60,
            landscape_cells_per_row: 100,
            strip_height: 50,
            binarize_threshold: 128,
            magnitude_threshold: 50,
            consecutive_run_threshold: 5,
            max_uniform_run_width: 10,
            enable_uniformity_filter: true,
        }
    }
}

} // verus!
