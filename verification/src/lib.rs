//! Detection of barcode-like regions in grayscale raster images.
//!
//! The pipeline partitions the image into horizontal strips and cells,
//! binarizes one scanline per cell, measures each cell's spatial-frequency
//! content, groups consecutive active cells into candidate regions, and
//! merges the candidates first within a row and then across vertically
//! adjacent rows.

mod adjust;
mod assemble;
mod config;
mod geometry;
mod merge;
mod merge_laws;
mod ordering;
mod region;
mod runs;
mod sampling;
mod scan;
mod uniformity;

pub use adjust::adjust_regions;
pub use adjust::adjust_spec;
pub use adjust::clamp_u32;
pub use assemble::assemble_barcode_regions;
pub use assemble::assemble_character_regions;
pub use assemble::assemble_spec;
pub use assemble::candidates_spec;
pub use assemble::lemma_all_active_yields_region;
pub use assemble::lemma_no_activity_no_regions;
pub use config::DetectionConfig;
pub use config::default_config;
pub use geometry::GridGeometry;
pub use geometry::cells_per_row_of;
pub use geometry::geometry_degenerate;
pub use geometry::grid_of;
pub use geometry::plan_grid;
pub use geometry::scan_row_of_strip;
pub use merge::merge_barcode_regions;
pub use merge::merge_regions_if_y_matches;
pub use merge::merge_spanning;
pub use merge::merge_stacked;
pub use merge::same_row_fold;
pub use merge::same_row_merge_spec;
pub use merge::vertical_fold;
pub use merge::vertical_merge_spec;
pub use merge_laws::lemma_merge_specs_of_empty;
pub use merge_laws::lemma_merges_keep_some_region;
pub use merge_laws::lemma_same_row_merge_idempotent;
pub use merge_laws::lemma_same_row_merge_preserves_wf;
pub use merge_laws::lemma_vertical_merge_preserves_wf;
pub use ordering::key_eq;
pub use ordering::key_le;
pub use ordering::key_lt;
pub use ordering::lemma_region_order_total;
pub use ordering::region_le;
pub use ordering::region_order;
pub use ordering::sort_regions_by_position;
pub use region::DetectError;
pub use region::Region;
pub use region::region_wf;
pub use runs::detect_regions;
pub use runs::lemma_all_active_strip_emits;
pub use runs::emitted_regions_prefix;
pub use runs::hot_run_len;
pub use runs::mk_region;
pub use runs::strip_regions;
pub use sampling::binarized_line;
pub use sampling::sample_binarized_line;
pub use scan::ScanPlan;
pub use scan::cell_needs_measure;
pub use scan::lemma_uniform_image_cells_rejected;
pub use scan::cell_scan_line;
pub use scan::prepare_cell_scans;
pub use scan::total_cells;
pub use uniformity::contains_large_white_black_regions;
pub use uniformity::has_uniform_run_exceeding;
pub use uniformity::uniform_between;
