use barcode_detector::DetectionConfig;
use barcode_detector::Region;
use barcode_detector::adjust_regions;
use barcode_detector::contains_large_white_black_regions;
use barcode_detector::detect_regions;
use barcode_detector::merge_barcode_regions;
use barcode_detector::merge_regions_if_y_matches;
use barcode_detector::plan_grid;
use barcode_detector::prepare_cell_scans;
use barcode_detector::sample_binarized_line;

fn region(x_start: u32, x_end: u32, y_start: u32, y_end: u32) -> Region {
    Region { x_start, x_end, y_start, y_end }
}

#[test]
fn run_detector_emits_on_every_threshold_step() {
    let hot = vec![
        true, true, true, true, true, false, true, true, true, true, true, true,
    ];
    let mut out: Vec<Region> = Vec::new();
    detect_regions(&hot, 1, 0, 50, 5, &mut out);
    // First run (cells 0..=4, length 5) emits once at cell 4; the second
    // run (cells 6..=11, length 6) reaches the threshold at cells 10 and
    // 11 and emits both times.
    assert_eq!(
        out,
        vec![region(0, 5, 0, 50), region(6, 11, 0, 50), region(6, 12, 0, 50)]
    );
}

#[test]
fn run_detector_ignores_short_runs() {
    let hot = vec![true, true, true, true, false, true, true];
    let mut out: Vec<Region> = Vec::new();
    detect_regions(&hot, 10, 100, 50, 5, &mut out);
    assert_eq!(out, Vec::<Region>::new());
}

#[test]
fn same_row_merge_collapses_equal_spans() {
    let mut regions = vec![region(10, 20, 50, 60), region(21, 30, 50, 60)];
    merge_barcode_regions(&mut regions);
    assert_eq!(regions, vec![region(10, 30, 50, 60)]);
}

#[test]
fn same_row_merge_keeps_groups_apart() {
    let mut regions = vec![
        region(10, 20, 50, 60),
        region(21, 30, 50, 60),
        region(5, 15, 70, 80),
        region(16, 25, 70, 80),
    ];
    merge_barcode_regions(&mut regions);
    assert_eq!(regions, vec![region(10, 30, 50, 60), region(5, 25, 70, 80)]);
}

#[test]
fn same_row_merge_is_idempotent_on_its_output() {
    let mut regions = vec![
        region(40, 50, 0, 5),
        region(0, 10, 0, 5),
        region(7, 9, 10, 15),
        region(30, 35, 0, 5),
    ];
    merge_barcode_regions(&mut regions);
    let once = regions.clone();
    merge_barcode_regions(&mut regions);
    assert_eq!(regions, once);
}

#[test]
fn vertical_merge_joins_contiguous_spans() {
    let mut regions = vec![
        region(10, 20, 0, 5),
        region(15, 25, 5, 10),
        region(30, 40, 20, 25),
    ];
    merge_regions_if_y_matches(&mut regions);
    // The first two merge despite disjoint x ranges; the third stays
    // separate because of the vertical gap.
    assert_eq!(regions, vec![region(10, 25, 0, 10), region(30, 40, 20, 25)]);
}

#[test]
fn uniformity_filter_flags_wide_runs() {
    let line = vec![true, true, false, false, false, true];
    assert!(contains_large_white_black_regions(&line, 2));
    assert!(!contains_large_white_black_regions(&line, 3));
}

#[test]
fn uniformity_filter_accepts_alternation() {
    let line = vec![true, false, true, false, true, false];
    assert!(!contains_large_white_black_regions(&line, 1));
    assert!(contains_large_white_black_regions(&line, 0));
}

#[test]
fn uniformity_filter_single_sample_never_flagged() {
    let line = vec![true];
    assert!(!contains_large_white_black_regions(&line, 10));
    assert!(!contains_large_white_black_regions(&line, 1));
}

#[test]
fn adjuster_moves_region_below_barcode() {
    let mut regions = vec![region(100, 200, 100, 150)];
    adjust_regions(&mut regions, 300, 200);
    assert_eq!(regions, vec![region(125, 175, 154, 200)]);
    assert!(regions[0].is_valid());
}

#[test]
fn adjuster_inverts_narrow_regions() {
    let mut regions = vec![region(0, 30, 0, 5)];
    adjust_regions(&mut regions, 100, 100);
    assert_eq!(regions, vec![region(25, 5, 9, 55)]);
    assert!(!regions[0].is_valid());
}

#[test]
fn adjuster_floors_tiny_right_edges() {
    let mut regions = vec![region(0, 10, 0, 5)];
    adjust_regions(&mut regions, 100, 100);
    assert_eq!(regions, vec![region(25, 0, 9, 55)]);
    assert!(!regions[0].is_valid());
}

#[test]
fn default_config_values() {
    let cfg = DetectionConfig::default();
    assert_eq!(cfg.portrait_cells_per_row, 60);
    assert_eq!(cfg.landscape_cells_per_row, 100);
    assert_eq!(cfg.strip_height, 50);
    assert_eq!(cfg.binarize_threshold, 128);
    assert_eq!(cfg.magnitude_threshold, 50);
    assert_eq!(cfg.consecutive_run_threshold, 5);
    assert_eq!(cfg.max_uniform_run_width, 10);
    assert!(cfg.enable_uniformity_filter);
}

#[test]
fn grid_uses_aspect_ratio() {
    let cfg = DetectionConfig::default();
    let landscape = vec![0u8; 800 * 600];
    let g = plan_grid(&landscape, 800, 600, &cfg).unwrap();
    assert_eq!(g.cells_per_row, 100);
    assert_eq!(g.cell_width, 8);
    assert_eq!(g.strip_height, 50);
    assert_eq!(g.strip_count, 12);

    let portrait = vec![0u8; 600 * 800];
    let g = plan_grid(&portrait, 600, 800, &cfg).unwrap();
    assert_eq!(g.cells_per_row, 60);
    assert_eq!(g.cell_width, 10);
    assert_eq!(g.strip_count, 16);
}

#[test]
fn binarization_uses_strict_threshold() {
    let pixels = vec![0u8, 128, 129, 255];
    let line = sample_binarized_line(&pixels, 4, 0, 0, 4, 128);
    assert_eq!(line, vec![false, false, true, true]);
}

#[test]
fn scan_plan_lines_and_filter_verdicts() {
    let mut cfg = DetectionConfig::default();
    cfg.landscape_cells_per_row = 4;
    cfg.strip_height = 2;
    cfg.max_uniform_run_width = 1;
    // An 8x4 image; strips sample rows 1 and 3.
    // Row 1 alternates, row 3 is uniform white.
    let mut pixels = vec![0u8; 8 * 4];
    for x in 0..8 {
        pixels[8 + x] = if x % 2 == 0 { 0 } else { 255 };
        pixels[24 + x] = 255;
    }
    let plan = prepare_cell_scans(&pixels, 8, 4, &cfg).unwrap();
    assert_eq!(plan.geometry.cell_width, 2);
    assert_eq!(plan.geometry.strip_count, 2);
    assert_eq!(plan.lines.len(), 8);
    // Strip 0: every cell alternates, so each passes the filter.
    for i in 0..4 {
        assert_eq!(plan.lines[i], vec![false, true]);
        assert!(plan.measure[i]);
    }
    // Strip 1: every cell is uniform white, wider than the allowed run.
    for i in 4..8 {
        assert_eq!(plan.lines[i], vec![true, true]);
        assert!(!plan.measure[i]);
    }
}

#[test]
fn merges_leave_empty_input_empty() {
    let mut regions: Vec<Region> = Vec::new();
    merge_barcode_regions(&mut regions);
    assert_eq!(regions, Vec::<Region>::new());
    merge_regions_if_y_matches(&mut regions);
    assert_eq!(regions, Vec::<Region>::new());
}

#[test]
fn merges_leave_single_region_alone() {
    let mut regions = vec![region(3, 9, 10, 15)];
    merge_barcode_regions(&mut regions);
    assert_eq!(regions, vec![region(3, 9, 10, 15)]);
    merge_regions_if_y_matches(&mut regions);
    assert_eq!(regions, vec![region(3, 9, 10, 15)]);
}

#[test]
fn run_detector_handles_empty_strip() {
    let hot: Vec<bool> = Vec::new();
    let mut out: Vec<Region> = Vec::new();
    detect_regions(&hot, 8, 0, 50, 5, &mut out);
    assert_eq!(out, Vec::<Region>::new());
}
