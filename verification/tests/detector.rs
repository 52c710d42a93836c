use barcode_detector::DetectError;
use barcode_detector::DetectionConfig;
use barcode_detector::Region;
use barcode_detector::assemble_barcode_regions;
use barcode_detector::assemble_character_regions;
use barcode_detector::prepare_cell_scans;
use rustfft::FftPlanner;
use rustfft::num_complex::Complex;

/// The frequency measurement of one binarized scanline, as the detector
/// defines it: the sum of the magnitudes of the non-DC coefficients of
/// the forward FFT, compared against the threshold.
fn line_exceeds_threshold(line: &[bool], threshold: u32) -> bool {
    let mut buf: Vec<Complex<f32>> = line
        .iter()
        .map(|&b| Complex::new(if b { 1.0 } else { 0.0 }, 0.0))
        .collect();
    let mut planner = FftPlanner::<f32>::new();
    planner.plan_fft_forward(buf.len()).process(&mut buf);
    let mass: f32 = buf
        .iter()
        .skip(1)
        .map(|c| (c.re * c.re + c.im * c.im).sqrt())
        .sum();
    mass > threshold as f32
}

fn detect_barcode_regions(
    pixels: &Vec<u8>,
    width: u32,
    height: u32,
    cfg: &DetectionConfig,
) -> Result<Vec<Region>, DetectError> {
    let plan = prepare_cell_scans(pixels, width, height, cfg)?;
    let mut activity: Vec<bool> = Vec::new();
    for i in 0..plan.lines.len() {
        activity.push(plan.measure[i] && line_exceeds_threshold(&plan.lines[i], cfg.magnitude_threshold));
    }
    Ok(assemble_barcode_regions(width, height, cfg, &activity))
}

fn detect_character_regions(
    pixels: &Vec<u8>,
    width: u32,
    height: u32,
    cfg: &DetectionConfig,
) -> Result<Vec<Region>, DetectError> {
    let plan = prepare_cell_scans(pixels, width, height, cfg)?;
    let mut activity: Vec<bool> = Vec::new();
    for i in 0..plan.lines.len() {
        activity.push(plan.measure[i] && line_exceeds_threshold(&plan.lines[i], cfg.magnitude_threshold));
    }
    Ok(assemble_character_regions(width, height, cfg, &activity))
}

fn region(x_start: u32, x_end: u32, y_start: u32, y_end: u32) -> Region {
    Region { x_start, x_end, y_start, y_end }
}

/// Columns alternate black and white over `rows`, everything else white.
fn striped_image(width: u32, height: u32, striped_rows: std::ops::Range<u32>) -> Vec<u8> {
    let mut pixels = vec![255u8; (width * height) as usize];
    for y in striped_rows {
        for x in 0..width {
            pixels[(y * width + x) as usize] = if x % 2 == 0 { 0 } else { 255 };
        }
    }
    pixels
}

#[test]
fn invalid_buffer_is_an_error_not_a_crash() {
    let cfg = DetectionConfig::default();
    let pixels = vec![0u8; 100];
    assert_eq!(
        detect_barcode_regions(&pixels, 800, 600, &cfg),
        Err(DetectError::InvalidBuffer)
    );
    let empty: Vec<u8> = Vec::new();
    assert_eq!(
        detect_barcode_regions(&empty, 1, 1, &cfg),
        Err(DetectError::InvalidBuffer)
    );
}

#[test]
fn too_narrow_image_is_degenerate() {
    let cfg = DetectionConfig::default();
    // 10 pixels wide, portrait: 10 / 60 truncates to zero-width cells.
    let pixels = vec![0u8; 10 * 600];
    assert_eq!(
        detect_barcode_regions(&pixels, 10, 600, &cfg),
        Err(DetectError::DegenerateGeometry)
    );
}

#[test]
fn too_short_image_is_degenerate() {
    let cfg = DetectionConfig::default();
    // 10 pixels tall: 10 / 50 truncates to zero strips.
    let pixels = vec![0u8; 800 * 10];
    assert_eq!(
        detect_barcode_regions(&pixels, 800, 10, &cfg),
        Err(DetectError::DegenerateGeometry)
    );
}

#[test]
fn uniform_image_yields_no_regions() {
    let cfg = DetectionConfig::default();
    for intensity in [0u8, 255u8] {
        let pixels = vec![intensity; 800 * 600];
        assert_eq!(detect_barcode_regions(&pixels, 800, 600, &cfg), Ok(Vec::new()));
    }
}

#[test]
fn uniform_image_yields_no_regions_without_filter() {
    // Even with the uniformity filter disabled, a constant scanline has
    // no non-DC frequency energy, so no cell passes the threshold.
    let mut cfg = DetectionConfig::default();
    cfg.enable_uniformity_filter = false;
    for intensity in [0u8, 255u8] {
        let pixels = vec![intensity; 800 * 600];
        assert_eq!(detect_barcode_regions(&pixels, 800, 600, &cfg), Ok(Vec::new()));
    }
}

#[test]
fn alternating_stripes_are_detected() {
    let mut cfg = DetectionConfig::default();
    cfg.landscape_cells_per_row = 5;
    let width = 640u32;
    let height = 100u32;
    let pixels = striped_image(width, height, 0..height);
    // Every cell's 128-sample scanline alternates, so its non-DC energy
    // (64 at the Nyquist bin) exceeds the default threshold of 50; both
    // strips produce a full-width candidate and the vertical merge joins
    // them.
    let regions = detect_barcode_regions(&pixels, width, height, &cfg).unwrap();
    assert_eq!(regions, vec![region(0, 640, 0, 100)]);
}

#[test]
fn detected_regions_stay_inside_the_image() {
    let mut cfg = DetectionConfig::default();
    cfg.landscape_cells_per_row = 5;
    let width = 640u32;
    let height = 250u32;
    let pixels = striped_image(width, height, 60..140);
    let regions = detect_barcode_regions(&pixels, width, height, &cfg).unwrap();
    assert!(!regions.is_empty());
    for r in &regions {
        assert!(r.x_start <= r.x_end && r.x_end <= width);
        assert!(r.y_start <= r.y_end && r.y_end <= height);
    }
}

#[test]
fn character_regions_sit_below_the_barcode() {
    let mut cfg = DetectionConfig::default();
    cfg.landscape_cells_per_row = 5;
    let width = 640u32;
    let height = 200u32;
    // Stripes cover the top half; the bottom half is blank white.
    let pixels = striped_image(width, height, 0..100);
    let barcode = detect_barcode_regions(&pixels, width, height, &cfg).unwrap();
    assert_eq!(barcode, vec![region(0, 640, 0, 100)]);
    let characters = detect_character_regions(&pixels, width, height, &cfg).unwrap();
    assert_eq!(characters, vec![region(25, 615, 104, 150)]);
    assert!(characters[0].is_valid());
}

#[test]
fn assembly_from_explicit_activity() {
    let mut cfg = DetectionConfig::default();
    cfg.landscape_cells_per_row = 5;
    cfg.strip_height = 2;
    cfg.consecutive_run_threshold = 2;
    // A 10x4 grid: 5 cells of width 2 per strip, 2 strips.
    let activity = vec![
        true, true, false, true, true, // strip 0: two runs of length 2
        false, false, false, false, false, // strip 1: nothing
    ];
    let regions = assemble_barcode_regions(10, 4, &cfg, &activity);
    // Both runs emit at their second cell and the same-row merge joins
    // them into one full-width region.
    assert_eq!(regions, vec![region(0, 10, 0, 2)]);
}
