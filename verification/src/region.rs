//! The rectangular pixel-coordinate bounding boxes that the detector returns,
//! and the errors it can report instead.

use vstd::prelude::*;

verus! {

/// A rectangular region of the image, in pixel coordinates.
///
/// The detection pipeline produces regions with
/// `x_start <= x_end <= width` and `y_start <= y_end <= height`;
/// the character-region adjustment can deliberately violate this
/// (see `adjust_regions`), which `is_valid` lets a caller check.
#[derive(Clone, Copy, Debug, PartialEq, Eq, Structural)]
pub struct Region {
    pub x_start: u32,
    pub x_end: u32,
    pub y_start: u32,
    pub y_end: u32,
}

/// Why the detector refused to analyze an image.
#[derive(Clone, Copy, Debug, PartialEq, Eq, Structural)]
pub enum DetectError {
    /// The pixel buffer's length does not equal `width * height`.
    InvalidBuffer,
    /// The computed grid has zero-width cells or zero strips, so the
    /// image cannot be analyzed at all.
    DegenerateGeometry,
}

/// A region lies inside an image of the given dimensions and has
/// non-inverted coordinate ranges.
pub open spec fn region_wf(r: Region, width: int, height: int) -> bool {
    &&& r.x_start <= r.x_end <= width
    &&& r.y_start <= r.y_end <= height
}

impl Region {
    /// Whether the region's coordinate ranges are non-inverted.
    ///
    /// Regions coming out of `adjust_regions` can be inverted when the
    /// input region was too narrow for the fixed margins; callers are
    /// expected to check this before using such a region.
    pub fn is_valid(&self) -> (b: bool)
        ensures
            b == (self.x_start <= self.x_end && self.y_start <= self.y_end),
    {
        self.x_start <= self.x_end && self.y_start <= self.y_end
    }
}

} // verus!
