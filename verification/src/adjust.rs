//! Repositioning merged regions onto the band of text expected directly
//! below a barcode.

use vstd::prelude::*;

use crate::region::Region;

verus! {

/// An integer clamped into `u32` range.
pub open spec fn clamp_u32(v: int) -> u32 {
    if v > u32::MAX {
        u32::MAX
    } else if v < 0 {
        0u32
    } else {
        v as u32
    }
}

/// One region repositioned for character detection: the horizontal span
/// shrinks inward by a fixed 25-pixel margin (deliberately unclamped
/// against inversion, beyond keeping the values in `u32` range), and the
/// vertical span moves to the band starting 4 pixels below the region's
/// old bottom edge, 50 pixels tall but capped at the image height.
pub open spec fn adjust_spec(r: Region, height: int) -> Region {
    Region {
        x_start: clamp_u32(r.x_start + 25),
        x_end: clamp_u32(r.x_end - 25),
        y_start: clamp_u32(r.y_end + 4),
        y_end: clamp_u32(
            if r.y_end + 50 <= height {
                r.y_end + 50
            } else {
                height
            },
        ),
    }
}

/// Repositions every region in place as `adjust_spec` describes.
///
/// A region narrower than 50 pixels comes out inverted
/// (`x_start > x_end`); callers check `Region::is_valid` before using
/// the result. The image width plays no role: the horizontal margins
/// are applied without clamping against the image.
pub fn adjust_regions(regions: &mut Vec<Region>, _width: u32, height: u32)
    ensures
        final(regions)@ == old(regions)@.map_values(
            |r: Region| adjust_spec(r, height as int),
        ),
{
    let mut i: usize = 0;
    while i < regions.len()
        invariant
            i <= regions@.len(),
            regions@.len() == old(regions)@.len(),
            forall|j: int|
                0 <= j < i ==> regions@[j] == adjust_spec(
                    #[trigger] old(regions)@[j],
                    height as int,
                ),
            forall|j: int| i <= j < regions@.len() ==> regions@[j] == #[trigger] old(regions)@[j],
        decreases regions@.len() - i,
    {
        let r: Region = regions[i];
        let x_start: u32 = if r.x_start <= u32::MAX - 25 {
            r.x_start + 25
        } else {
            u32::MAX
        };
        let x_end: u32 = if r.x_end >= 25 {
            r.x_end - 25
        } else {
            0
        };
        let y_start: u32 = if r.y_end <= u32::MAX - 4 {
            r.y_end + 4
        } else {
            u32::MAX
        };
        let below: u64 = r.y_end as u64 + 50;
        let y_end: u32 = if below <= height as u64 {
            below as u32
        } else {
            height
        };
        regions.set(i, Region { x_start, x_end, y_start, y_end });
        i = i + 1;
    }
    proof {
        assert(regions@ =~= old(regions)@.map_values(|r: Region| adjust_spec(r, height as int)));
    }
}

} // verus!
