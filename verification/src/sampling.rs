//! Sampling one horizontal scanline of a cell and binarizing it.

use vstd::prelude::*;

verus! {

/// The binarized scanline of a cell: `len` samples taken from row `row`
/// of the row-major pixel buffer, starting at column `x0`, each mapped
/// to `true` (white) when strictly brighter than `threshold`.
pub open spec fn binarized_line(
    pixels: Seq<u8>,
    width: int,
    row: int,
    x0: int,
    len: int,
    threshold: u8,
) -> Seq<bool> {
    Seq::new(len as nat, |i: int| pixels[row * width + x0 + i] > threshold)
}

/// Reads `len` consecutive pixels of one row and binarizes them against
/// `threshold`.
pub fn sample_binarized_line(
    pixels: &Vec<u8>,
    width: u32,
    row: u32,
    x0: u32,
    len: u32,
    threshold: u8,
) -> (line: Vec<bool>)
    requires
        x0 + len <= width,
        (row + 1) * (width as int) <= pixels@.len(),
    ensures
        line@ == binarized_line(pixels@, width as int, row as int, x0 as int, len as int, threshold),
{
    let mut line: Vec<bool> = Vec::new();
    proof {
        vstd::std_specs::vec::axiom_spec_len(pixels);
        assert(pixels@.len() <= usize::MAX);
        assert(0 <= row * width && row * width + x0 <= (row + 1) * (width as int))
            by (nonlinear_arith)
            requires
                x0 <= width,
        ;
    }
    let base: u64 = (row as u64) * (width as u64) + (x0 as u64);
    let mut i: u32 = 0;
    while i < len
        invariant
            i <= len,
            x0 + len <= width,
            (row + 1) * (width as int) <= pixels@.len(),
            pixels@.len() <= usize::MAX,
            base == row * width + x0,
            line@ =~= binarized_line(pixels@, width as int, row as int, x0 as int, i as int, threshold),
        decreases len - i,
    {
        proof {
            assert(row * width + x0 + i < (row + 1) * (width as int)) by (nonlinear_arith)
                requires
                    x0 + i < width,
            ;
        }
        let idx: usize = (base + i as u64) as usize;
        let sample: u8 = pixels[idx];
        line.push(sample > threshold);
        proof {
            assert(line@ =~= binarized_line(
                pixels@,
                width as int,
                row as int,
                x0 as int,
                i + 1,
                threshold,
            ));
        }
        i = i + 1;
    }
    line
}

} // verus!
