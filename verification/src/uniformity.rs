//! Rejecting scanlines that contain an over-wide run of identical samples.
//!
//! A true barcode scanline alternates frequently between black and white;
//! a long uniform stretch indicates background or a quiet zone, so such
//! cells are dropped before any frequency measurement.

use vstd::prelude::*;

verus! {

/// All samples of `line` in positions `i ..= j` equal the sample at `i`.
pub open spec fn uniform_between(line: Seq<bool>, i: int, j: int) -> bool {
    forall|t: int| i <= t <= j ==> line[t] == line[i]
}

/// `line` contains somewhere a run of identical samples that is strictly
/// longer than `max_width`, that is, a uniform window of `max_width + 1`
/// consecutive samples.
pub open spec fn has_uniform_run_exceeding(line: Seq<bool>, max_width: int) -> bool {
    exists|i: int|
        0 <= i && i + max_width < line.len() && #[trigger] uniform_between(line, i, i + max_width)
}

/// The length of the maximal run of identical samples ending at
/// position `e` (zero outside the line).
pub open spec fn run_ending_at(line: Seq<bool>, e: int) -> int
    decreases e,
{
    if e < 0 || e >= line.len() {
        0
    } else if e == 0 {
        1
    } else if line[e] == line[e - 1] {
        run_ending_at(line, e - 1) + 1
    } else {
        1
    }
}

/// The run ending at `e` really is uniform and fits in the line.
proof fn lemma_run_ending_at_uniform(line: Seq<bool>, e: int)
    requires
        0 <= e < line.len(),
    ensures
        1 <= run_ending_at(line, e) <= e + 1,
        uniform_between(line, e - run_ending_at(line, e) + 1, e),
    decreases e,
{
    if e > 0 && line[e] == line[e - 1] {
        lemma_run_ending_at_uniform(line, e - 1);
        let s = e - run_ending_at(line, e) + 1;
        assert forall|t: int| s <= t <= e implies line[t] == line[s] by {
            assert(uniform_between(line, s, e - 1));
        }
    }
}

/// A uniform window ending at `j` forces the run ending at `j` to be at
/// least that long.
proof fn lemma_uniform_window_bounds_run(line: Seq<bool>, i: int, j: int)
    requires
        0 <= i <= j < line.len(),
        uniform_between(line, i, j),
    ensures
        run_ending_at(line, j) >= j - i + 1,
    decreases j - i,
{
    lemma_run_ending_at_uniform(line, j);
    if j > i {
        assert(uniform_between(line, i, j - 1));
        lemma_uniform_window_bounds_run(line, i, j - 1);
        assert(line[j] == line[i] && line[j - 1] == line[i]);
    }
}

/// Scans the binarized line for a run of identical values strictly wider
/// than `max_width`.
pub fn contains_large_white_black_regions(line: &Vec<bool>, max_width: usize) -> (r: bool)
    ensures
        r == has_uniform_run_exceeding(line@, max_width as int),
{
    let n: usize = line.len();
    if n == 0 {
        return false;
    }
    if max_width == 0 {
        proof {
            assert(uniform_between(line@, 0, 0 + max_width as int));
        }
        return true;
    }
    let mut count: usize = 1;
    let mut i: usize = 1;
    while i < n
        invariant
            1 <= i <= n,
            n == line@.len(),
            1 <= max_width,
            count <= i,
            count == run_ending_at(line@, i - 1),
            count <= max_width,
            forall|a: int|
                0 <= a && a + max_width <= i - 1 ==> !(#[trigger] uniform_between(
                    line@,
                    a,
                    a + max_width,
                )),
        decreases n - i,
    {
        if line[i] == line[i - 1] {
            count = count + 1;
        } else {
            count = 1;
        }
        assert(count == run_ending_at(line@, i as int));
        if count > max_width {
            proof {
                lemma_run_ending_at_uniform(line@, i as int);
                let s = i - run_ending_at(line@, i as int) + 1;
                let a = i - max_width;
                assert(s <= a);
                assert forall|t: int| a <= t <= a + max_width implies line@[t] == line@[a] by {
                    assert(uniform_between(line@, s, i as int));
                    assert(line@[t] == line@[s]);
                    assert(line@[a] == line@[s]);
                }
                assert(uniform_between(line@, a, a + max_width));
            }
            return true;
        }
        proof {
            let a = i - max_width;
            if a >= 0 && uniform_between(line@, a, a + max_width) {
                lemma_uniform_window_bounds_run(line@, a, i as int);
            }
        }
        i = i + 1;
    }
    proof {
        assert forall|a: int|
            0 <= a && a + max_width < line@.len() implies !(#[trigger] uniform_between(
            line@,
            a,
            a + max_width,
        )) by {
            assert(a + max_width <= i - 1);
        }
    }
    false
}

} // verus!
