//! Measurements taken on frames of a recorded play.
use std::collections::BTreeMap;
use vstd::prelude::*;

verus! {

#[derive(Clone, Copy, PartialEq, Eq, PartialOrd, Ord, Hash, Debug)]
pub enum SegmentListKind {
    Add,
    Remove,
    Measure,
}

#[derive(Debug)]
pub struct VideoIntegralResult {
    pub results: BTreeMap<i64, IntegralResult>,
}

#[derive(Debug)]
pub struct IntegralResult {
    /// Sum of the luma of a strip at the top left of the frame.
    pub top_left: u64,
    /// Which of the bottom markers is lit (1 to 8), or 0 for none.
    pub bottom: usize,
}

/// Number of bottom markers.
pub const PROBE_COUNT: usize = 8;

/// Luma above which a marker counts as lit.
pub const LIT_THRESHOLD: u8 = 216;

/// Column and row of the `k`-th bottom marker, 0-based.
pub open spec fn probe_point(k: int) -> (int, int) {
    if k == 0 {
        (960, 743)
    } else if k == 1 {
        (1028, 647)
    } else if k == 2 {
        (916, 800)
    } else if k == 3 {
        (482, 743)
    } else if k == 4 {
        (484, 866)
    } else if k == 5 {
        (988, 814)
    } else if k == 6 {
        (1437, 745)
    } else {
        (1449, 854)
    }
}

/// Index of the `k`-th marker's pixel in a plane with rows of `stride` bytes.
pub open spec fn probe_index(k: int, stride: int) -> int {
    probe_point(k).0 + stride * probe_point(k).1
}

/// Whether the markers from the `k`-th on can be read in order until one is
/// lit: each one looked at lies within `plane`.
pub open spec fn probes_readable(plane: Seq<u8>, stride: int, k: int) -> bool
    decreases PROBE_COUNT - k,
{
    if k >= PROBE_COUNT {
        true
    } else {
        &&& probe_index(k, stride) < plane.len()
        &&& (plane[probe_index(k, stride)] > LIT_THRESHOLD || probes_readable(plane, stride, k + 1))
    }
}

/// The first lit marker from the `k`-th on, counted from 1, or 0 if none is lit.
pub open spec fn first_lit_probe(plane: Seq<u8>, stride: int, k: int) -> int
    decreases PROBE_COUNT - k,
{
    if k >= PROBE_COUNT {
        0
    } else if plane[probe_index(k, stride)] > LIT_THRESHOLD {
        k + 1
    } else {
        first_lit_probe(plane, stride, k + 1)
    }
}

/// Sum of `plane[from..to]`.
pub open spec fn luma_sum(plane: Seq<u8>, from: int, to: int) -> int
    decreases to - from,
{
    if to <= from {
        0
    } else {
        luma_sum(plane, from, to - 1) + plane[to - 1]
    }
}

fn probe(k: usize) -> (r: (usize, usize))
    requires
        k < PROBE_COUNT,
    ensures
        r.0 == probe_point(k as int).0,
        r.1 == probe_point(k as int).1,
{
    match k {
        0 => (960, 743),
        1 => (1028, 647),
        2 => (916, 800),
        3 => (482, 743),
        4 => (484, 866),
        5 => (988, 814),
        6 => (1437, 745),
        _ => (1449, 854),
    }
}

/// Measures the luma plane of a frame whose rows are `stride` bytes apart:
/// the sum of the top-left strip (bytes 192 to 251 of the first row) and
/// the first lit bottom marker.
pub fn integrate_some_fraction(plane: &[u8], stride: usize) -> (r: IntegralResult)
    requires
        plane@.len() >= 252,
        probes_readable(plane@, stride as int, 0),
    ensures
        r.top_left == luma_sum(plane@, 192, 252),
        r.bottom == first_lit_probe(plane@, stride as int, 0),
{
    let mut top_left: u64 = 0;
    let mut i: usize = 192;
    while i < 252
        invariant
            192 <= i <= 252,
            plane@.len() >= 252,
            top_left == luma_sum(plane@, 192, i as int),
            top_left <= 255 * (i - 192),
        decreases 252 - i,
    {
        top_left = top_left + plane[i] as u64;
        i += 1;
    }
    let mut k: usize = 0;
    while k < PROBE_COUNT
        invariant
            k <= PROBE_COUNT,
            top_left == luma_sum(plane@, 192, 252),
            probes_readable(plane@, stride as int, k as int),
            first_lit_probe(plane@, stride as int, 0) == first_lit_probe(plane@, stride as int, k as int),
        decreases PROBE_COUNT - k,
    {
        let (x, y) = probe(k);
        let index = x as u128 + stride as u128 * y as u128;
        proof {
            assert(index == probe_index(k as int, stride as int)) by (nonlinear_arith)
                requires
                    index == x + stride * y,
                    x == probe_point(k as int).0,
                    y == probe_point(k as int).1,
            ;
        }
        let index = index as usize;
        if plane[index] > LIT_THRESHOLD {
            return IntegralResult { top_left, bottom: k + 1 };
        }
        k += 1;
    }
    IntegralResult { top_left, bottom: 0 }
}

} // verus!
