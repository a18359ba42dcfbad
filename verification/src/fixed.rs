//! Fixed-point conventions.
//!
//! The library computes in integers. A real quantity is held as an integer
//! number of units: ratios, scores and thresholds between 0.0 and 1.0 are
//! held in millionths, coordinates and tensor values in a unit that the
//! caller chooses.

use vstd::prelude::*;

verus! {

/// The fixed-point representation of 1.0 for ratios, scores and thresholds.
pub const UNIT: i32 = 1_000_000;

/// The larger of two integers.
pub open spec fn max_int(a: int, b: int) -> int {
    if a >= b {
        a
    } else {
        b
    }
}

/// The smaller of two integers.
pub open spec fn min_int(a: int, b: int) -> int {
    if a <= b {
        a
    } else {
        b
    }
}

} // verus!
