//! Axis-aligned boxes and their overlap.
//!
//! Coordinates are fixed-point integers in a unit chosen by the caller.
//! The intersection-over-union of two boxes is the ratio of two areas.
//! [`exceeds_overlap`] compares that ratio exactly with a threshold in
//! millionths; [`iou`] gives it as a number of millionths, rounded down,
//! where [`UNIT`] stands for 1.0.

use crate::fixed::{max_int, min_int, UNIT};
use vstd::prelude::*;

verus! {

/// Largest magnitude of a box coordinate for which areas are computed.
pub const COORD_LIMIT: i64 = 0x100_0000_0000;

/// A box given by two opposite corners, `(x1, y1)` and `(x2, y2)`.
///
/// A box whose second corner is not strictly beyond its first on both axes
/// covers nothing: its area is zero.
#[derive(Clone, Copy, Debug, PartialEq, Eq, Structural)]
pub struct BoundingBox {
    pub x1: i64,
    pub y1: i64,
    pub x2: i64,
    pub y2: i64,
}

/// Length of the interval from `lo` to `hi`, zero when it is empty.
pub open spec fn span(lo: int, hi: int) -> int {
    if hi > lo {
        hi - lo
    } else {
        0
    }
}

impl BoundingBox {
    /// Every coordinate is within [`COORD_LIMIT`] of the origin.
    pub open spec fn in_range(self) -> bool {
        &&& -COORD_LIMIT <= self.x1 <= COORD_LIMIT
        &&& -COORD_LIMIT <= self.y1 <= COORD_LIMIT
        &&& -COORD_LIMIT <= self.x2 <= COORD_LIMIT
        &&& -COORD_LIMIT <= self.y2 <= COORD_LIMIT
    }

    /// Horizontal extent.
    pub open spec fn width(self) -> int {
        span(self.x1 as int, self.x2 as int)
    }

    /// Vertical extent.
    pub open spec fn height(self) -> int {
        span(self.y1 as int, self.y2 as int)
    }

    /// Area covered by the box.
    pub open spec fn area(self) -> int {
        self.width() * self.height()
    }

    /// Computes the area covered by the box.
    pub fn compute_area(&self) -> (r: i128)
        requires
            self.in_range(),
        ensures
            r == self.area(),
            0 <= r <= 4 * COORD_LIMIT * COORD_LIMIT,
    {
        let w = interval_length(self.x1, self.x2);
        let h = interval_length(self.y1, self.y2);
        proof {
            lemma_product_bounds(w as int, h as int, 2 * COORD_LIMIT, 2 * COORD_LIMIT);
        }
        w * h
    }
}

/// Area common to two boxes.
pub open spec fn intersection_area(a: BoundingBox, b: BoundingBox) -> int {
    span(max_int(a.x1 as int, b.x1 as int), min_int(a.x2 as int, b.x2 as int)) * span(
        max_int(a.y1 as int, b.y1 as int),
        min_int(a.y2 as int, b.y2 as int),
    )
}

/// Area covered by at least one of two boxes.
pub open spec fn union_area(a: BoundingBox, b: BoundingBox) -> int {
    a.area() + b.area() - intersection_area(a, b)
}

/// Intersection-over-union of two boxes in millionths, rounded down.
/// It is zero when the union covers nothing.
pub open spec fn iou_value(a: BoundingBox, b: BoundingBox) -> int {
    if union_area(a, b) <= 0 {
        0
    } else {
        intersection_area(a, b) * UNIT / union_area(a, b)
    }
}

/// Whether the intersection-over-union of two boxes exceeds `threshold`
/// millionths. The ratio is compared exactly, without rounding: it is
/// `intersection_area / union_area`, and zero when the union covers nothing.
pub open spec fn overlap_exceeds(a: BoundingBox, b: BoundingBox, threshold: int) -> bool {
    if union_area(a, b) <= 0 {
        0 > threshold
    } else {
        intersection_area(a, b) * UNIT > threshold * union_area(a, b)
    }
}

/// Two boxes that share no interior point.
pub open spec fn disjoint(a: BoundingBox, b: BoundingBox) -> bool {
    a.x2 <= b.x1 || b.x2 <= a.x1 || a.y2 <= b.y1 || b.y2 <= a.y1
}

/// A product of bounded non-negative factors is bounded by the product of the
/// bounds.
pub proof fn lemma_product_bounds(w: int, h: int, w_max: int, h_max: int)
    requires
        0 <= w <= w_max,
        0 <= h <= h_max,
    ensures
        0 <= w * h <= w_max * h_max,
{
    assert(0 <= w * h) by (nonlinear_arith)
        requires
            0 <= w,
            0 <= h,
    ;
    assert(w * h <= w_max * h) by (nonlinear_arith)
        requires
            w <= w_max,
            0 <= h,
    ;
    assert(w_max * h <= w_max * h_max) by (nonlinear_arith)
        requires
            0 <= w_max,
            h <= h_max,
    ;
}

/// The intersection of two boxes is no larger than either of them.
pub proof fn lemma_intersection_bounds(a: BoundingBox, b: BoundingBox)
    ensures
        0 <= intersection_area(a, b) <= a.area(),
        intersection_area(a, b) <= b.area(),
        intersection_area(a, b) <= union_area(a, b),
        a.area() <= union_area(a, b),
        b.area() <= union_area(a, b),
{
    let iw = span(max_int(a.x1 as int, b.x1 as int), min_int(a.x2 as int, b.x2 as int));
    let ih = span(max_int(a.y1 as int, b.y1 as int), min_int(a.y2 as int, b.y2 as int));
    lemma_product_bounds(iw, ih, a.width(), a.height());
    lemma_product_bounds(iw, ih, b.width(), b.height());
}

/// Intersection-over-union does not depend on the order of the boxes.
pub proof fn lemma_iou_symmetric(a: BoundingBox, b: BoundingBox)
    ensures
        intersection_area(a, b) == intersection_area(b, a),
        union_area(a, b) == union_area(b, a),
        iou_value(a, b) == iou_value(b, a),
{
}

/// Intersection-over-union lies between 0.0 and 1.0.
pub proof fn lemma_iou_range(a: BoundingBox, b: BoundingBox)
    ensures
        0 <= iou_value(a, b) <= UNIT,
{
    lemma_intersection_bounds(a, b);
    let i = intersection_area(a, b);
    let u = union_area(a, b);
    if u > 0 {
        lemma_scaled_ratio_bounds(i, u);
    }
}

/// For `0 <= i <= u` and `u > 0`, the ratio `i / u` in millionths lies
/// between 0 and [`UNIT`], and reaches [`UNIT`] when `i == u`.
pub proof fn lemma_scaled_ratio_bounds(i: int, u: int)
    requires
        0 <= i <= u,
        0 < u,
    ensures
        0 <= i * UNIT / u <= UNIT,
        i == u ==> i * UNIT / u == UNIT,
        i == 0 ==> i * UNIT / u == 0,
{
    let n = i * UNIT;
    assert(0 <= n <= u * UNIT) by (nonlinear_arith)
        requires
            0 <= i <= u,
            n == i * UNIT,
    ;
    assert(0 <= n / u <= UNIT) by (nonlinear_arith)
        requires
            0 <= n <= u * UNIT,
            0 < u,
    ;
    if i == u {
        assert(n / u == UNIT) by (nonlinear_arith)
            requires
                n == u * UNIT,
                0 < u,
        ;
    }
    if i == 0 {
        assert(n == 0);
        assert(0int / u == 0) by (nonlinear_arith)
            requires
                0 < u,
        ;
    }
}

/// A box that covers something overlaps itself completely: the ratio is 1.0.
pub proof fn lemma_iou_identical(a: BoundingBox)
    requires
        a.area() > 0,
    ensures
        iou_value(a, a) == UNIT,
{
    assert(intersection_area(a, a) == a.area());
    lemma_scaled_ratio_bounds(a.area(), a.area());
}

/// Boxes that share no interior point do not overlap: the ratio is 0.0.
pub proof fn lemma_iou_disjoint(a: BoundingBox, b: BoundingBox)
    requires
        disjoint(a, b),
    ensures
        intersection_area(a, b) == 0,
        iou_value(a, b) == 0,
{
    let iw = span(max_int(a.x1 as int, b.x1 as int), min_int(a.x2 as int, b.x2 as int));
    let ih = span(max_int(a.y1 as int, b.y1 as int), min_int(a.y2 as int, b.y2 as int));
    assert(iw == 0 || ih == 0);
    assert(iw * ih == 0) by (nonlinear_arith)
        requires
            iw == 0 || ih == 0,
    ;
    lemma_intersection_bounds(a, b);
    if union_area(a, b) > 0 {
        lemma_scaled_ratio_bounds(0, union_area(a, b));
    }
}

/// A box that covers nothing overlaps nothing: the ratio is 0.0 whatever the
/// other box is, and no division by zero arises.
pub proof fn lemma_iou_zero_area(a: BoundingBox, b: BoundingBox)
    requires
        a.area() == 0,
    ensures
        iou_value(a, b) == 0,
        iou_value(b, a) == 0,
{
    lemma_intersection_bounds(a, b);
    lemma_iou_symmetric(a, b);
    if union_area(a, b) > 0 {
        lemma_scaled_ratio_bounds(0, union_area(a, b));
    }
}

/// The exact comparison does not depend on the order of the boxes.
pub proof fn lemma_overlap_symmetric(a: BoundingBox, b: BoundingBox, threshold: int)
    ensures
        overlap_exceeds(a, b, threshold) == overlap_exceeds(b, a, threshold),
{
}

/// The rounded ratio and the exact comparison agree up to the rounding: a
/// rounded ratio above the threshold exceeds it, and a ratio that exceeds
/// the threshold is not rounded to less than it.
pub proof fn lemma_overlap_and_ratio(a: BoundingBox, b: BoundingBox, threshold: int)
    ensures
        iou_value(a, b) > threshold ==> overlap_exceeds(a, b, threshold),
        overlap_exceeds(a, b, threshold) ==> iou_value(a, b) >= threshold,
{
    let u = union_area(a, b);
    if u > 0 {
        let x = intersection_area(a, b) * UNIT;
        let q = x / u;
        let r = x % u;
        vstd::arithmetic::div_mod::lemma_fundamental_div_mod(x, u);
        vstd::arithmetic::div_mod::lemma_mod_pos_bound(x, u);
        if q > threshold {
            assert(x > threshold * u) by (nonlinear_arith)
                requires
                    x == u * q + r,
                    0 <= r,
                    q >= threshold + 1,
                    0 < u,
            ;
        }
        if x > threshold * u {
            assert(q >= threshold) by (nonlinear_arith)
                requires
                    x == u * q + r,
                    r < u,
                    x > threshold * u,
                    0 < u,
            ;
        }
    }
}

/// Boxes that share no interior point, and boxes of which one covers
/// nothing, exceed no threshold that is not negative.
pub proof fn lemma_no_overlap_exceeds_nothing(a: BoundingBox, b: BoundingBox, threshold: int)
    requires
        disjoint(a, b) || a.area() == 0 || b.area() == 0,
    ensures
        overlap_exceeds(a, b, threshold) <==> threshold < 0,
{
    lemma_intersection_bounds(a, b);
    if disjoint(a, b) {
        lemma_iou_disjoint(a, b);
    }
    let u = union_area(a, b);
    assert(intersection_area(a, b) == 0);
    if u > 0 {
        assert((threshold * u < 0) <==> threshold < 0) by (nonlinear_arith)
            requires
                0 < u,
        ;
    }
}

/// A box that covers something exceeds, with itself, every threshold below
/// 1.0 and no other.
pub proof fn lemma_identical_overlap(a: BoundingBox, threshold: int)
    requires
        a.area() > 0,
    ensures
        overlap_exceeds(a, a, threshold) <==> threshold < UNIT,
{
    let u = a.area();
    assert(intersection_area(a, a) == u);
    assert((u * UNIT > threshold * u) <==> threshold < UNIT) by (nonlinear_arith)
        requires
            0 < u,
    ;
}

/// Length of the interval from `lo` to `hi`, zero when it is empty.
fn interval_length(lo: i64, hi: i64) -> (r: i128)
    requires
        -COORD_LIMIT <= lo <= COORD_LIMIT,
        -COORD_LIMIT <= hi <= COORD_LIMIT,
    ensures
        r == span(lo as int, hi as int),
        0 <= r <= 2 * COORD_LIMIT,
{
    if hi > lo {
        (hi - lo) as i128
    } else {
        0
    }
}

/// Area common to two boxes.
pub fn intersection(a: &BoundingBox, b: &BoundingBox) -> (r: i128)
    requires
        a.in_range(),
        b.in_range(),
    ensures
        r == intersection_area(*a, *b),
        0 <= r <= 4 * COORD_LIMIT * COORD_LIMIT,
{
    let left = if a.x1 >= b.x1 {
        a.x1
    } else {
        b.x1
    };
    let right = if a.x2 <= b.x2 {
        a.x2
    } else {
        b.x2
    };
    let top = if a.y1 >= b.y1 {
        a.y1
    } else {
        b.y1
    };
    let bottom = if a.y2 <= b.y2 {
        a.y2
    } else {
        b.y2
    };
    let w = interval_length(left, right);
    let h = interval_length(top, bottom);
    proof {
        lemma_product_bounds(w as int, h as int, 2 * COORD_LIMIT, 2 * COORD_LIMIT);
    }
    w * h
}

/// Intersection-over-union of two boxes in millionths, rounded down; zero
/// when the union covers nothing.
pub fn iou(a: &BoundingBox, b: &BoundingBox) -> (r: i32)
    requires
        a.in_range(),
        b.in_range(),
    ensures
        r == iou_value(*a, *b),
        0 <= r <= UNIT,
{
    let inter = intersection(a, b);
    let area_a = a.compute_area();
    let area_b = b.compute_area();
    proof {
        lemma_intersection_bounds(*a, *b);
        lemma_iou_range(*a, *b);
    }
    let union = area_a + area_b - inter;
    if union <= 0 {
        0
    } else {
        let scaled: u128 = (inter as u128) * (UNIT as u128);
        let ratio: u128 = scaled / (union as u128);
        ratio as i32
    }
}

/// Whether the intersection-over-union of two boxes exceeds `threshold`
/// millionths, compared exactly.
pub fn exceeds_overlap(a: &BoundingBox, b: &BoundingBox, threshold: i32) -> (r: bool)
    requires
        a.in_range(),
        b.in_range(),
    ensures
        r == overlap_exceeds(*a, *b, threshold as int),
{
    let inter = intersection(a, b);
    let area_a = a.compute_area();
    let area_b = b.compute_area();
    proof {
        lemma_intersection_bounds(*a, *b);
    }
    let union = area_a + area_b - inter;
    if union <= 0 {
        0 > threshold
    } else {
        let limit: i128 = 4 * (COORD_LIMIT as i128) * (COORD_LIMIT as i128);
        proof {
            assert(-0x8000_0000 * (2 * limit) <= threshold * union <= 0x8000_0000 * (2 * limit))
                by (nonlinear_arith)
                requires
                    -0x8000_0000 <= threshold <= 0x8000_0000,
                    0 <= union <= 2 * limit,
            ;
            assert(0 <= inter * UNIT <= limit * UNIT) by (nonlinear_arith)
                requires
                    0 <= inter <= limit,
            ;
        }
        inter * (UNIT as i128) > (threshold as i128) * union
    }
}

} // verus!
