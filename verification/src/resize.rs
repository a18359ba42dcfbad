//! Bilinear resampling of a frame to a given size.
//!
//! Pixel centres are aligned: the centre of output pixel `i` of `out_len`
//! lies at `(i + 1/2) * in_len / out_len - 1/2` on the source axis, clamped
//! to the source. Each output sample is the average of the four nearest
//! source samples, weighted by distance and rounded to the nearest integer
//! (halves up). All of it is computed exactly, in integers.

use crate::encoder::EncodeError;
use crate::frame::{lemma_product_order, Frame, FrameView};
use crate::layout::lemma_offset_join;
use vstd::prelude::*;

verus! {

/// Source position of output index `i`, times `2 * out_len`.
pub open spec fn source_numerator(i: int, out_len: int, in_len: int) -> int {
    (2 * i + 1) * in_len - out_len
}

/// Index of the source sample at or just before the source position.
pub open spec fn source_base(i: int, out_len: int, in_len: int) -> int {
    if source_numerator(i, out_len, in_len) <= 0 {
        0
    } else {
        source_numerator(i, out_len, in_len) / (2 * out_len)
    }
}

/// Weight of the sample after [`source_base`], out of `2 * out_len`.
pub open spec fn source_weight(i: int, out_len: int, in_len: int) -> int {
    if source_numerator(i, out_len, in_len) <= 0 {
        0
    } else {
        source_numerator(i, out_len, in_len) % (2 * out_len)
    }
}

/// Index of the sample after `base`, or `base` itself at the end of the axis.
pub open spec fn next_index(base: int, in_len: int) -> int {
    if base + 1 < in_len {
        base + 1
    } else {
        base
    }
}

/// Average of four samples with weights `wx` of `dx` and `wy` of `dy` for
/// the far samples, rounded to the nearest integer.
pub open spec fn blend(
    p00: int,
    p01: int,
    p10: int,
    p11: int,
    wx: int,
    dx: int,
    wy: int,
    dy: int,
) -> int {
    ((dy - wy) * ((dx - wx) * p00 + wx * p01) + wy * ((dx - wx) * p10 + wx * p11) + (dx * dy)
        / 2) / (dx * dy)
}

/// The sample of channel `c` at row `y` and column `x` of the frame `f`
/// resampled to `height` rows and `width` columns.
pub open spec fn bilinear(f: FrameView, height: int, width: int, y: int, x: int, c: int) -> int {
    let y0 = source_base(y, height, f.rows as int);
    let y1 = next_index(y0, f.rows as int);
    let x0 = source_base(x, width, f.cols as int);
    let x1 = next_index(x0, f.cols as int);
    blend(
        f.sample(y0, x0, c) as int,
        f.sample(y0, x1, c) as int,
        f.sample(y1, x0, c) as int,
        f.sample(y1, x1, c) as int,
        source_weight(x, width, f.cols as int),
        2 * width,
        source_weight(y, height, f.rows as int),
        2 * height,
    )
}

/// The sample at offset `k` of the resampled frame.
pub open spec fn resized_sample(f: FrameView, height: int, width: int, k: int) -> u8 {
    bilinear(
        f,
        height,
        width,
        k / (width * f.channels),
        (k / (f.channels as int)) % width,
        k % (f.channels as int),
    ) as u8
}

/// The frame `f` resampled to `height` rows and `width` columns.
pub open spec fn resized(f: FrameView, height: nat, width: nat) -> FrameView {
    FrameView {
        rows: height,
        cols: width,
        channels: f.channels,
        samples: Seq::new(
            height * width * f.channels,
            |k: int| resized_sample(f, height as int, width as int, k),
        ),
    }
}

/// The source position of an output index lies on the source axis.
pub proof fn lemma_source_position(i: int, out_len: int, in_len: int)
    requires
        0 <= i < out_len,
        0 < in_len,
    ensures
        0 <= source_base(i, out_len, in_len) < in_len,
        0 <= source_weight(i, out_len, in_len) < 2 * out_len,
        source_base(i, out_len, in_len) <= next_index(source_base(i, out_len, in_len), in_len)
            < in_len,
{
    let n = source_numerator(i, out_len, in_len);
    let d = 2 * out_len;
    if n > 0 {
        assert(n < d * in_len) by (nonlinear_arith)
            requires
                n == (2 * i + 1) * in_len - out_len,
                0 <= i < out_len,
                0 < in_len,
                d == 2 * out_len,
        ;
        vstd::arithmetic::div_mod::lemma_fundamental_div_mod(n, d);
        vstd::arithmetic::div_mod::lemma_mod_pos_bound(n, d);
        let q = n / d;
        let r = n % d;
        assert(0 <= q < in_len) by (nonlinear_arith)
            requires
                n == d * q + r,
                0 <= r < d,
                0 < n < d * in_len,
                0 < d,
        ;
    }
}

/// A blend of 8-bit samples is an 8-bit sample.
pub proof fn lemma_blend_range(
    p00: int,
    p01: int,
    p10: int,
    p11: int,
    wx: int,
    dx: int,
    wy: int,
    dy: int,
)
    requires
        0 <= p00 <= 255,
        0 <= p01 <= 255,
        0 <= p10 <= 255,
        0 <= p11 <= 255,
        0 <= wx <= dx,
        0 <= wy <= dy,
        0 < dx,
        0 < dy,
    ensures
        0 <= blend(p00, p01, p10, p11, wx, dx, wy, dy) <= 255,
        0 <= (dx - wx) * p00 + wx * p01 <= 255 * dx,
        0 <= (dx - wx) * p10 + wx * p11 <= 255 * dx,
        0 <= (dy - wy) * ((dx - wx) * p00 + wx * p01) + wy * ((dx - wx) * p10 + wx * p11) <= 255
            * (dx * dy),
        0 < dx * dy,
{
    let top = (dx - wx) * p00 + wx * p01;
    let bottom = (dx - wx) * p10 + wx * p11;
    lemma_weighted_pair(p00, p01, wx, dx, 255);
    lemma_weighted_pair(p10, p11, wx, dx, 255);
    lemma_weighted_pair(top, bottom, wy, dy, 255 * dx);
    let total = (dy - wy) * top + wy * bottom;
    let d = dx * dy;
    assert(0 < d) by (nonlinear_arith)
        requires
            0 < dx,
            0 < dy,
            d == dx * dy,
    ;
    assert(255 * dx * dy == 255 * d) by (nonlinear_arith)
        requires
            d == dx * dy,
    ;
    let half = d / 2;
    assert(0 <= half < d);
    let q = (total + half) / d;
    vstd::arithmetic::div_mod::lemma_fundamental_div_mod(total + half, d);
    vstd::arithmetic::div_mod::lemma_mod_pos_bound(total + half, d);
    let r = (total + half) % d;
    assert(0 <= q <= 255) by (nonlinear_arith)
        requires
            total + half == d * q + r,
            0 <= r < d,
            0 <= total <= 255 * d,
            0 <= half < d,
            0 < d,
    ;
}

/// A weighted pair of bounded values is bounded by the weight total times
/// the bound.
pub proof fn lemma_weighted_pair(a: int, b: int, w: int, d: int, bound: int)
    requires
        0 <= a <= bound,
        0 <= b <= bound,
        0 <= w <= d,
    ensures
        0 <= (d - w) * a + w * b <= bound * d,
{
    assert(0 <= (d - w) * a <= (d - w) * bound) by (nonlinear_arith)
        requires
            0 <= a <= bound,
            0 <= d - w,
    ;
    assert(0 <= w * b <= w * bound) by (nonlinear_arith)
        requires
            0 <= b <= bound,
            0 <= w,
    ;
    assert((d - w) * bound + w * bound == bound * d) by (nonlinear_arith);
}

/// A bilinear sample of a frame of 8-bit samples is an 8-bit sample.
pub proof fn lemma_bilinear_range(f: FrameView, height: int, width: int, y: int, x: int, c: int)
    requires
        !f.is_empty(),
        0 <= y < height,
        0 <= x < width,
    ensures
        0 <= bilinear(f, height, width, y, x, c) <= 255,
{
    lemma_source_position(y, height, f.rows as int);
    lemma_source_position(x, width, f.cols as int);
    let y0 = source_base(y, height, f.rows as int);
    let y1 = next_index(y0, f.rows as int);
    let x0 = source_base(x, width, f.cols as int);
    let x1 = next_index(x0, f.cols as int);
    lemma_blend_range(
        f.sample(y0, x0, c) as int,
        f.sample(y0, x1, c) as int,
        f.sample(y1, x0, c) as int,
        f.sample(y1, x1, c) as int,
        source_weight(x, width, f.cols as int),
        2 * width,
        source_weight(y, height, f.rows as int),
        2 * height,
    );
}

/// A blend of four equal samples is that sample.
pub proof fn lemma_blend_of_equal_samples(p: int, wx: int, dx: int, wy: int, dy: int)
    requires
        0 < dx,
        0 < dy,
    ensures
        blend(p, p, p, p, wx, dx, wy, dy) == p,
{
    let d = dx * dy;
    assert(0 < d) by (nonlinear_arith)
        requires
            0 < dx,
            0 < dy,
            d == dx * dy,
    ;
    assert((dy - wy) * ((dx - wx) * p + wx * p) + wy * ((dx - wx) * p + wx * p) == d * p)
        by (nonlinear_arith)
        requires
            d == dx * dy,
    ;
    vstd::arithmetic::div_mod::lemma_fundamental_div_mod_converse(d * p + d / 2, d, p, d / 2);
}

/// Resampling a frame to its own size changes nothing.
pub proof fn lemma_same_size_is_identity(f: FrameView, y: int, x: int, c: int)
    requires
        f.has(y, x, c),
    ensures
        bilinear(f, f.rows as int, f.cols as int, y, x, c) == f.sample(y, x, c),
{
    let rows = f.rows as int;
    let cols = f.cols as int;
    lemma_same_length_position(y, rows);
    lemma_same_length_position(x, cols);
    let p = f.sample(y, x, c) as int;
    let dx = 2 * cols;
    let dy = 2 * rows;
    let y1 = next_index(y, rows);
    let x1 = next_index(x, cols);
    let p01 = f.sample(y, x1, c) as int;
    let p10 = f.sample(y1, x, c) as int;
    let p11 = f.sample(y1, x1, c) as int;
    let d = dx * dy;
    assert(0 < d) by (nonlinear_arith)
        requires
            0 < dx,
            0 < dy,
            d == dx * dy,
    ;
    assert((dy - 0) * ((dx - 0) * p + 0 * p01) + 0 * ((dx - 0) * p10 + 0 * p11) == d * p)
        by (nonlinear_arith)
        requires
            d == dx * dy,
    ;
    let half = d / 2;
    vstd::arithmetic::div_mod::lemma_fundamental_div_mod_converse(d * p + half, d, p, half);
}

/// With equal lengths every output index sits exactly on its source index.
proof fn lemma_same_length_position(i: int, len: int)
    requires
        0 <= i < len,
    ensures
        source_base(i, len, len) == i,
        source_weight(i, len, len) == 0,
{
    let n = source_numerator(i, len, len);
    assert(n == i * (2 * len) + 0) by (nonlinear_arith)
        requires
            n == (2 * i + 1) * len - len,
    ;
    if n > 0 {
        vstd::arithmetic::div_mod::lemma_fundamental_div_mod_converse(n, 2 * len, i, 0);
    } else {
        assert(i == 0) by (nonlinear_arith)
            requires
                i * (2 * len) <= 0,
                0 <= i,
                0 < len,
        ;
    }
}

/// Source index and weight for output index `i`.
fn source_position(i: usize, out_len: usize, in_len: usize) -> (r: (usize, u128))
    requires
        i < out_len <= isize::MAX,
        0 < in_len,
    ensures
        r.0 == source_base(i as int, out_len as int, in_len as int),
        r.1 == source_weight(i as int, out_len as int, in_len as int),
        r.0 < in_len,
        r.1 < 2 * out_len,
{
    proof {
        lemma_source_position(i as int, out_len as int, in_len as int);
    }
    let step: u128 = 2 * (i as u128) + 1;
    assert(step * (in_len as u128) <= 0xFFFF_FFFF_FFFF_FFFF * 0xFFFF_FFFF_FFFF_FFFF)
        by (nonlinear_arith)
        requires
            0 <= step <= 0xFFFF_FFFF_FFFF_FFFF,
            0 <= in_len <= 0xFFFF_FFFF_FFFF_FFFF,
    ;
    let scaled: u128 = step * (in_len as u128);
    let out: u128 = out_len as u128;
    if scaled <= out {
        (0, 0)
    } else {
        let n: u128 = scaled - out;
        let d: u128 = 2 * out;
        ((n / d) as usize, n % d)
    }
}

/// Weighted average of four samples, rounded to the nearest integer.
fn blend_samples(
    p00: u8,
    p01: u8,
    p10: u8,
    p11: u8,
    wx: u128,
    dx: u128,
    wy: u128,
    dy: u128,
) -> (r: u8)
    requires
        wx <= dx,
        wy <= dy,
        0 < dx,
        0 < dy,
        dx * dy <= 0x4_0000_0000_0000_0000,
    ensures
        r == blend(
            p00 as int,
            p01 as int,
            p10 as int,
            p11 as int,
            wx as int,
            dx as int,
            wy as int,
            dy as int,
        ),
{
    proof {
        lemma_blend_range(
            p00 as int,
            p01 as int,
            p10 as int,
            p11 as int,
            wx as int,
            dx as int,
            wy as int,
            dy as int,
        );
        lemma_factor_bound(dx as int, dy as int);
        lemma_factor_bound(dy as int, dx as int);
        lemma_weighted_pair(p00 as int, 0, wx as int, dx as int, 255);
        lemma_weighted_pair(0, p01 as int, wx as int, dx as int, 255);
        lemma_weighted_pair(p10 as int, 0, wx as int, dx as int, 255);
        lemma_weighted_pair(0, p11 as int, wx as int, dx as int, 255);
    }
    let near_x: u128 = dx - wx;
    let near_y: u128 = dy - wy;
    let top: u128 = near_x * (p00 as u128) + wx * (p01 as u128);
    let bottom: u128 = near_x * (p10 as u128) + wx * (p11 as u128);
    proof {
        lemma_weighted_pair(top as int, 0, wy as int, dy as int, 255 * dx);
        lemma_weighted_pair(0, bottom as int, wy as int, dy as int, 255 * dx);
        assert(255 * dx * dy == 255 * (dx * dy)) by (nonlinear_arith);
    }
    let total: u128 = near_y * top + wy * bottom;
    let d: u128 = dx * dy;
    ((total + d / 2) / d) as u8
}

/// Each factor of a product with a positive other factor is at most the
/// product.
proof fn lemma_factor_bound(a: int, b: int)
    requires
        0 < a,
        0 < b,
    ensures
        a <= a * b,
{
    assert(a <= a * b) by (nonlinear_arith)
        requires
            0 < a,
            1 <= b,
    ;
}

/// The sample of channel `c` at row `y` and column `x` of `frame` resampled
/// to `height` rows and `width` columns.
fn sample_bilinear(frame: &Frame, height: usize, width: usize, y: usize, x: usize, c: usize) -> (r:
    u8)
    requires
        !frame@.is_empty(),
        frame@.wf(),
        y < height,
        x < width,
        c < frame@.channels,
        height * width <= isize::MAX,
    ensures
        r == bilinear(frame@, height as int, width as int, y as int, x as int, c as int),
{
    let rows = frame.rows();
    let cols = frame.cols();
    proof {
        lemma_factor_bound(height as int, width as int);
        lemma_factor_bound(width as int, height as int);
        assert(height * width == width * height) by (nonlinear_arith);
    }
    let (y0, wy) = source_position(y, height, rows);
    let (x0, wx) = source_position(x, width, cols);
    let y1 = if y0 + 1 < rows {
        y0 + 1
    } else {
        y0
    };
    let x1 = if x0 + 1 < cols {
        x0 + 1
    } else {
        x0
    };
    let dx: u128 = 2 * (width as u128);
    let dy: u128 = 2 * (height as u128);
    proof {
        assert(dx * dy == 4 * (height * width)) by (nonlinear_arith)
            requires
                dx == 2 * width,
                dy == 2 * height,
        ;
    }
    blend_samples(
        frame.sample(y0, x0, c),
        frame.sample(y0, x1, c),
        frame.sample(y1, x0, c),
        frame.sample(y1, x1, c),
        wx,
        dx,
        wy,
        dy,
    )
}

/// Resamples a frame to `height` rows and `width` columns by bilinear
/// interpolation. A frame without pixels cannot be resampled.
pub fn resize(frame: &Frame, height: usize, width: usize) -> (r: Result<Frame, EncodeError>)
    requires
        height * width * frame@.channels <= isize::MAX,
    ensures
        frame@.is_empty() <==> r matches Err(EncodeError::EmptyFrame),
        !frame@.is_empty() <==> r is Ok,
        r matches Ok(out) ==> out@ == resized(frame@, height as nat, width as nat) && out@.wf(),
{
    if frame.is_empty() {
        return Err(EncodeError::EmptyFrame);
    }
    let channels = frame.channels();
    let ghost target = resized(frame@, height as nat, width as nat);
    if height == 0 || width == 0 || channels == 0 {
        proof {
            assert(height * width * channels == 0) by (nonlinear_arith)
                requires
                    height == 0 || width == 0 || channels == 0,
            ;
        }
        let out: Vec<u8> = Vec::new();
        proof {
            assert(out@ =~= target.samples);
        }
        return Ok(Frame::from_samples(height, width, channels, out));
    }
    proof {
        use_type_invariant(frame);
        lemma_product_order(height as int, width as int, channels as int);
    }
    let pixels: usize = height * width;
    let total: usize = pixels * channels;
    let row_len: usize = {
        proof {
            lemma_factor_bound(width as int, height as int);
            assert(height * width == width * height) by (nonlinear_arith);
            lemma_product_order(width as int, channels as int, height as int);
            assert(width * channels * height == height * width * channels) by (nonlinear_arith);
            lemma_factor_bound(width as int, channels as int);
        }
        width * channels
    };
    let mut out: Vec<u8> = Vec::new();
    let mut k: usize = 0;
    while k < total
        invariant
            !frame@.is_empty(),
            frame@.wf(),
            channels == frame@.channels,
            0 < height,
            0 < width,
            0 < channels,
            height * width <= isize::MAX,
            total == height * width * channels,
            row_len == width * channels,
            0 < row_len,
            target == resized(frame@, height as nat, width as nat),
            0 <= k <= total,
            out@.len() == k,
            forall|j: int| 0 <= j < k ==> out@[j] == #[trigger] target.samples[j],
        decreases total - k,
    {
        proof {
            lemma_offset_join(k as int, height as int, width as int, channels as int);
        }
        let y = k / row_len;
        let x = (k / channels) % width;
        let c = k % channels;
        let v = sample_bilinear(frame, height, width, y, x, c);
        out.push(v);
        k += 1;
    }
    proof {
        assert(out@ =~= target.samples);
    }
    Ok(Frame::from_samples(height, width, channels, out))
}

} // verus!
