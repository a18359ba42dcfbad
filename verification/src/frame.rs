//! Captured frames: rectangular grids of 8-bit samples.
//!
//! Samples are stored row by row, the channels of a pixel next to each
//! other (height, width, channel).

use crate::layout::{lemma_offset_bounds, offset3};
use vstd::prelude::*;

verus! {

/// Mathematical view of a frame.
pub struct FrameView {
    pub rows: nat,
    pub cols: nat,
    pub channels: nat,
    pub samples: Seq<u8>,
}

impl FrameView {
    /// The frame holds one sample for every channel of every pixel.
    pub open spec fn wf(self) -> bool {
        self.samples.len() == self.rows * self.cols * self.channels
    }

    /// A frame without pixels.
    pub open spec fn is_empty(self) -> bool {
        self.rows == 0 || self.cols == 0
    }

    /// Whether `(y, x, c)` names a sample of the frame.
    pub open spec fn has(self, y: int, x: int, c: int) -> bool {
        0 <= y < self.rows && 0 <= x < self.cols && 0 <= c < self.channels
    }

    /// The sample of channel `c` of the pixel in row `y` and column `x`.
    pub open spec fn sample(self, y: int, x: int, c: int) -> u8 {
        self.samples[offset3(y, x, c, self.cols as int, self.channels as int)]
    }
}

/// A frame of 8-bit samples in row-major (height, width, channel) layout.
pub struct Frame {
    rows: usize,
    cols: usize,
    channels: usize,
    data: Vec<u8>,
}

impl View for Frame {
    type V = FrameView;

    closed spec fn view(&self) -> FrameView {
        FrameView {
            rows: self.rows as nat,
            cols: self.cols as nat,
            channels: self.channels as nat,
            samples: self.data@,
        }
    }
}

impl Frame {
    /// Every frame holds one sample for every channel of every pixel.
    #[verifier::type_invariant]
    pub open spec fn well_formed(&self) -> bool {
        self@.wf()
    }

    /// Builds a frame from its dimensions and its samples in row-major
    /// order. Returns `None` when the number of samples is not
    /// `rows * cols * channels`.
    pub fn new(rows: usize, cols: usize, channels: usize, data: Vec<u8>) -> (r: Option<Frame>)
        ensures
            r.is_some() <==> data@.len() == rows * cols * channels,
            r matches Some(f) ==> f@ == (FrameView {
                rows: rows as nat,
                cols: cols as nat,
                channels: channels as nat,
                samples: data@,
            }) && f@.wf(),
    {
        let len = data.len();
        if rows == 0 || cols == 0 || channels == 0 {
            proof {
                lemma_empty_product(rows as int, cols as int, channels as int);
            }
            return if len == 0 {
                Some(Frame { rows, cols, channels, data })
            } else {
                None
            };
        }
        proof {
            lemma_product_order(rows as int, cols as int, channels as int);
        }
        let pixels = match rows.checked_mul(cols) {
            Some(p) => p,
            None => {
                return None;
            },
        };
        match pixels.checked_mul(channels) {
            Some(samples) => {
                if samples == len {
                    Some(Frame { rows, cols, channels, data })
                } else {
                    None
                }
            },
            None => None,
        }
    }

    /// Builds a frame from its dimensions and exactly as many samples as
    /// they ask for.
    pub(crate) fn from_samples(rows: usize, cols: usize, channels: usize, data: Vec<u8>) -> (f:
        Frame)
        requires
            data@.len() == rows * cols * channels,
        ensures
            f@ == (FrameView {
                rows: rows as nat,
                cols: cols as nat,
                channels: channels as nat,
                samples: data@,
            }),
    {
        Frame { rows, cols, channels, data }
    }

    /// Number of pixel rows.
    pub fn rows(&self) -> (r: usize)
        ensures
            r == self@.rows,
    {
        self.rows
    }

    /// Number of pixel columns.
    pub fn cols(&self) -> (r: usize)
        ensures
            r == self@.cols,
    {
        self.cols
    }

    /// Number of samples per pixel.
    pub fn channels(&self) -> (r: usize)
        ensures
            r == self@.channels,
    {
        self.channels
    }

    /// The samples in row-major order.
    pub fn samples(&self) -> (r: &Vec<u8>)
        ensures
            r@ == self@.samples,
    {
        &self.data
    }

    /// Whether the frame has no pixels.
    pub fn is_empty(&self) -> (r: bool)
        ensures
            r == self@.is_empty(),
    {
        self.rows == 0 || self.cols == 0
    }

    /// The sample of channel `c` of the pixel in row `y` and column `x`.
    pub fn sample(&self, y: usize, x: usize, c: usize) -> (r: u8)
        requires
            self@.has(y as int, x as int, c as int),
        ensures
            r == self@.sample(y as int, x as int, c as int),
    {
        proof {
            use_type_invariant(self);
            lemma_offset_bounds(
                y as int,
                x as int,
                c as int,
                self.rows as int,
                self.cols as int,
                self.channels as int,
            );
            lemma_product_order(self.rows as int, self.cols as int, self.channels as int);
            assert(0 <= y * self.cols <= y * self.cols + x) by (nonlinear_arith)
                requires
                    0 <= y,
                    0 <= self.cols,
                    0 <= x,
            ;
            assert(0 <= (y * self.cols + x) * self.channels <= (y * self.cols + x)
                * self.channels + c) by (nonlinear_arith)
                requires
                    0 <= y * self.cols + x,
                    0 <= self.channels,
                    0 <= c,
            ;
        }
        let len = self.data.len();
        assert((y * self.cols + x) * self.channels + c < len);
        self.data[(y * self.cols + x) * self.channels + c]
    }
}

/// With at least one channel, a frame has no more pixels than samples.
pub proof fn lemma_product_order(rows: int, cols: int, channels: int)
    requires
        0 <= rows,
        0 <= cols,
        1 <= channels,
    ensures
        0 <= rows * cols <= rows * cols * channels,
{
    let pixels = rows * cols;
    assert(0 <= pixels) by (nonlinear_arith)
        requires
            0 <= rows,
            0 <= cols,
            pixels == rows * cols,
    ;
    assert(pixels <= pixels * channels) by (nonlinear_arith)
        requires
            0 <= pixels,
            1 <= channels,
    ;
}

/// A frame with an axis of length zero holds no samples.
proof fn lemma_empty_product(rows: int, cols: int, channels: int)
    requires
        rows == 0 || cols == 0 || channels == 0,
    ensures
        rows * cols * channels == 0,
{
    assert(rows * cols * channels == 0) by (nonlinear_arith)
        requires
            rows == 0 || cols == 0 || channels == 0,
    ;
}

} // verus!
