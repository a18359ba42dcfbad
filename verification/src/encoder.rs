//! Encoding a captured frame as the input tensor of a detection model.
//!
//! The frame's channel order is reversed, the frame is resampled to the
//! model's input size, every sample is normalized, and the samples are
//! rearranged from (height, width, channel) to (channel, height, width)
//! behind a batch axis of length one.

use crate::frame::{Frame, FrameView};
use crate::fixed::{max_int, min_int};
use crate::layout::{lemma_offset_bounds, lemma_offset_join, lemma_offset_split, offset3};
use crate::normalization::{lemma_apply_between, Normalization, NormalizationView};
use crate::resize::{bilinear, lemma_bilinear_range, lemma_source_position, resize, resized};
use crate::tensor::{
    allocatable,
    flat_index,
    in_bounds,
    lemma_flat_index4,
    lemma_shape_size4,
    nonzero_size,
    shape_size,
    Tensor,
    TensorView,
};
use vstd::prelude::*;

verus! {

/// Why a frame cannot be encoded.
#[derive(Clone, Copy, Debug, PartialEq, Eq, Structural)]
pub enum EncodeError {
    /// The frame has no pixels.
    EmptyFrame,
    /// The frame does not have three channels.
    UnsupportedFormat,
}

/// Number of channels of a frame that can be encoded.
pub const MODEL_CHANNELS: usize = 3;

/// The input of a model: a tensor of shape `[1, 3, height, width]`.
pub type InputTensor = Tensor;

/// The frame with the first and third channel of every pixel exchanged.
pub open spec fn swapped(f: FrameView) -> FrameView {
    FrameView {
        rows: f.rows,
        cols: f.cols,
        channels: f.channels,
        samples: Seq::new(f.samples.len(), |k: int| f.samples[k + 2 - 2 * (k % 3)]),
    }
}

/// The value at offset `k` of the channel-first, normalized form of a frame.
pub open spec fn planar_value(f: FrameView, n: NormalizationView, k: int) -> i32 {
    let rows = f.rows as int;
    let cols = f.cols as int;
    n.apply(f.sample((k / cols) % rows, k % cols, k / (rows * cols)) as int) as i32
}

/// The samples of a frame, normalized and rearranged channel by channel:
/// the value of channel `c` at row `y` and column `x` lies at offset
/// `(c * rows + y) * cols + x`.
pub open spec fn planar(f: FrameView, n: NormalizationView) -> Seq<i32> {
    Seq::new(f.channels * f.rows * f.cols, |k: int| planar_value(f, n, k))
}

/// The shape of the tensor that encoding produces.
pub open spec fn encoded_shape(height: usize, width: usize) -> Seq<usize> {
    seq![1usize, MODEL_CHANNELS, height, width]
}

/// The elements of the tensor that encoding a frame produces.
pub open spec fn encoded(f: FrameView, height: nat, width: nat, n: NormalizationView) -> Seq<i32> {
    planar(resized(swapped(f), height, width), n)
}

/// Whether `t` is the encoding of the frame `f` for a model that takes
/// images of `height` rows and `width` columns.
pub open spec fn encodes(
    t: TensorView,
    f: FrameView,
    height: usize,
    width: usize,
    n: NormalizationView,
) -> bool {
    t.shape == encoded_shape(height, width) && t.elems == encoded(
        f,
        height as nat,
        width as nat,
        n,
    )
}

/// A tensor of the model's input size can be allocated.
pub open spec fn target_fits(height: usize, width: usize) -> bool {
    allocatable(encoded_shape(height, width))
}

/// Number of elements and allocation size of the shape that encoding
/// produces.
pub proof fn lemma_encoded_shape(height: usize, width: usize)
    ensures
        shape_size(encoded_shape(height, width)) == MODEL_CHANNELS * height * width,
        nonzero_size(encoded_shape(height, width)) == 3 * (if height == 0 {
            1
        } else {
            height as int
        }) * (if width == 0 {
            1
        } else {
            width as int
        }),
        target_fits(height, width) ==> 3 * height * width <= isize::MAX,
{
    let shape = encoded_shape(height, width);
    lemma_shape_size4(shape);
    assert(1 * MODEL_CHANNELS * height * width == MODEL_CHANNELS * height * width)
        by (nonlinear_arith);
    let s3 = shape.drop_last();
    let s2 = s3.drop_last();
    let s1 = s2.drop_last();
    let s0 = s1.drop_last();
    assert(nonzero_size(s0) == 1);
    assert(s1.last() == 1);
    assert(nonzero_size(s1) == 1);
    assert(s2.last() == 3);
    assert(nonzero_size(s2) == 3);
    assert(s3.last() == height);
    assert(shape.last() == width);
    let h = if height == 0 {
        1
    } else {
        height as int
    };
    let w = if width == 0 {
        1
    } else {
        width as int
    };
    assert(nonzero_size(s3) == 3 * h);
    assert(nonzero_size(shape) == 3 * h * w);
    assert(3 * height * width <= 3 * h * w) by (nonlinear_arith)
        requires
            0 <= height <= h,
            0 <= width <= w,
    ;
}

/// Exchanging the first and third channel moves the sample of channel `c`
/// to channel `2 - c`.
pub proof fn lemma_swapped_sample(f: FrameView, y: int, x: int, c: int)
    requires
        f.wf(),
        f.channels == 3,
        f.has(y, x, c),
    ensures
        swapped(f).sample(y, x, c) == f.sample(y, x, 2 - c),
        swapped(f).wf(),
{
    lemma_offset_bounds(y, x, c, f.rows as int, f.cols as int, 3);
    let k = offset3(y, x, c, f.cols as int, 3);
    assert(k % 3 == c);
}

/// Exchanging the channels twice restores the frame.
pub proof fn lemma_swapped_twice(f: FrameView)
    requires
        f.wf(),
        f.channels == 3,
    ensures
        swapped(swapped(f)) == f,
{
    lemma_samples_in_triples(f);
    let once = swapped(f);
    let twice = swapped(once);
    assert(twice.samples =~= f.samples) by {
        assert forall|k: int| 0 <= k < f.samples.len() implies twice.samples[k]
            == f.samples[k] by {
            let j = k + 2 - 2 * (k % 3);
            assert(0 <= j < f.samples.len());
            assert(j % 3 == 2 - k % 3);
            assert(once.samples[j] == f.samples[j + 2 - 2 * (j % 3)]);
        }
    }
}

/// The value of channel `c` at row `y` and column `x` of the planar form is
/// the normalized sample of that channel of that pixel.
pub proof fn lemma_planar_value(f: FrameView, n: NormalizationView, c: int, y: int, x: int)
    requires
        f.has(y, x, c),
    ensures
        0 <= offset3(c, y, x, f.rows as int, f.cols as int) < f.channels * f.rows * f.cols,
        planar(f, n)[offset3(c, y, x, f.rows as int, f.cols as int)] == n.apply(
            f.sample(y, x, c) as int,
        ) as i32,
{
    lemma_offset_bounds(c, y, x, f.channels as int, f.rows as int, f.cols as int);
    lemma_offset_split(c, y, x, f.rows as int, f.cols as int);
}

/// What encoding stores at `[0, c, y, x]`: the normalized value of the
/// bilinear sample of channel `2 - c` of the frame as it was captured.
pub proof fn lemma_encoded_value(
    f: FrameView,
    height: nat,
    width: nat,
    n: NormalizationView,
    c: int,
    y: int,
    x: int,
)
    requires
        f.wf(),
        !f.is_empty(),
        f.channels == 3,
        0 <= c < 3,
        0 <= y < height,
        0 <= x < width,
    ensures
        0 <= offset3(c, y, x, height as int, width as int) < 3 * height * width,
        encoded(f, height, width, n)[offset3(c, y, x, height as int, width as int)] == n.apply(
            bilinear(swapped(f), height as int, width as int, y, x, c),
        ) as i32,
        0 <= bilinear(swapped(f), height as int, width as int, y, x, c) <= 255,
        bilinear(swapped(f), height as int, width as int, y, x, c) == bilinear(
            f,
            height as int,
            width as int,
            y,
            x,
            2 - c,
        ),
{
    let s = swapped(f);
    let r = resized(s, height, width);
    lemma_planar_value(r, n, c, y, x);
    assert(3 * height * width == r.channels * r.rows * r.cols);
    lemma_offset_bounds(y, x, c, height as int, width as int, 3);
    let k = offset3(y, x, c, width as int, 3);
    lemma_offset_split(y, x, c, width as int, 3);
    assert(r.sample(y, x, c) == r.samples[k]);
    lemma_bilinear_swapped(f, height as int, width as int, y, x, c);
    lemma_bilinear_range(s, height as int, width as int, y, x, c);
}

/// Every element of an encoding, read as `[0, c, y, x]`, is the normalized
/// bilinear sample of channel `2 - c` of the frame as it was captured.
pub proof fn lemma_encoded_values(f: FrameView, height: usize, width: usize, n: NormalizationView)
    requires
        f.wf(),
        !f.is_empty(),
        f.channels == 3,
        n.fits(),
    ensures
        encoded(f, height as nat, width as nat, n).len() == 3 * height * width,
        forall|c: int, y: int, x: int|
            0 <= c < 3 && 0 <= y < height && 0 <= x < width ==> #[trigger] encoded(
                f,
                height as nat,
                width as nat,
                n,
            )[offset3(c, y, x, height as int, width as int)] == n.apply(
                bilinear(f, height as int, width as int, y, x, 2 - c),
            ),
{
    let e = encoded(f, height as nat, width as nat, n);
    assert forall|c: int, y: int, x: int|
        0 <= c < 3 && 0 <= y < height && 0 <= x < width implies #[trigger] e[offset3(
        c,
        y,
        x,
        height as int,
        width as int,
    )] == n.apply(bilinear(f, height as int, width as int, y, x, 2 - c)) by {
        lemma_encoded_value(f, height as nat, width as nat, n, c, y, x);
        lemma_apply_between(
            n,
            bilinear(f, height as int, width as int, y, x, 2 - c),
            i32::MIN as int,
            i32::MAX as int,
        );
    }
}

/// Encoding a frame that already has the model's input size resamples
/// nothing: the element `[0, c, y, x]` is the normalized sample of channel
/// `2 - c` of the pixel in row `y` and column `x`.
pub proof fn lemma_encoded_at_native_size(
    f: FrameView,
    height: usize,
    width: usize,
    n: NormalizationView,
    c: int,
    y: int,
    x: int,
)
    requires
        f.wf(),
        f.channels == 3,
        f.rows == height,
        f.cols == width,
        n.fits(),
        f.has(y, x, c),
    ensures
        encoded(f, height as nat, width as nat, n)[offset3(
            c,
            y,
            x,
            height as int,
            width as int,
        )] == n.apply(f.sample(y, x, 2 - c) as int),
{
    lemma_encoded_values(f, height, width, n);
    crate::resize::lemma_same_size_is_identity(f, y, x, 2 - c);
}

/// Every element of an encoding lies between the values that the
/// normalization gives to the darkest and to the brightest sample.
pub proof fn lemma_encoded_range(
    f: FrameView,
    height: usize,
    width: usize,
    n: NormalizationView,
    k: int,
)
    requires
        f.wf(),
        !f.is_empty(),
        f.channels == 3,
        n.fits(),
        0 <= k < 3 * height * width,
    ensures
        min_int(n.apply(0), n.apply(255)) <= encoded(f, height as nat, width as nat, n)[k]
            <= max_int(n.apply(0), n.apply(255)),
{
    assert(0 < height && 0 < width) by (nonlinear_arith)
        requires
            0 < 3 * height * width,
    ;
    assert(3 * height * width == 3 * (height as int) * (width as int));
    lemma_offset_join(k, 3, height as int, width as int);
    let c = k / (height * width);
    let y = (k / (width as int)) % (height as int);
    let x = k % (width as int);
    lemma_encoded_value(f, height as nat, width as nat, n, c, y, x);
    let sample = bilinear(swapped(f), height as int, width as int, y, x, c);
    lemma_apply_between(n, sample, i32::MIN as int, i32::MAX as int);
    lemma_apply_between(
        n,
        sample,
        min_int(n.apply(0), n.apply(255)),
        max_int(n.apply(0), n.apply(255)),
    );
}

/// Encoding is a function of the frame, the target size and the
/// normalization: two tensors that encode the same frame for the same model
/// are equal, element by element.
pub proof fn lemma_encoding_is_unique(
    a: TensorView,
    b: TensorView,
    f: FrameView,
    height: usize,
    width: usize,
    n: NormalizationView,
)
    requires
        encodes(a, f, height, width, n),
        encodes(b, f, height, width, n),
    ensures
        a == b,
{
}

/// Resampling commutes with the exchange of channels.
pub proof fn lemma_bilinear_swapped(f: FrameView, height: int, width: int, y: int, x: int, c: int)
    requires
        f.wf(),
        !f.is_empty(),
        f.channels == 3,
        0 <= c < 3,
        0 <= y < height,
        0 <= x < width,
    ensures
        bilinear(swapped(f), height, width, y, x, c) == bilinear(f, height, width, y, x, 2 - c),
{
    lemma_source_position(y, height, f.rows as int);
    lemma_source_position(x, width, f.cols as int);
    let y0 = crate::resize::source_base(y, height, f.rows as int);
    let y1 = crate::resize::next_index(y0, f.rows as int);
    let x0 = crate::resize::source_base(x, width, f.cols as int);
    let x1 = crate::resize::next_index(x0, f.cols as int);
    lemma_swapped_sample(f, y0, x0, c);
    lemma_swapped_sample(f, y0, x1, c);
    lemma_swapped_sample(f, y1, x0, c);
    lemma_swapped_sample(f, y1, x1, c);
}

/// Whether a tensor for images of `height` rows and `width` columns can be
/// allocated.
pub fn can_encode_to(height: usize, width: usize) -> (r: bool)
    ensures
        r == target_fits(height, width),
{
    let h: usize = if height == 0 {
        1
    } else {
        height
    };
    let w: usize = if width == 0 {
        1
    } else {
        width
    };
    proof {
        lemma_encoded_shape(height, width);
        assert(3 * h * w == (h * w) * 3) by (nonlinear_arith);
        assert(h * w <= (h * w) * 3) by (nonlinear_arith)
            requires
                0 < h,
                0 < w,
        ;
    }
    let limit: usize = isize::MAX as usize;
    match h.checked_mul(w) {
        Some(plane) => match plane.checked_mul(MODEL_CHANNELS) {
            Some(total) => total <= limit,
            None => false,
        },
        None => false,
    }
}

/// Exchanges the first and third channel of every pixel, which turns
/// blue-green-red order into red-green-blue order and back.
pub fn swap_channels(frame: &Frame) -> (r: Result<Frame, EncodeError>)
    ensures
        frame@.channels != 3 <==> r matches Err(EncodeError::UnsupportedFormat),
        frame@.channels == 3 <==> r is Ok,
        r matches Ok(out) ==> out@ == swapped(frame@) && out@.wf(),
{
    let channels = frame.channels();
    if channels != MODEL_CHANNELS {
        return Err(EncodeError::UnsupportedFormat);
    }
    let data = frame.samples();
    let len = data.len();
    let ghost target = swapped(frame@);
    let mut out: Vec<u8> = Vec::new();
    let mut i: usize = 0;
    proof {
        use_type_invariant(frame);
        lemma_samples_in_triples(frame@);
    }
    while i < len
        invariant
            data@ == frame@.samples,
            len == data@.len(),
            len % 3 == 0,
            i % 3 == 0,
            0 <= i <= len,
            target == swapped(frame@),
            out@.len() == i,
            forall|j: int| 0 <= j < i ==> out@[j] == #[trigger] target.samples[j],
        decreases len - i,
    {
        out.push(data[i + 2]);
        out.push(data[i + 1]);
        out.push(data[i]);
        i += 3;
    }
    proof {
        assert(out@ =~= target.samples);
    }
    Ok(Frame::from_samples(frame.rows(), frame.cols(), channels, out))
}

/// The samples of a frame with three channels come in triples.
proof fn lemma_samples_in_triples(f: FrameView)
    requires
        f.wf(),
        f.channels == 3,
    ensures
        f.samples.len() % 3 == 0,
{
    let pixels = f.rows * f.cols;
    assert(f.samples.len() == pixels * 3);
}

/// Normalizes every sample of a frame with three channels and stores it
/// channel by channel in a tensor of shape `[1, 3, rows, cols]`.
pub fn to_tensor(frame: &Frame, norm: &Normalization) -> (r: Result<InputTensor, EncodeError>)
    requires
        frame@.rows <= usize::MAX,
        frame@.cols <= usize::MAX,
        target_fits(frame@.rows as usize, frame@.cols as usize),
    ensures
        frame@.channels != 3 <==> r matches Err(EncodeError::UnsupportedFormat),
        frame@.channels == 3 <==> r is Ok,
        r matches Ok(t) ==> t@.shape == encoded_shape(frame@.rows as usize, frame@.cols as usize)
            && t@.elems == planar(frame@, norm@),
{
    let channels = frame.channels();
    if channels != MODEL_CHANNELS {
        return Err(EncodeError::UnsupportedFormat);
    }
    let rows = frame.rows();
    let cols = frame.cols();
    let shape: Vec<usize> = vec![1, MODEL_CHANNELS, rows, cols];
    proof {
        use_type_invariant(frame);
        assert(shape@ =~= encoded_shape(rows, cols));
        lemma_encoded_shape(rows, cols);
    }
    let mut tensor = Tensor::zeros(&shape);
    let ghost target = planar(frame@, norm@);
    if rows == 0 || cols == 0 {
        proof {
            assert(3 * rows * cols == 0) by (nonlinear_arith)
                requires
                    rows == 0 || cols == 0,
            ;
            assert(tensor@.elems =~= target);
        }
        return Ok(tensor);
    }
    proof {
        assert(3 * rows * cols == 3 * (rows * cols)) by (nonlinear_arith);
        assert(0 < rows * cols) by (nonlinear_arith)
            requires
                0 < rows,
                0 < cols,
        ;
    }
    let plane: usize = rows * cols;
    let total: usize = MODEL_CHANNELS * plane;
    let mut k: usize = 0;
    while k < total
        invariant
            frame@.wf(),
            frame@.channels == 3,
            rows == frame@.rows,
            cols == frame@.cols,
            0 < rows,
            0 < cols,
            plane == rows * cols,
            total == 3 * rows * cols,
            0 < plane,
            target == planar(frame@, norm@),
            tensor@.shape == encoded_shape(rows, cols),
            tensor@.elems.len() == total,
            0 <= k <= total,
            forall|j: int| 0 <= j < k ==> tensor@.elems[j] == #[trigger] target[j],
        decreases total - k,
    {
        proof {
            lemma_offset_join(k as int, 3, rows as int, cols as int);
        }
        let c = k / plane;
        let y = (k / cols) % rows;
        let x = k % cols;
        let index: [usize; 4] = [0, c, y, x];
        let slice = index.as_slice();
        proof {
            assert(slice@ == index@);
            assert(index@.len() == 4);
            assert(index@[0] == 0 && index@[1] == c && index@[2] == y && index@[3] == x);
            lemma_flat_index4(tensor@.shape, slice@);
            assert(in_bounds(tensor@.shape, slice@));
            assert(((0 * 3 + c) * rows + y) * cols + x == offset3(
                c as int,
                y as int,
                x as int,
                rows as int,
                cols as int,
            ));
            assert(flat_index(tensor@.shape, slice@) == k);
        }
        let v = norm.apply(frame.sample(y, x, c));
        tensor.set(slice, v);
        k += 1;
    }
    proof {
        assert(tensor@.elems =~= target);
    }
    Ok(tensor)
}

/// Encodes a frame as the input tensor of a model that takes images of
/// `height` rows and `width` columns.
///
/// The first and third channel are exchanged, the frame is resampled to the
/// target size by bilinear interpolation, every sample is normalized, and
/// the result is laid out channel by channel: the tensor has shape
/// `[1, 3, height, width]`. The tensor is determined by the frame, the
/// target size and the normalization alone.
pub fn encode(frame: &Frame, height: usize, width: usize, norm: &Normalization) -> (r: Result<
    InputTensor,
    EncodeError,
>)
    requires
        target_fits(height, width),
    ensures
        frame@.is_empty() <==> r matches Err(EncodeError::EmptyFrame),
        !frame@.is_empty() && frame@.channels != 3 <==> r matches Err(
            EncodeError::UnsupportedFormat,
        ),
        !frame@.is_empty() && frame@.channels == 3 <==> r is Ok,
        r matches Ok(t) ==> encodes(t@, frame@, height, width, norm@),
        r matches Ok(t) ==> t@.elems.len() == 3 * height * width && forall|c: int, y: int, x: int|
            0 <= c < 3 && 0 <= y < height && 0 <= x < width ==> #[trigger] t@.elems[offset3(
                c,
                y,
                x,
                height as int,
                width as int,
            )] == norm@.apply(bilinear(frame@, height as int, width as int, y, x, 2 - c)),
        r matches Ok(t) ==> forall|k: int|
            0 <= k < t@.elems.len() ==> min_int(norm@.apply(0), norm@.apply(255))
                <= #[trigger] t@.elems[k] <= max_int(norm@.apply(0), norm@.apply(255)),
{
    if frame.is_empty() {
        return Err(EncodeError::EmptyFrame);
    }
    proof {
        use_type_invariant(frame);
        use_type_invariant(norm);
        if frame@.channels == 3 {
            lemma_encoded_values(frame@, height, width, norm@);
            assert forall|k: int| 0 <= k < 3 * height * width implies min_int(
                norm@.apply(0),
                norm@.apply(255),
            ) <= #[trigger] encoded(frame@, height as nat, width as nat, norm@)[k] <= max_int(
                norm@.apply(0),
                norm@.apply(255),
            ) by {
                lemma_encoded_range(frame@, height, width, norm@, k);
            }
        }
    }
    let rgb = match swap_channels(frame) {
        Ok(f) => f,
        Err(e) => {
            return Err(e);
        },
    };
    proof {
        lemma_encoded_shape(height, width);
        assert(height * width * 3 == 3 * height * width) by (nonlinear_arith);
    }
    let sized = match resize(&rgb, height, width) {
        Ok(f) => f,
        Err(e) => {
            return Err(e);
        },
    };
    to_tensor(&sized, norm)
}

} // verus!
