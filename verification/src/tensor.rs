//! Fixed-shape, multi-dimensional arrays of fixed-point samples.
//!
//! A [`Tensor`] keeps its elements in an `ndarray` dynamic-dimensional array.
//! Every sample is an `i32` that stands for a real number in a fixed-point
//! unit chosen by whoever fills the tensor.

use vstd::prelude::*;

verus! {

/// A dynamic-rank array of `i32` samples, stored in an `ndarray::ArrayD`.
///
/// The array itself is hidden from the verifier; what it holds is named by
/// [`tensor_shape`] and [`tensor_elems`].
#[verifier::external_body]
pub struct Tensor {
    array: ndarray::ArrayD<i32>,
}

/// The axis lengths of the array, outermost axis first.
pub uninterp spec fn tensor_shape(t: Tensor) -> Seq<usize>;

/// The elements of the array in logical order: the rightmost index varies
/// fastest.
pub uninterp spec fn tensor_elems(t: Tensor) -> Seq<i32>;

/// Mathematical view of a tensor: its shape and its elements in row-major
/// order.
pub struct TensorView {
    pub shape: Seq<usize>,
    pub elems: Seq<i32>,
}

impl View for Tensor {
    type V = TensorView;

    open spec fn view(&self) -> TensorView {
        TensorView { shape: tensor_shape(*self), elems: tensor_elems(*self) }
    }
}

/// Number of elements of an array with the given axis lengths.
pub open spec fn shape_size(shape: Seq<usize>) -> nat
    decreases shape.len(),
{
    if shape.len() == 0 {
        1
    } else {
        shape_size(shape.drop_last()) * (shape.last() as nat)
    }
}

/// Product of the axis lengths that are not zero.
pub open spec fn nonzero_size(shape: Seq<usize>) -> nat
    decreases shape.len(),
{
    if shape.len() == 0 {
        1
    } else if shape.last() == 0 {
        nonzero_size(shape.drop_last())
    } else {
        nonzero_size(shape.drop_last()) * (shape.last() as nat)
    }
}

/// Whether `index` names an element of an array with axis lengths `shape`.
pub open spec fn in_bounds(shape: Seq<usize>, index: Seq<usize>) -> bool {
    &&& index.len() == shape.len()
    &&& forall|k: int| 0 <= k < shape.len() ==> index[k] < shape[k]
}

/// Position of the element `index` in row-major order.
pub open spec fn flat_index(shape: Seq<usize>, index: Seq<usize>) -> int
    decreases shape.len(),
{
    if shape.len() == 0 {
        0
    } else {
        flat_index(shape.drop_last(), index.drop_last()) * (shape.last() as int) + (
        index.last() as int)
    }
}

/// An array can be allocated for `shape` when the product of its non-zero
/// axis lengths fits in `isize`.
pub open spec fn allocatable(shape: Seq<usize>) -> bool {
    nonzero_size(shape) <= isize::MAX as nat
}

/// Calls `ndarray::ArrayBase::from_shape_vec` with a row-major shape.
///
/// Trusted: the call succeeds exactly when the product of the non-zero axis
/// lengths fits in `isize` and the shape asks for as many elements as `data`
/// holds; the array then has that shape and holds `data` in logical order.
#[verifier::external_body]
fn array_from_shape_vec(shape: &Vec<usize>, data: Vec<i32>) -> (r: Option<Tensor>)
    ensures
        r.is_some() == (allocatable(shape@) && shape_size(shape@) == data@.len()),
        r matches Some(t) ==> tensor_shape(t) == shape@ && tensor_elems(t) == data@,
{
    match ndarray::ArrayD::from_shape_vec(ndarray::IxDyn(shape.as_slice()), data) {
        Ok(array) => Some(Tensor { array }),
        Err(_) => None,
    }
}

/// Calls `ndarray::ArrayBase::zeros`.
///
/// Trusted: the array has the shape asked for and every element is zero.
/// The outside function panics when the product of the non-zero axis lengths
/// overflows `isize`, which the precondition rules out.
#[verifier::external_body]
fn array_zeros(shape: &Vec<usize>) -> (t: Tensor)
    requires
        allocatable(shape@),
    ensures
        tensor_shape(t) == shape@,
        tensor_elems(t) == Seq::new(shape_size(shape@), |i: int| 0i32),
{
    Tensor { array: ndarray::ArrayD::zeros(ndarray::IxDyn(shape.as_slice())) }
}

/// Calls `ndarray::ArrayBase::shape`.
///
/// Trusted: the result lists the axis lengths, outermost axis first.
#[verifier::external_body]
fn array_shape(t: &Tensor) -> (dims: Vec<usize>)
    ensures
        dims@ == tensor_shape(*t),
{
    t.array.shape().to_vec()
}

/// Calls `ndarray::ArrayRef::get`, which the array dereferences to, with a
/// slice index.
///
/// Trusted: the result is `None` when the index has the wrong number of
/// coordinates or one of them is out of range, and otherwise the element at
/// that index, which is the one at its row-major position in logical order.
#[verifier::external_body]
fn array_get(t: &Tensor, index: &[usize]) -> (r: Option<i32>)
    ensures
        r == if in_bounds(tensor_shape(*t), index@) {
            Some(tensor_elems(*t)[flat_index(tensor_shape(*t), index@)])
        } else {
            None
        },
{
    t.array.get(index).copied()
}

/// Assigns through the `IndexMut` implementation of `ndarray::ArrayBase`
/// with a slice index.
///
/// Trusted: the shape is unchanged and exactly the element at the index's
/// row-major position is replaced. The outside function panics on an index
/// that is out of bounds, which the precondition rules out.
#[verifier::external_body]
fn array_set(t: &mut Tensor, index: &[usize], value: i32)
    requires
        in_bounds(tensor_shape(*old(t)), index@),
    ensures
        tensor_shape(*final(t)) == tensor_shape(*old(t)),
        tensor_elems(*final(t)) == tensor_elems(*old(t)).update(
            flat_index(tensor_shape(*old(t)), index@),
            value,
        ),
{
    t.array[index] = value;
}

/// Calls `ndarray::ArrayRef::iter`, which the array dereferences to, and
/// collects what it yields.
///
/// Trusted: the iterator visits every element once, in logical order.
#[verifier::external_body]
fn array_to_vec(t: &Tensor) -> (data: Vec<i32>)
    ensures
        data@ == tensor_elems(*t),
{
    t.array.iter().copied().collect()
}

/// Row-major position in an array of three axes.
pub proof fn lemma_flat_index3(shape: Seq<usize>, index: Seq<usize>)
    requires
        shape.len() == 3,
        index.len() == 3,
    ensures
        flat_index(shape, index) == (index[0] * shape[1] + index[1]) * shape[2] + index[2],
{
    let s2 = shape.drop_last();
    let i2 = index.drop_last();
    let s1 = s2.drop_last();
    let i1 = i2.drop_last();
    let s0 = s1.drop_last();
    let i0 = i1.drop_last();
    assert(flat_index(s0, i0) == 0);
    assert(flat_index(s1, i1) == flat_index(s0, i0) * (s1.last() as int) + (i1.last() as int));
    assert(flat_index(s2, i2) == flat_index(s1, i1) * (s2.last() as int) + (i2.last() as int));
    assert(flat_index(shape, index) == flat_index(s2, i2) * (shape.last() as int) + (
    index.last() as int));
    assert(i1.last() == index[0]);
    assert(i2.last() == index[1]);
    assert(s2.last() == shape[1]);
}

/// Row-major position in an array of four axes.
pub proof fn lemma_flat_index4(shape: Seq<usize>, index: Seq<usize>)
    requires
        shape.len() == 4,
        index.len() == 4,
    ensures
        flat_index(shape, index) == ((index[0] * shape[1] + index[1]) * shape[2] + index[2])
            * shape[3] + index[3],
{
    let s3 = shape.drop_last();
    let i3 = index.drop_last();
    lemma_flat_index3(s3, i3);
    assert(flat_index(shape, index) == flat_index(s3, i3) * (shape.last() as int) + (
    index.last() as int));
}

/// Number of elements of an array of four axes.
pub proof fn lemma_shape_size4(shape: Seq<usize>)
    requires
        shape.len() == 4,
    ensures
        shape_size(shape) == shape[0] * shape[1] * shape[2] * shape[3],
{
    let s3 = shape.drop_last();
    let s2 = s3.drop_last();
    let s1 = s2.drop_last();
    let s0 = s1.drop_last();
    assert(shape_size(s0) == 1);
    assert(shape_size(s1) == shape_size(s0) * (s1.last() as nat));
    assert(shape_size(s2) == shape_size(s1) * (s2.last() as nat));
    assert(shape_size(s3) == shape_size(s2) * (s3.last() as nat));
    assert(shape_size(shape) == shape_size(s3) * (shape.last() as nat));
    assert(s1.last() == shape[0]);
    assert(s2.last() == shape[1]);
    assert(s3.last() == shape[2]);
    assert(1 * (shape[0] as nat) == shape[0] as nat);
}

impl Tensor {
    /// Builds a tensor of the given shape from its elements in row-major
    /// order. Returns `None` when the shape does not ask for exactly
    /// `data.len()` elements or is too large to be allocated.
    pub fn from_shape_vec(shape: Vec<usize>, data: Vec<i32>) -> (r: Option<Tensor>)
        ensures
            r.is_some() <==> allocatable(shape@) && shape_size(shape@) == data@.len(),
            r matches Some(t) ==> t@.shape == shape@ && t@.elems == data@,
    {
        array_from_shape_vec(&shape, data)
    }

    /// A tensor of the given shape filled with zeros.
    pub fn zeros(shape: &Vec<usize>) -> (t: Tensor)
        requires
            allocatable(shape@),
        ensures
            t@.shape == shape@,
            t@.elems == Seq::new(shape_size(shape@), |i: int| 0i32),
    {
        array_zeros(shape)
    }

    /// The axis lengths, outermost axis first.
    pub fn dims(&self) -> (dims: Vec<usize>)
        ensures
            dims@ == self@.shape,
    {
        array_shape(self)
    }

    /// The element at `index`, or `None` when `index` is not inside the
    /// tensor.
    pub fn get(&self, index: &[usize]) -> (r: Option<i32>)
        ensures
            r == if in_bounds(self@.shape, index@) {
                Some(self@.elems[flat_index(self@.shape, index@)])
            } else {
                None
            },
    {
        array_get(self, index)
    }

    /// Replaces the element at `index`.
    pub fn set(&mut self, index: &[usize], value: i32)
        requires
            in_bounds(old(self)@.shape, index@),
        ensures
            final(self)@.shape == old(self)@.shape,
            final(self)@.elems == old(self)@.elems.update(
                flat_index(old(self)@.shape, index@),
                value,
            ),
    {
        array_set(self, index, value)
    }

    /// The elements in row-major order.
    pub fn to_vec(&self) -> (data: Vec<i32>)
        ensures
            data@ == self@.elems,
    {
        array_to_vec(self)
    }
}

} // verus!
