//! Dense tensors and their extents.
use vstd::prelude::*;
use vstd::slice::slice_to_vec;

use super::bits::{equal, numerically_equal};
use super::error::TensorError;

verus! {

/// The product of `unit` and every dimension of `shape`.
pub open spec fn extent(unit: nat, shape: Seq<usize>) -> nat
    decreases shape.len(),
{
    if shape.len() == 0 {
        unit
    } else {
        extent(unit, shape.drop_last()) * shape.last() as nat
    }
}

/// Every partial product of `extent(unit, shape)`, taken from the left, fits in a `usize`.
pub open spec fn extent_fits(unit: nat, shape: Seq<usize>) -> bool
    decreases shape.len(),
{
    shape.len() == 0 || (extent_fits(unit, shape.drop_last()) && extent(unit, shape) <= usize::MAX)
}

/// The product of `unit` and every dimension, or nothing where a partial product overflows.
pub fn checked_extent(unit: usize, shape: &[usize]) -> (product: Option<usize>)
    ensures
        product is Some <==> extent_fits(unit as nat, shape@),
        product matches Some(p) ==> p == extent(unit as nat, shape@),
{
    let mut product: usize = unit;
    let mut at: usize = 0;
    while at < shape.len()
        invariant
            at <= shape.len(),
            extent_fits(unit as nat, shape@.take(at as int)),
            product == extent(unit as nat, shape@.take(at as int)),
        decreases shape.len() - at,
    {
        assert(shape@.take(at + 1).drop_last() =~= shape@.take(at as int));
        assert(shape@.take(at + 1).last() == shape@[at as int]);
        match product.checked_mul(shape[at]) {
            Some(next) => {
                product = next;
            },
            None => {
                proof {
                    assert(!extent_fits(unit as nat, shape@.take(at + 1)));
                    lemma_overflow_persists(unit as nat, shape@, at + 1);
                }
                return None;
            },
        }
        at += 1;
    }
    assert(shape@.take(at as int) =~= shape@);
    Some(product)
}

/// A prefix whose partial products overflow makes the whole shape overflow.
proof fn lemma_overflow_persists(unit: nat, shape: Seq<usize>, count: int)
    requires
        0 <= count <= shape.len(),
        !extent_fits(unit, shape.take(count)),
    ensures
        !extent_fits(unit, shape),
    decreases shape.len(),
{
    if count == shape.len() {
        assert(shape.take(count) =~= shape);
    } else {
        assert(shape.drop_last().take(count) =~= shape.take(count));
        lemma_overflow_persists(unit, shape.drop_last(), count);
    }
}

/// The number of elements of a shape.
///
/// # Errors
///
/// `ShapeOverflow` if the count overflows.
pub fn element_count(shape: &[usize]) -> (count: Result<usize, TensorError>)
    ensures
        match count {
            Ok(n) => extent_fits(1, shape@) && n == extent(1, shape@),
            Err(e) => !extent_fits(1, shape@) && e == TensorError::ShapeOverflow,
        },
{
    match checked_extent(1, shape) {
        Some(n) => Ok(n),
        None => Err(TensorError::ShapeOverflow),
    }
}

/// The unit of an extent factors out of it.
pub proof fn law_extent_scales(unit: nat, shape: Seq<usize>)
    ensures
        extent(unit, shape) == unit * extent(1, shape),
    decreases shape.len(),
{
    if shape.len() > 0 {
        law_extent_scales(unit, shape.drop_last());
        let rest = extent(1, shape.drop_last());
        let last = shape.last() as nat;
        assert((unit * rest) * last == unit * (rest * last)) by (nonlinear_arith);
    } else {
        assert(extent(1, shape) == 1);
    }
}

/// A shape with a representable byte extent has a representable element count.
pub proof fn law_smaller_unit_fits(small: nat, large: nat, shape: Seq<usize>)
    requires
        small <= large,
        extent_fits(large, shape),
    ensures
        extent_fits(small, shape),
    decreases shape.len(),
{
    if shape.len() > 0 {
        law_smaller_unit_fits(small, large, shape.drop_last());
        law_extent_scales(small, shape);
        law_extent_scales(large, shape);
        let count = extent(1, shape);
        assert(small * count <= large * count) by (nonlinear_arith)
            requires
                small <= large,
        ;
    }
}

/// What a tensor holds.
#[verifier::ext_equal]
pub struct TensorModel {
    pub shape: Seq<usize>,
    pub data: Seq<u32>,
    pub uniform: Option<u32>,
}

impl TensorModel {
    /// The data fill the shape, and a recorded uniform value is that of every element.
    pub open spec fn wf(self) -> bool {
        &&& extent_fits(1, self.shape)
        &&& self.data.len() == extent(1, self.shape)
        &&& self.uniform matches Some(value) ==> self.data.len() > 0 && forall|i: int|
            0 <= i < self.data.len() ==> self.data[i] == value
    }

    /// A tensor of this shape and data whose elements nobody recorded to be uniform.
    pub open spec fn plain(shape: Seq<usize>, data: Seq<u32>) -> TensorModel {
        TensorModel { shape, data, uniform: None }
    }

    /// A tensor filled with one value. An empty one has no known element.
    pub open spec fn splat(shape: Seq<usize>, value: u32) -> TensorModel {
        TensorModel {
            shape,
            data: Seq::new(extent(1, shape), |i: int| value),
            uniform: if extent(1, shape) != 0 {
                Some(value)
            } else {
                None
            },
        }
    }

    /// The rank-zero tensor of one value.
    pub open spec fn scalar(value: u32) -> TensorModel {
        TensorModel { shape: Seq::empty(), data: seq![value], uniform: Some(value) }
    }
}

/// A dense row-major tensor of `f32` bit patterns.
#[derive(Debug)]
pub struct Tensor {
    pub shape: Vec<usize>,
    pub data: Vec<u32>,
    pub known_uniform_value: Option<u32>,
}

impl View for Tensor {
    type V = TensorModel;

    open spec fn view(&self) -> TensorModel {
        TensorModel {
            shape: self.shape@,
            data: self.data@,
            uniform: self.known_uniform_value,
        }
    }
}

impl Clone for Tensor {
    fn clone(&self) -> (copy: Self)
        ensures
            copy@ == self@,
    {
        Tensor {
            shape: slice_to_vec(self.shape.as_slice()),
            data: slice_to_vec(self.data.as_slice()),
            known_uniform_value: self.known_uniform_value,
        }
    }
}

impl PartialEq for Tensor {
    /// Equal shapes and numerically equal elements; what is recorded of uniformity is no part of
    /// a tensor's value.
    fn eq(&self, other: &Self) -> (answer: bool) {
        if !same_shape(self.shape.as_slice(), other.shape.as_slice()) || self.data.len()
            != other.data.len() {
            return false;
        }
        let mut at: usize = 0;
        while at < self.data.len()
            invariant
                at <= self.data.len(),
                self.data.len() == other.data.len(),
                forall|i: int| 0 <= i < at ==> numerically_equal(self.data@[i], other.data@[i]),
            decreases self.data.len() - at,
        {
            if !equal(self.data[at], other.data[at]) {
                assert(!numerically_equal(self.data@[at as int], other.data@[at as int]));
                return false;
            }
            at += 1;
        }
        true
    }
}

impl vstd::std_specs::cmp::PartialEqSpecImpl for Tensor {
    open spec fn obeys_eq_spec() -> bool {
        true
    }

    open spec fn eq_spec(&self, other: &Self) -> bool {
        &&& self.shape@ == other.shape@
        &&& self.data@.len() == other.data@.len()
        &&& forall|i: int|
            0 <= i < self.data@.len() ==> numerically_equal(self.data@[i], other.data@[i])
    }
}

/// Whether two shapes are the same.
pub fn same_shape(left: &[usize], right: &[usize]) -> (same: bool)
    ensures
        same == (left@ == right@),
{
    if left.len() != right.len() {
        return false;
    }
    let mut at: usize = 0;
    while at < left.len()
        invariant
            at <= left.len(),
            left.len() == right.len(),
            forall|i: int| 0 <= i < at ==> left@[i] == right@[i],
        decreases left.len() - at,
    {
        if left[at] != right[at] {
            assert(left@[at as int] != right@[at as int]);
            return false;
        }
        at += 1;
    }
    assert(left@ =~= right@);
    true
}

/// `count` copies of `value`.
pub fn filled(value: u32, count: usize) -> (data: Vec<u32>)
    ensures
        data@ == Seq::new(count as nat, |i: int| value),
{
    let mut data: Vec<u32> = Vec::with_capacity(count);
    while data.len() < count
        invariant
            data.len() <= count,
            forall|i: int| 0 <= i < data.len() ==> data@[i] == value,
        decreases count - data.len(),
    {
        data.push(value);
    }
    assert(data@ =~= Seq::new(count as nat, |i: int| value));
    data
}

impl Tensor {
    /// The data fill the shape, and a recorded uniform value is that of every element.
    pub open spec fn wf(self) -> bool {
        self@.wf()
    }

    /// Creates a tensor after checking that its data length matches its shape.
    ///
    /// # Errors
    ///
    /// `ShapeOverflow` if the element count overflows, `DataLength` if `data` has the wrong
    /// number of elements.
    pub fn new(shape: Vec<usize>, data: Vec<u32>) -> (made: Result<Tensor, TensorError>)
        ensures
            match made {
                Ok(t) => t@ == TensorModel::plain(shape@, data@) && t.wf(),
                Err(e) => if extent_fits(1, shape@) {
                    &&& data@.len() != extent(1, shape@)
                    &&& e == (TensorError::DataLength {
                        expected: extent(1, shape@) as usize,
                        actual: data@.len() as usize,
                    })
                } else {
                    e == TensorError::ShapeOverflow
                },
            },
    {
        let count: usize = element_count(shape.as_slice())?;
        if count != data.len() {
            return Err(TensorError::DataLength { expected: count, actual: data.len() });
        }
        Ok(Tensor { shape, data, known_uniform_value: None })
    }

    /// Creates a tensor whose elements are all `value`, and records that fact. Empty tensors have
    /// no known element value.
    ///
    /// # Errors
    ///
    /// `ShapeOverflow` if the element count overflows.
    pub fn splat(shape: Vec<usize>, value: u32) -> (made: Result<Tensor, TensorError>)
        ensures
            match made {
                Ok(t) => t@ == TensorModel::splat(shape@, value) && t.wf(),
                Err(e) => !extent_fits(1, shape@) && e == TensorError::ShapeOverflow,
            },
    {
        let count: usize = element_count(shape.as_slice())?;
        let known: Option<u32> = if count != 0 {
            Some(value)
        } else {
            None
        };
        Ok(Tensor { shape, data: filled(value, count), known_uniform_value: known })
    }

    /// The rank-zero tensor of one value.
    pub fn scalar(value: u32) -> (made: Tensor)
        ensures
            made@ == TensorModel::scalar(value),
            made.wf(),
    {
        let mut data: Vec<u32> = Vec::new();
        data.push(value);
        Tensor { shape: Vec::new(), data, known_uniform_value: Some(value) }
    }

    pub fn shape(&self) -> (shape: &[usize])
        ensures
            shape@ == self@.shape,
    {
        self.shape.as_slice()
    }

    pub fn data(&self) -> (data: &[u32])
        ensures
            data@ == self@.data,
    {
        self.data.as_slice()
    }

    /// The value of every element, where the tensor was made by a constructor that records it.
    pub fn known_uniform_value(&self) -> (value: Option<u32>)
        ensures
            value == self@.uniform,
    {
        self.known_uniform_value
    }

    /// Consumes the tensor and returns its contiguous data without copying it.
    pub fn into_data(self) -> (data: Vec<u32>)
        ensures
            data@ == self@.data,
    {
        self.data
    }
}

/// Recording uniformity does not change a tensor's value: a splat equals the same data given
/// element by element, for every value that is not a NaN.
pub proof fn law_splat_equals_its_elements(splat: Tensor, plain: Tensor, shape: Seq<usize>, value: u32)
    requires
        splat@ == TensorModel::splat(shape, value),
        plain@ == TensorModel::plain(shape, splat@.data),
        !super::bits::nan(value),
    ensures
        vstd::std_specs::cmp::PartialEqSpec::eq_spec(&splat, &plain),
        splat@.wf() ==> plain@.wf(),
{
}

} // verus!
