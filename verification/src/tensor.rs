//! The tensor value type: dense row-major storage paired with a shape,
//! construction from and export to flat data, and rank/shape changes that
//! keep the storage order.
use vstd::prelude::*;

use crate::shape::{all_positive, element_count, prod};

verus! {

/// The errors an operation reports: every failure is a shape or contract
/// violation at the call site.
#[derive(Clone, Copy, Debug, PartialEq, Eq, Structural)]
pub enum TensorError {
    /// Two operands of an elementwise operation differ in shape, or the
    /// axes of concatenated tensors disagree off the concatenation axis.
    ShapeMismatch,
    /// A range or index reaches outside the tensor's extents.
    OutOfRange,
    /// An axis argument is not an axis of the tensor.
    BadAxis,
    /// A shape's element count does not match the data it must describe.
    BadElementCount,
    /// An operation over a list of tensors was handed none.
    EmptyInput,
}

/// The one device this backend executes on.
#[derive(Clone, Copy, Debug, PartialEq, Eq, Structural)]
pub enum Device {
    Cpu,
}

/// Flat values plus a shape descriptor: the canonical import/export form.
#[derive(Debug, Clone)]
pub struct Data {
    pub values: Vec<i64>,
    pub dims: Vec<usize>,
}

/// A dense tensor: row-major element storage and per-axis extents, with
/// the element count always matching the storage length.
#[derive(Debug, Clone)]
pub struct Tensor {
    pub values: Vec<i64>,
    pub dims: Vec<usize>,
}

/// A tensor of truth values, as comparison results and masks.
#[derive(Debug, Clone)]
pub struct BoolTensor {
    pub values: Vec<bool>,
    pub dims: Vec<usize>,
}

impl Data {
    /// A value/shape pair is well formed when the extents are positive and
    /// their product is exactly the number of values.
    pub open spec fn wf(self) -> bool {
        &&& all_positive(self.dims@)
        &&& prod(self.dims@) == self.values@.len()
    }
}

impl Tensor {
    /// The element-count invariant every operation preserves.
    pub open spec fn wf(self) -> bool {
        &&& all_positive(self.dims@)
        &&& prod(self.dims@) == self.values@.len()
    }

    /// The shape of the tensor: one extent per axis.
    pub fn shape(&self) -> (r: Vec<usize>)
        ensures
            r@ == self.dims@,
    {
        self.dims.clone()
    }
}

impl BoolTensor {
    pub open spec fn wf(self) -> bool {
        &&& all_positive(self.dims@)
        &&& prod(self.dims@) == self.values@.len()
    }
}

/// Build a tensor from a value/shape pair; rejects a shape whose element
/// count does not match the values.
pub fn from_data(data: Data, _device: &Device) -> (r: Result<Tensor, TensorError>)
    ensures
        match r {
            Ok(t) => data.wf() && t.values@ == data.values@ && t.dims@ == data.dims@ && t.wf(),
            Err(e) => !data.wf() && e == TensorError::BadElementCount,
        },
{
    let n_values = data.values.len();
    match element_count(&data.dims) {
        Some(c) => {
            if c == n_values {
                Ok(Tensor { values: data.values, dims: data.dims })
            } else {
                Err(TensorError::BadElementCount)
            }
        },
        None => {
            // either a zero extent or a count past the machine word; a
            // matching value vector cannot exist for the latter either
            Err(TensorError::BadElementCount)
        },
    }
}

/// Export the tensor's values and shape, leaving the tensor in place.
pub fn to_data(tensor: &Tensor) -> (r: Data)
    ensures
        r.values@ == tensor.values@,
        r.dims@ == tensor.dims@,
        tensor.wf() ==> r.wf(),
{
    Data { values: tensor.values.clone(), dims: tensor.dims.clone() }
}

/// Export the tensor's values and shape, consuming the tensor.
pub fn into_data(tensor: Tensor) -> (r: Data)
    ensures
        r.values@ == tensor.values@,
        r.dims@ == tensor.dims@,
        tensor.wf() ==> r.wf(),
{
    Data { values: tensor.values, dims: tensor.dims }
}

/// The device a tensor lives on: always the CPU here.
pub fn device(_tensor: &Tensor) -> (r: Device)
    ensures
        r == Device::Cpu,
{
    Device::Cpu
}

/// Moving to the one device is the identity.
pub fn to_device(tensor: Tensor, _device: &Device) -> (r: Tensor)
    ensures
        r == tensor,
{
    tensor
}

/// Detaching from any graph is the identity for this backend.
pub fn detach(tensor: Tensor) -> (r: Tensor)
    ensures
        r == tensor,
{
    tensor
}

/// A tensor of zeros of the given shape.
pub fn zeros(dims: Vec<usize>, _device: &Device) -> (r: Result<Tensor, TensorError>)
    ensures
        match r {
            Ok(t) => {
                &&& all_positive(dims@) && prod(dims@) <= usize::MAX
                &&& t.wf()
                &&& t.dims@ == dims@
                &&& forall|i: int| 0 <= i < t.values@.len() ==> t.values@[i] == 0i64
            },
            Err(e) => !(all_positive(dims@) && prod(dims@) <= usize::MAX) && e
                == TensorError::BadElementCount,
        },
{
    match element_count(&dims) {
        Some(c) => {
            let mut values: Vec<i64> = Vec::new();
            let mut i: usize = 0;
            while i < c
                invariant
                    0 <= i <= c,
                    values@.len() == i,
                    forall|j: int| 0 <= j < i ==> values@[j] == 0i64,
                decreases c - i,
            {
                values.push(0);
                i += 1;
            }
            Ok(Tensor { values, dims })
        },
        None => Err(TensorError::BadElementCount),
    }
}

/// An uninitialized tensor of the given shape; this backend hands out
/// zeroed storage.
pub fn empty(dims: Vec<usize>, device: &Device) -> (r: Result<Tensor, TensorError>)
    ensures
        match r {
            Ok(t) => {
                &&& all_positive(dims@) && prod(dims@) <= usize::MAX
                &&& t.wf()
                &&& t.dims@ == dims@
            },
            Err(e) => !(all_positive(dims@) && prod(dims@) <= usize::MAX) && e
                == TensorError::BadElementCount,
        },
{
    zeros(dims, device)
}

/// Change the shape while keeping every element in storage order; rejects
/// a shape with a different element count.
pub fn reshape(tensor: Tensor, dims: Vec<usize>) -> (r: Result<Tensor, TensorError>)
    requires
        tensor.wf(),
    ensures
        match r {
            Ok(t) => {
                &&& all_positive(dims@) && prod(dims@) == tensor.values@.len()
                &&& t.wf()
                &&& t.dims@ == dims@
                &&& t.values@ == tensor.values@
            },
            Err(e) => !(all_positive(dims@) && prod(dims@) == tensor.values@.len()) && e
                == TensorError::BadElementCount,
        },
{
    let n_values = tensor.values.len();
    match element_count(&dims) {
        Some(c) => {
            if c == n_values {
                Ok(Tensor { values: tensor.values, dims })
            } else {
                Err(TensorError::BadElementCount)
            }
        },
        None => Err(TensorError::BadElementCount),
    }
}

/// Reshaping to a compatible shape and back restores the original tensor,
/// element for element and in shape.
pub proof fn lemma_reshape_round_trip(t: Tensor, r1: Tensor, r2: Tensor, dims2: Seq<usize>)
    requires
        t.wf(),
        // r1 is what reshape(t, dims2) returns on success
        r1.values@ == t.values@,
        r1.dims@ == dims2,
        // r2 is what reshape(r1, t.dims) returns on success
        r2.values@ == r1.values@,
        r2.dims@ == t.dims@,
    ensures
        r2.values@ == t.values@,
        r2.dims@ == t.dims@,
{
}

/// Exporting a freshly imported value/shape pair returns exactly that
/// pair: values and shape both round-trip.
pub proof fn lemma_data_round_trip(d: Data, t: Tensor, out: Data)
    requires
        d.wf(),
        // t is what from_data(d) returns on success
        t.values@ == d.values@,
        t.dims@ == d.dims@,
        // out is what to_data(t) returns
        out.values@ == t.values@,
        out.dims@ == t.dims@,
    ensures
        out.values@ == d.values@,
        out.dims@ == d.dims@,
{
}

} // verus!
