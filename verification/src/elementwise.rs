//! Elementwise and scalar operation engine: arithmetic, comparisons,
//! masking and the rectifier, each producing a new tensor by a mapped
//! traversal of the storage.
use vstd::prelude::*;

use crate::elem::{add_elem, div_elem, exec_add_elem, exec_div_elem, exec_mul_elem, exec_sub_elem,
    mul_elem, neg_elem, relu_elem, sub_elem};
use crate::shape::prod;
use crate::tensor::{BoolTensor, Tensor, TensorError};

verus! {

/// Tensor addition is commutative, exactly: swapping the operands of a
/// successful elementwise sum produces the same tensor.
pub proof fn lemma_add_commutative(a: Tensor, b: Tensor, r1: Tensor, r2: Tensor)
    requires
        a.wf(),
        b.wf(),
        a.dims@ == b.dims@,
        // r1 is what a.add(&b) returns on success
        r1.dims@ == a.dims@,
        r1.values@.len() == a.values@.len(),
        forall|i: int|
            0 <= i < r1.values@.len() ==> r1.values@[i] == add_elem(a.values@[i], b.values@[i]),
        // r2 is what b.add(&a) returns on success
        r2.dims@ == b.dims@,
        r2.values@.len() == b.values@.len(),
        forall|i: int|
            0 <= i < r2.values@.len() ==> r2.values@[i] == add_elem(b.values@[i], a.values@[i]),
    ensures
        r1.values@ == r2.values@,
        r1.dims@ == r2.dims@,
{
    assert(a.values@.len() == b.values@.len());
    assert forall|i: int| 0 <= i < r1.values@.len() implies r1.values@[i] == r2.values@[i] by {
        crate::elem::lemma_add_elem_commutes(a.values@[i], b.values@[i]);
    }
    assert(r1.values@ =~= r2.values@);
}

/// Subtraction is addition of the negation, exactly: a successful
/// elementwise difference equals the sum with the negated right operand.
pub proof fn lemma_sub_is_add_of_neg(a: Tensor, b: Tensor, r1: Tensor, nb: Tensor, r2: Tensor)
    requires
        a.wf(),
        b.wf(),
        a.dims@ == b.dims@,
        // r1 is what a.sub(&b) returns on success
        r1.dims@ == a.dims@,
        r1.values@.len() == a.values@.len(),
        forall|i: int|
            0 <= i < r1.values@.len() ==> r1.values@[i] == sub_elem(a.values@[i], b.values@[i]),
        // nb is what b.neg() returns
        nb.dims@ == b.dims@,
        nb.values@.len() == b.values@.len(),
        forall|i: int| 0 <= i < nb.values@.len() ==> nb.values@[i] == neg_elem(b.values@[i]),
        // r2 is what a.add(&nb) returns on success
        r2.dims@ == a.dims@,
        r2.values@.len() == a.values@.len(),
        forall|i: int|
            0 <= i < r2.values@.len() ==> r2.values@[i] == add_elem(a.values@[i], nb.values@[i]),
    ensures
        r1.values@ == r2.values@,
        r1.dims@ == r2.dims@,
{
    assert(a.values@.len() == b.values@.len());
    assert forall|i: int| 0 <= i < r1.values@.len() implies r1.values@[i] == r2.values@[i] by {
        crate::elem::lemma_sub_is_add_neg(a.values@[i], b.values@[i]);
    }
    assert(r1.values@ =~= r2.values@);
}

/// Whether two shapes agree axis for axis.
pub fn dims_equal(a: &Vec<usize>, b: &Vec<usize>) -> (r: bool)
    ensures
        r <==> a@ == b@,
{
    if a.len() != b.len() {
        return false;
    }
    let n = a.len();
    let mut i: usize = 0;
    while i < n
        invariant
            0 <= i <= n,
            n == a@.len() == b@.len(),
            forall|j: int| 0 <= j < i ==> a@[j] == b@[j],
        decreases n - i,
    {
        if a[i] != b[i] {
            return false;
        }
        i += 1;
    }
    proof {
        assert(a@ =~= b@);
    }
    true
}

impl Tensor {
    /// Elementwise wrapping sum of two same-shape tensors.
    #[verifier::loop_isolation(false)]
    pub fn add(&self, rhs: &Tensor) -> (r: Result<Tensor, TensorError>)
        requires
            self.wf(),
            rhs.wf(),
        ensures
            match r {
                Ok(t) => {
                    &&& self.dims@ == rhs.dims@
                    &&& t.wf() && t.dims@ == self.dims@
                    &&& t.values@.len() == self.values@.len()
                    &&& forall|i: int|
                        0 <= i < t.values@.len() ==> t.values@[i] == add_elem(
                            self.values@[i],
                            rhs.values@[i],
                        )
                },
                Err(e) => self.dims@ != rhs.dims@ && e == TensorError::ShapeMismatch,
            },
    {
        if !dims_equal(&self.dims, &rhs.dims) {
            return Err(TensorError::ShapeMismatch);
        }
        let n = self.values.len();
        let mut values: Vec<i64> = Vec::new();
        let mut i: usize = 0;
        while i < n
            invariant
                0 <= i <= n,
                values@.len() == i,
                forall|j: int|
                    0 <= j < i ==> values@[j] == add_elem(self.values@[j], rhs.values@[j]),
            decreases n - i,
        {
            values.push(exec_add_elem(self.values[i], rhs.values[i]));
            i += 1;
        }
        Ok(Tensor { values, dims: self.dims.clone() })
    }

    /// Wrapping sum of every element with one scalar.
    #[verifier::loop_isolation(false)]
    pub fn add_scalar(&self, rhs: i64) -> (r: Tensor)
        requires
            self.wf(),
        ensures
            r.wf(),
            r.dims@ == self.dims@,
            r.values@.len() == self.values@.len(),
            forall|i: int|
                0 <= i < r.values@.len() ==> r.values@[i] == add_elem(self.values@[i], rhs),
    {
        let n = self.values.len();
        let mut values: Vec<i64> = Vec::new();
        let mut i: usize = 0;
        while i < n
            invariant
                0 <= i <= n,
                values@.len() == i,
                forall|j: int| 0 <= j < i ==> values@[j] == add_elem(self.values@[j], rhs),
            decreases n - i,
        {
            values.push(exec_add_elem(self.values[i], rhs));
            i += 1;
        }
        Tensor { values, dims: self.dims.clone() }
    }

    /// Elementwise wrapping difference of two same-shape tensors.
    #[verifier::loop_isolation(false)]
    pub fn sub(&self, rhs: &Tensor) -> (r: Result<Tensor, TensorError>)
        requires
            self.wf(),
            rhs.wf(),
        ensures
            match r {
                Ok(t) => {
                    &&& self.dims@ == rhs.dims@
                    &&& t.wf() && t.dims@ == self.dims@
                    &&& t.values@.len() == self.values@.len()
                    &&& forall|i: int|
                        0 <= i < t.values@.len() ==> t.values@[i] == sub_elem(
                            self.values@[i],
                            rhs.values@[i],
                        )
                },
                Err(e) => self.dims@ != rhs.dims@ && e == TensorError::ShapeMismatch,
            },
    {
        if !dims_equal(&self.dims, &rhs.dims) {
            return Err(TensorError::ShapeMismatch);
        }
        let n = self.values.len();
        let mut values: Vec<i64> = Vec::new();
        let mut i: usize = 0;
        while i < n
            invariant
                0 <= i <= n,
                values@.len() == i,
                forall|j: int|
                    0 <= j < i ==> values@[j] == sub_elem(self.values@[j], rhs.values@[j]),
            decreases n - i,
        {
            values.push(exec_sub_elem(self.values[i], rhs.values[i]));
            i += 1;
        }
        Ok(Tensor { values, dims: self.dims.clone() })
    }

    /// Wrapping difference of every element with one scalar.
    #[verifier::loop_isolation(false)]
    pub fn sub_scalar(&self, rhs: i64) -> (r: Tensor)
        requires
            self.wf(),
        ensures
            r.wf(),
            r.dims@ == self.dims@,
            r.values@.len() == self.values@.len(),
            forall|i: int|
                0 <= i < r.values@.len() ==> r.values@[i] == sub_elem(self.values@[i], rhs),
    {
        let n = self.values.len();
        let mut values: Vec<i64> = Vec::new();
        let mut i: usize = 0;
        while i < n
            invariant
                0 <= i <= n,
                values@.len() == i,
                forall|j: int| 0 <= j < i ==> values@[j] == sub_elem(self.values@[j], rhs),
            decreases n - i,
        {
            values.push(exec_sub_elem(self.values[i], rhs));
            i += 1;
        }
        Tensor { values, dims: self.dims.clone() }
    }

    /// Elementwise wrapping product of two same-shape tensors.
    #[verifier::loop_isolation(false)]
    pub fn mul(&self, rhs: &Tensor) -> (r: Result<Tensor, TensorError>)
        requires
            self.wf(),
            rhs.wf(),
        ensures
            match r {
                Ok(t) => {
                    &&& self.dims@ == rhs.dims@
                    &&& t.wf() && t.dims@ == self.dims@
                    &&& t.values@.len() == self.values@.len()
                    &&& forall|i: int|
                        0 <= i < t.values@.len() ==> t.values@[i] == mul_elem(
                            self.values@[i],
                            rhs.values@[i],
                        )
                },
                Err(e) => self.dims@ != rhs.dims@ && e == TensorError::ShapeMismatch,
            },
    {
        if !dims_equal(&self.dims, &rhs.dims) {
            return Err(TensorError::ShapeMismatch);
        }
        let n = self.values.len();
        let mut values: Vec<i64> = Vec::new();
        let mut i: usize = 0;
        while i < n
            invariant
                0 <= i <= n,
                values@.len() == i,
                forall|j: int|
                    0 <= j < i ==> values@[j] == mul_elem(self.values@[j], rhs.values@[j]),
            decreases n - i,
        {
            values.push(exec_mul_elem(self.values[i], rhs.values[i]));
            i += 1;
        }
        Ok(Tensor { values, dims: self.dims.clone() })
    }

    /// Wrapping product of every element with one scalar.
    #[verifier::loop_isolation(false)]
    pub fn mul_scalar(&self, rhs: i64) -> (r: Tensor)
        requires
            self.wf(),
        ensures
            r.wf(),
            r.dims@ == self.dims@,
            r.values@.len() == self.values@.len(),
            forall|i: int|
                0 <= i < r.values@.len() ==> r.values@[i] == mul_elem(self.values@[i], rhs),
    {
        let n = self.values.len();
        let mut values: Vec<i64> = Vec::new();
        let mut i: usize = 0;
        while i < n
            invariant
                0 <= i <= n,
                values@.len() == i,
                forall|j: int| 0 <= j < i ==> values@[j] == mul_elem(self.values@[j], rhs),
            decreases n - i,
        {
            values.push(exec_mul_elem(self.values[i], rhs));
            i += 1;
        }
        Tensor { values, dims: self.dims.clone() }
    }

    /// Elementwise truncating quotient of two same-shape tensors; division
    /// is the element type's own, so every divisor must be nonzero.
    #[verifier::loop_isolation(false)]
    pub fn div(&self, rhs: &Tensor) -> (r: Result<Tensor, TensorError>)
        requires
            self.wf(),
            rhs.wf(),
            forall|i: int| 0 <= i < rhs.values@.len() ==> rhs.values@[i] != 0i64,
        ensures
            match r {
                Ok(t) => {
                    &&& self.dims@ == rhs.dims@
                    &&& t.wf() && t.dims@ == self.dims@
                    &&& t.values@.len() == self.values@.len()
                    &&& forall|i: int|
                        0 <= i < t.values@.len() ==> t.values@[i] == div_elem(
                            self.values@[i],
                            rhs.values@[i],
                        )
                },
                Err(e) => self.dims@ != rhs.dims@ && e == TensorError::ShapeMismatch,
            },
    {
        if !dims_equal(&self.dims, &rhs.dims) {
            return Err(TensorError::ShapeMismatch);
        }
        let n = self.values.len();
        let mut values: Vec<i64> = Vec::new();
        let mut i: usize = 0;
        while i < n
            invariant
                0 <= i <= n,
                values@.len() == i,
                forall|j: int|
                    0 <= j < i ==> values@[j] == div_elem(self.values@[j], rhs.values@[j]),
            decreases n - i,
        {
            values.push(exec_div_elem(self.values[i], rhs.values[i]));
            i += 1;
        }
        Ok(Tensor { values, dims: self.dims.clone() })
    }

    /// Truncating quotient of every element by one nonzero scalar.
    #[verifier::loop_isolation(false)]
    pub fn div_scalar(&self, rhs: i64) -> (r: Tensor)
        requires
            self.wf(),
            rhs != 0,
        ensures
            r.wf(),
            r.dims@ == self.dims@,
            r.values@.len() == self.values@.len(),
            forall|i: int|
                0 <= i < r.values@.len() ==> r.values@[i] == div_elem(self.values@[i], rhs),
    {
        let n = self.values.len();
        let mut values: Vec<i64> = Vec::new();
        let mut i: usize = 0;
        while i < n
            invariant
                0 <= i <= n,
                values@.len() == i,
                forall|j: int| 0 <= j < i ==> values@[j] == div_elem(self.values@[j], rhs),
            decreases n - i,
        {
            values.push(exec_div_elem(self.values[i], rhs));
            i += 1;
        }
        Tensor { values, dims: self.dims.clone() }
    }

    /// Negation, computed as the engine defines it: a wrapping multiply of
    /// every element by minus one.
    pub fn neg(&self) -> (r: Tensor)
        requires
            self.wf(),
        ensures
            r.wf(),
            r.dims@ == self.dims@,
            r.values@.len() == self.values@.len(),
            forall|i: int|
                0 <= i < r.values@.len() ==> r.values@[i] == neg_elem(self.values@[i]),
    {
        self.mul_scalar(-1)
    }

    /// The rectifier: each element below zero becomes zero, the rest stay.
    #[verifier::loop_isolation(false)]
    pub fn relu(&self) -> (r: Tensor)
        requires
            self.wf(),
        ensures
            r.wf(),
            r.dims@ == self.dims@,
            r.values@.len() == self.values@.len(),
            forall|i: int|
                0 <= i < r.values@.len() ==> r.values@[i] == relu_elem(self.values@[i]),
    {
        let n = self.values.len();
        let mut values: Vec<i64> = Vec::new();
        let mut i: usize = 0;
        while i < n
            invariant
                0 <= i <= n,
                values@.len() == i,
                forall|j: int| 0 <= j < i ==> values@[j] == relu_elem(self.values@[j]),
            decreases n - i,
        {
            let v = self.values[i];
            if v < 0 {
                values.push(0);
            } else {
                values.push(v);
            }
            i += 1;
        }
        Tensor { values, dims: self.dims.clone() }
    }

    /// Elementwise select: where the mask holds, the fill value; elsewhere
    /// the tensor's own element.
    #[verifier::loop_isolation(false)]
    pub fn mask_fill(&self, mask: &BoolTensor, value: i64) -> (r: Result<Tensor, TensorError>)
        requires
            self.wf(),
            mask.wf(),
        ensures
            match r {
                Ok(t) => {
                    &&& self.dims@ == mask.dims@
                    &&& t.wf() && t.dims@ == self.dims@
                    &&& t.values@.len() == self.values@.len()
                    &&& forall|i: int|
                        0 <= i < t.values@.len() ==> t.values@[i] == (if mask.values@[i] {
                            value
                        } else {
                            self.values@[i]
                        })
                },
                Err(e) => self.dims@ != mask.dims@ && e == TensorError::ShapeMismatch,
            },
    {
        if !dims_equal(&self.dims, &mask.dims) {
            return Err(TensorError::ShapeMismatch);
        }
        let n = self.values.len();
        let mut values: Vec<i64> = Vec::new();
        let mut i: usize = 0;
        while i < n
            invariant
                0 <= i <= n,
                values@.len() == i,
                forall|j: int|
                    0 <= j < i ==> values@[j] == (if mask.values@[j] {
                        value
                    } else {
                        self.values@[j]
                    }),
            decreases n - i,
        {
            if mask.values[i] {
                values.push(value);
            } else {
                values.push(self.values[i]);
            }
            i += 1;
        }
        Ok(Tensor { values, dims: self.dims.clone() })
    }
}

} // verus!
