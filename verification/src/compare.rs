//! Comparison engine: elementwise order and equality tests against a
//! second tensor or a scalar, producing truth-valued tensors. Comparisons
//! are computed directly per element, not routed through subtraction, so
//! they cannot inherit its wrapping behavior.
use vstd::prelude::*;

use crate::elementwise::dims_equal;
use crate::tensor::{BoolTensor, Tensor, TensorError};

verus! {

impl Tensor {
    /// Elementwise equality of two same-shape tensors.
    #[verifier::loop_isolation(false)]
    pub fn equal(&self, rhs: &Tensor) -> (r: Result<BoolTensor, TensorError>)
        requires
            self.wf(),
            rhs.wf(),
        ensures
            match r {
                Ok(t) => {
                    &&& self.dims@ == rhs.dims@
                    &&& t.wf() && t.dims@ == self.dims@
                    &&& t.values@.len() == self.values@.len()
                    &&& forall|i: int|
                        0 <= i < t.values@.len() ==> t.values@[i] == (self.values@[i]
                            == rhs.values@[i])
                },
                Err(e) => self.dims@ != rhs.dims@ && e == TensorError::ShapeMismatch,
            },
    {
        if !dims_equal(&self.dims, &rhs.dims) {
            return Err(TensorError::ShapeMismatch);
        }
        let n = self.values.len();
        let mut values: Vec<bool> = Vec::new();
        let mut i: usize = 0;
        while i < n
            invariant
                0 <= i <= n,
                values@.len() == i,
                forall|j: int|
                    0 <= j < i ==> values@[j] == (self.values@[j] == rhs.values@[j]),
            decreases n - i,
        {
            values.push(self.values[i] == rhs.values[i]);
            i += 1;
        }
        Ok(BoolTensor { values, dims: self.dims.clone() })
    }

    /// Elementwise equality against one scalar.
    #[verifier::loop_isolation(false)]
    pub fn equal_scalar(&self, rhs: i64) -> (r: BoolTensor)
        requires
            self.wf(),
        ensures
            r.wf(),
            r.dims@ == self.dims@,
            r.values@.len() == self.values@.len(),
            forall|i: int| 0 <= i < r.values@.len() ==> r.values@[i] == (self.values@[i] == rhs),
    {
        let n = self.values.len();
        let mut values: Vec<bool> = Vec::new();
        let mut i: usize = 0;
        while i < n
            invariant
                0 <= i <= n,
                values@.len() == i,
                forall|j: int| 0 <= j < i ==> values@[j] == (self.values@[j] == rhs),
            decreases n - i,
        {
            values.push(self.values[i] == rhs);
            i += 1;
        }
        BoolTensor { values, dims: self.dims.clone() }
    }

    /// Elementwise strictly-greater test of two same-shape tensors.
    #[verifier::loop_isolation(false)]
    pub fn greater(&self, rhs: &Tensor) -> (r: Result<BoolTensor, TensorError>)
        requires
            self.wf(),
            rhs.wf(),
        ensures
            match r {
                Ok(t) => {
                    &&& self.dims@ == rhs.dims@
                    &&& t.wf() && t.dims@ == self.dims@
                    &&& t.values@.len() == self.values@.len()
                    &&& forall|i: int|
                        0 <= i < t.values@.len() ==> t.values@[i] == (self.values@[i]
                            > rhs.values@[i])
                },
                Err(e) => self.dims@ != rhs.dims@ && e == TensorError::ShapeMismatch,
            },
    {
        if !dims_equal(&self.dims, &rhs.dims) {
            return Err(TensorError::ShapeMismatch);
        }
        let n = self.values.len();
        let mut values: Vec<bool> = Vec::new();
        let mut i: usize = 0;
        while i < n
            invariant
                0 <= i <= n,
                values@.len() == i,
                forall|j: int| 0 <= j < i ==> values@[j] == (self.values@[j] > rhs.values@[j]),
            decreases n - i,
        {
            values.push(self.values[i] > rhs.values[i]);
            i += 1;
        }
        Ok(BoolTensor { values, dims: self.dims.clone() })
    }

    /// Elementwise strictly-greater test against one scalar.
    #[verifier::loop_isolation(false)]
    pub fn greater_scalar(&self, rhs: i64) -> (r: BoolTensor)
        requires
            self.wf(),
        ensures
            r.wf(),
            r.dims@ == self.dims@,
            r.values@.len() == self.values@.len(),
            forall|i: int| 0 <= i < r.values@.len() ==> r.values@[i] == (self.values@[i] > rhs),
    {
        let n = self.values.len();
        let mut values: Vec<bool> = Vec::new();
        let mut i: usize = 0;
        while i < n
            invariant
                0 <= i <= n,
                values@.len() == i,
                forall|j: int| 0 <= j < i ==> values@[j] == (self.values@[j] > rhs),
            decreases n - i,
        {
            values.push(self.values[i] > rhs);
            i += 1;
        }
        BoolTensor { values, dims: self.dims.clone() }
    }

    /// Elementwise greater-or-equal test of two same-shape tensors.
    #[verifier::loop_isolation(false)]
    pub fn greater_equal(&self, rhs: &Tensor) -> (r: Result<BoolTensor, TensorError>)
        requires
            self.wf(),
            rhs.wf(),
        ensures
            match r {
                Ok(t) => {
                    &&& self.dims@ == rhs.dims@
                    &&& t.wf() && t.dims@ == self.dims@
                    &&& t.values@.len() == self.values@.len()
                    &&& forall|i: int|
                        0 <= i < t.values@.len() ==> t.values@[i] == (self.values@[i]
                            >= rhs.values@[i])
                },
                Err(e) => self.dims@ != rhs.dims@ && e == TensorError::ShapeMismatch,
            },
    {
        if !dims_equal(&self.dims, &rhs.dims) {
            return Err(TensorError::ShapeMismatch);
        }
        let n = self.values.len();
        let mut values: Vec<bool> = Vec::new();
        let mut i: usize = 0;
        while i < n
            invariant
                0 <= i <= n,
                values@.len() == i,
                forall|j: int| 0 <= j < i ==> values@[j] == (self.values@[j] >= rhs.values@[j]),
            decreases n - i,
        {
            values.push(self.values[i] >= rhs.values[i]);
            i += 1;
        }
        Ok(BoolTensor { values, dims: self.dims.clone() })
    }

    /// Elementwise greater-or-equal test against one scalar.
    #[verifier::loop_isolation(false)]
    pub fn greater_equal_scalar(&self, rhs: i64) -> (r: BoolTensor)
        requires
            self.wf(),
        ensures
            r.wf(),
            r.dims@ == self.dims@,
            r.values@.len() == self.values@.len(),
            forall|i: int| 0 <= i < r.values@.len() ==> r.values@[i] == (self.values@[i] >= rhs),
    {
        let n = self.values.len();
        let mut values: Vec<bool> = Vec::new();
        let mut i: usize = 0;
        while i < n
            invariant
                0 <= i <= n,
                values@.len() == i,
                forall|j: int| 0 <= j < i ==> values@[j] == (self.values@[j] >= rhs),
            decreases n - i,
        {
            values.push(self.values[i] >= rhs);
            i += 1;
        }
        BoolTensor { values, dims: self.dims.clone() }
    }

    /// Elementwise strictly-lower test of two same-shape tensors.
    #[verifier::loop_isolation(false)]
    pub fn lower(&self, rhs: &Tensor) -> (r: Result<BoolTensor, TensorError>)
        requires
            self.wf(),
            rhs.wf(),
        ensures
            match r {
                Ok(t) => {
                    &&& self.dims@ == rhs.dims@
                    &&& t.wf() && t.dims@ == self.dims@
                    &&& t.values@.len() == self.values@.len()
                    &&& forall|i: int|
                        0 <= i < t.values@.len() ==> t.values@[i] == (self.values@[i]
                            < rhs.values@[i])
                },
                Err(e) => self.dims@ != rhs.dims@ && e == TensorError::ShapeMismatch,
            },
    {
        if !dims_equal(&self.dims, &rhs.dims) {
            return Err(TensorError::ShapeMismatch);
        }
        let n = self.values.len();
        let mut values: Vec<bool> = Vec::new();
        let mut i: usize = 0;
        while i < n
            invariant
                0 <= i <= n,
                values@.len() == i,
                forall|j: int| 0 <= j < i ==> values@[j] == (self.values@[j] < rhs.values@[j]),
            decreases n - i,
        {
            values.push(self.values[i] < rhs.values[i]);
            i += 1;
        }
        Ok(BoolTensor { values, dims: self.dims.clone() })
    }

    /// Elementwise strictly-lower test against one scalar.
    #[verifier::loop_isolation(false)]
    pub fn lower_scalar(&self, rhs: i64) -> (r: BoolTensor)
        requires
            self.wf(),
        ensures
            r.wf(),
            r.dims@ == self.dims@,
            r.values@.len() == self.values@.len(),
            forall|i: int| 0 <= i < r.values@.len() ==> r.values@[i] == (self.values@[i] < rhs),
    {
        let n = self.values.len();
        let mut values: Vec<bool> = Vec::new();
        let mut i: usize = 0;
        while i < n
            invariant
                0 <= i <= n,
                values@.len() == i,
                forall|j: int| 0 <= j < i ==> values@[j] == (self.values@[j] < rhs),
            decreases n - i,
        {
            values.push(self.values[i] < rhs);
            i += 1;
        }
        BoolTensor { values, dims: self.dims.clone() }
    }

    /// Elementwise lower-or-equal test of two same-shape tensors.
    #[verifier::loop_isolation(false)]
    pub fn lower_equal(&self, rhs: &Tensor) -> (r: Result<BoolTensor, TensorError>)
        requires
            self.wf(),
            rhs.wf(),
        ensures
            match r {
                Ok(t) => {
                    &&& self.dims@ == rhs.dims@
                    &&& t.wf() && t.dims@ == self.dims@
                    &&& t.values@.len() == self.values@.len()
                    &&& forall|i: int|
                        0 <= i < t.values@.len() ==> t.values@[i] == (self.values@[i]
                            <= rhs.values@[i])
                },
                Err(e) => self.dims@ != rhs.dims@ && e == TensorError::ShapeMismatch,
            },
    {
        if !dims_equal(&self.dims, &rhs.dims) {
            return Err(TensorError::ShapeMismatch);
        }
        let n = self.values.len();
        let mut values: Vec<bool> = Vec::new();
        let mut i: usize = 0;
        while i < n
            invariant
                0 <= i <= n,
                values@.len() == i,
                forall|j: int| 0 <= j < i ==> values@[j] == (self.values@[j] <= rhs.values@[j]),
            decreases n - i,
        {
            values.push(self.values[i] <= rhs.values[i]);
            i += 1;
        }
        Ok(BoolTensor { values, dims: self.dims.clone() })
    }

    /// Elementwise lower-or-equal test against one scalar.
    #[verifier::loop_isolation(false)]
    pub fn lower_equal_scalar(&self, rhs: i64) -> (r: BoolTensor)
        requires
            self.wf(),
        ensures
            r.wf(),
            r.dims@ == self.dims@,
            r.values@.len() == self.values@.len(),
            forall|i: int| 0 <= i < r.values@.len() ==> r.values@[i] == (self.values@[i] <= rhs),
    {
        let n = self.values.len();
        let mut values: Vec<bool> = Vec::new();
        let mut i: usize = 0;
        while i < n
            invariant
                0 <= i <= n,
                values@.len() == i,
                forall|j: int| 0 <= j < i ==> values@[j] == (self.values@[j] <= rhs),
            decreases n - i,
        {
            values.push(self.values[i] <= rhs);
            i += 1;
        }
        BoolTensor { values, dims: self.dims.clone() }
    }
}

} // verus!
