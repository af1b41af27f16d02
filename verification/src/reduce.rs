//! Reduction engine: whole-tensor and single-axis sums and means, and
//! extreme-value index searches with a first-occurrence tie-break.
use vstd::prelude::*;

use crate::elem::{add_elem, div_elem, exec_add_elem, exec_div_elem};
use crate::shape::{all_positive, decode_index, element_count, encode_index, flat_of, idx_of,
    lemma_flat_bounds, lemma_flat_injective, lemma_prod_collapse_axis, lemma_prod_pos, prod,
    valid_index};
use crate::tensor::{Tensor, TensorError};

verus! {

/// Wrapping sum of a whole value sequence, accumulated left to right.
pub open spec fn sum_wrap(s: Seq<i64>) -> i64
    decreases s.len(),
{
    if s.len() == 0 {
        0i64
    } else {
        add_elem(sum_wrap(s.drop_last()), s.last())
    }
}

/// Wrapping sum of the first `j` elements along axis `d`, for the row the
/// other coordinates of `idx` fix.
pub open spec fn axis_sum(values: Seq<i64>, dims: Seq<usize>, idx: Seq<int>, d: int, j: int) -> i64
    decreases j,
{
    if j <= 0 {
        0i64
    } else {
        add_elem(
            axis_sum(values, dims, idx, d, j - 1),
            values[flat_of(dims, idx.update(d, j - 1))],
        )
    }
}

/// The position holds the extreme value and no earlier position ties it.
pub open spec fn is_first_max(chunk: Seq<i64>, i: int) -> bool {
    &&& 0 <= i < chunk.len()
    &&& forall|j: int| 0 <= j < chunk.len() ==> chunk[j] <= chunk[i]
    &&& forall|j: int| 0 <= j < i ==> chunk[j] < chunk[i]
}

/// The position holds the least value and no earlier position ties it.
pub open spec fn is_first_min(chunk: Seq<i64>, i: int) -> bool {
    &&& 0 <= i < chunk.len()
    &&& forall|j: int| 0 <= j < chunk.len() ==> chunk[j] >= chunk[i]
    &&& forall|j: int| 0 <= j < i ==> chunk[j] > chunk[i]
}

impl Tensor {
    /// Wrapping sum of every element, as a rank-one, length-one tensor.
    #[verifier::loop_isolation(false)]
    pub fn sum(&self) -> (r: Tensor)
        requires
            self.wf(),
        ensures
            r.wf(),
            r.dims@ =~= seq![1usize],
            r.values@.len() == 1,
            r.values@[0] == sum_wrap(self.values@),
    {
        let n = self.values.len();
        let mut acc: i64 = 0;
        let mut i: usize = 0;
        proof {
            assert(self.values@.subrange(0, 0) =~= Seq::<i64>::empty());
        }
        while i < n
            invariant
                0 <= i <= n,
                acc == sum_wrap(self.values@.subrange(0, i as int)),
            decreases n - i,
        {
            proof {
                let pre = self.values@.subrange(0, i as int + 1);
                assert(pre.drop_last() =~= self.values@.subrange(0, i as int));
                assert(pre.last() == self.values@[i as int]);
            }
            acc = exec_add_elem(acc, self.values[i]);
            i += 1;
        }
        let mut values: Vec<i64> = Vec::new();
        values.push(acc);
        let mut dims: Vec<usize> = Vec::new();
        dims.push(1);
        proof {
            assert(self.values@.subrange(0, n as int) =~= self.values@);
            assert(dims@ =~= seq![1usize]);
            assert(dims@.subrange(1, 1) =~= Seq::<usize>::empty());
            assert(prod(Seq::<usize>::empty()) == 1);
            assert(prod(dims@) == 1 * prod(dims@.subrange(1, 1)));
        }
        Tensor { values, dims }
    }

    /// Truncating mean of every element, as a rank-one, length-one tensor.
    pub fn mean(&self) -> (r: Tensor)
        requires
            self.wf(),
            self.values@.len() <= i64::MAX,
        ensures
            r.wf(),
            r.dims@ =~= seq![1usize],
            r.values@.len() == 1,
            r.values@[0] == div_elem(sum_wrap(self.values@), self.values@.len() as i64),
    {
        proof {
            lemma_prod_pos(self.dims@);
        }
        let s = self.sum();
        let count = self.values.len() as i64;
        let v = exec_div_elem(s.values[0], count);
        let mut values: Vec<i64> = Vec::new();
        values.push(v);
        Tensor { values, dims: s.dims }
    }

    /// Sum along one axis: the axis's extent collapses to one and the rank
    /// is kept; each output cell is the wrapping sum of its row.
    #[verifier::loop_isolation(false)]
    #[verifier::rlimit(80)]
    pub fn sum_dim(&self, d: usize) -> (r: Result<Tensor, TensorError>)
        requires
            self.wf(),
        ensures
            match r {
                Ok(t) => {
                    &&& (d as int) < self.dims@.len()
                    &&& t.wf()
                    &&& t.dims@ == self.dims@.update(d as int, 1usize)
                    &&& forall|idx: Seq<int>|
                        valid_index(t.dims@, idx) ==> t.values@[#[trigger] flat_of(t.dims@, idx)]
                            == axis_sum(
                            self.values@,
                            self.dims@,
                            idx,
                            d as int,
                            self.dims@[d as int] as int,
                        )
                },
                Err(e) => d >= self.dims@.len() && e == TensorError::BadAxis,
            },
    {
        if d >= self.dims.len() {
            return Err(TensorError::BadAxis);
        }
        let nd = self.dims[d];
        let n = self.values.len();
        let mut out_dims = self.dims.clone();
        out_dims[d] = 1;
        proof {
            lemma_prod_collapse_axis(self.dims@, d as int);
            lemma_prod_pos(self.dims@);
            assert(all_positive(out_dims@));
            lemma_prod_pos(out_dims@);
            assert(prod(out_dims@) <= prod(out_dims@) * nd) by (nonlinear_arith)
                requires
                    prod(out_dims@) >= 1,
                    nd >= 1,
            ;
            assert(prod(out_dims@) <= n);
        }
        let out_count = match element_count(&out_dims) {
            Some(c) => c,
            None => {
                // a positive shape whose count fits the machine word always
                // has an element count
                proof {
                    assert(false);
                }
                0
            },
        };
        let mut values: Vec<i64> = Vec::new();
        let mut p: usize = 0;
        while p < out_count
            invariant
                0 <= p <= out_count,
                values@.len() == p,
                forall|idx: Seq<int>|
                    valid_index(out_dims@, idx) && 0 <= flat_of(out_dims@, idx) < p
                        ==> values@[#[trigger] flat_of(out_dims@, idx)] == axis_sum(
                        self.values@,
                        self.dims@,
                        idx,
                        d as int,
                        nd as int,
                    ),
            decreases out_count - p,
        {
            let oidx = decode_index(&out_dims, p);
            let mut idxv = oidx.clone();
            let mut acc: i64 = 0;
            let mut j: usize = 0;
            while j < nd
                invariant
                    0 <= j <= nd,
                    idxv@.len() == oidx@.len(),
                    forall|k: int| 0 <= k < idxv@.len() && k != d ==> idxv@[k] == oidx@[k],
                    acc == axis_sum(self.values@, self.dims@, idx_of(oidx@), d as int, j as int),
                decreases nd - j,
            {
                idxv[d] = j;
                proof {
                    assert forall|k: int| 0 <= k < self.dims@.len() implies 0 <= #[trigger] idx_of(
                        idxv@,
                    )[k] < self.dims@[k] by {
                        if k != d {
                            assert(idx_of(oidx@)[k] < out_dims@[k]);
                        }
                    }
                    assert(idx_of(idxv@) =~= idx_of(oidx@).update(d as int, j as int));
                }
                let pos = encode_index(&self.dims, &idxv);
                acc = exec_add_elem(acc, self.values[pos]);
                j += 1;
            }
            values.push(acc);
            p += 1;
            proof {
                assert forall|idx: Seq<int>|
                    valid_index(out_dims@, idx) && 0 <= flat_of(out_dims@, idx)
                        < p implies values@[#[trigger] flat_of(out_dims@, idx)] == axis_sum(
                    self.values@,
                    self.dims@,
                    idx,
                    d as int,
                    nd as int,
                ) by {
                    lemma_flat_bounds(out_dims@, idx);
                    if flat_of(out_dims@, idx) == p - 1 {
                        lemma_flat_injective(out_dims@, idx, idx_of(oidx@));
                    }
                }
            }
        }
        proof {
            assert forall|idx: Seq<int>| valid_index(out_dims@, idx) implies values@[#[trigger] flat_of(
                out_dims@,
                idx,
            )] == axis_sum(self.values@, self.dims@, idx, d as int, nd as int) by {
                lemma_flat_bounds(out_dims@, idx);
            }
        }
        Ok(Tensor { values, dims: out_dims })
    }

    /// Truncating mean along one axis: the summed row divided by the
    /// axis's extent, rank kept.
    pub fn mean_dim(&self, d: usize) -> (r: Result<Tensor, TensorError>)
        requires
            self.wf(),
            d < self.dims@.len() ==> self.dims@[d as int] <= i64::MAX,
        ensures
            match r {
                Ok(t) => {
                    &&& (d as int) < self.dims@.len()
                    &&& t.wf()
                    &&& t.dims@ == self.dims@.update(d as int, 1usize)
                    &&& forall|idx: Seq<int>|
                        valid_index(t.dims@, idx) ==> t.values@[#[trigger] flat_of(t.dims@, idx)]
                            == div_elem(
                            axis_sum(
                                self.values@,
                                self.dims@,
                                idx,
                                d as int,
                                self.dims@[d as int] as int,
                            ),
                            self.dims@[d as int] as i64,
                        )
                },
                Err(e) => d >= self.dims@.len() && e == TensorError::BadAxis,
            },
    {
        let s = match self.sum_dim(d) {
            Ok(s) => s,
            Err(e) => {
                return Err(e);
            },
        };
        let nd = self.dims[d] as i64;
        let r = s.div_scalar(nd);
        proof {
            assert forall|idx: Seq<int>| valid_index(r.dims@, idx) implies r.values@[#[trigger] flat_of(
                r.dims@,
                idx,
            )] == div_elem(
                axis_sum(self.values@, self.dims@, idx, d as int, self.dims@[d as int] as int),
                self.dims@[d as int] as i64,
            ) by {
                lemma_flat_bounds(r.dims@, idx);
            }
        }
        Ok(r)
    }

    /// Index of the greatest element along one axis, first occurrence in
    /// storage order winning ties; the axis collapses to extent one and
    /// indices come out as elements.
    #[verifier::loop_isolation(false)]
    #[verifier::rlimit(80)]
    pub fn argmax(&self, d: usize) -> (r: Result<Tensor, TensorError>)
        requires
            self.wf(),
            d < self.dims@.len() ==> self.dims@[d as int] <= i64::MAX,
        ensures
            match r {
                Ok(t) => {
                    &&& (d as int) < self.dims@.len()
                    &&& t.wf()
                    &&& t.dims@ == self.dims@.update(d as int, 1usize)
                    &&& t.values@.len() * self.dims@[d as int] == self.values@.len()
                    &&& forall|c: int|
                        0 <= c < t.values@.len() ==> 0 <= #[trigger] t.values@[c] && is_first_max(
                            self.values@.subrange(
                                c * self.dims@[d as int],
                                (c + 1) * self.dims@[d as int],
                            ),
                            t.values@[c] as int,
                        )
                },
                Err(e) => d >= self.dims@.len() && e == TensorError::BadAxis,
            },
    {
        if d >= self.dims.len() {
            return Err(TensorError::BadAxis);
        }
        let nd = self.dims[d];
        let mut out_dims = self.dims.clone();
        out_dims[d] = 1;
        proof {
            lemma_prod_collapse_axis(self.dims@, d as int);
            lemma_prod_pos(self.dims@);
            assert(all_positive(out_dims@));
            lemma_prod_pos(out_dims@);
        }
        let n = self.values.len();
        let n_chunks = n / nd;
        proof {
            let pc = prod(out_dims@);
            assert(pc * nd == n);
            vstd::arithmetic::div_mod::lemma_div_by_multiple(pc, nd as int);
            assert(n_chunks == pc);
            assert(n_chunks * nd == n);
        }
        let mut values: Vec<i64> = Vec::new();
        let mut c: usize = 0;
        while c < n_chunks
            invariant
                0 <= c <= n_chunks,
                values@.len() == c,
                forall|cc: int|
                    0 <= cc < c ==> 0 <= #[trigger] values@[cc] && is_first_max(
                        self.values@.subrange(cc * nd, (cc + 1) * nd),
                        values@[cc] as int,
                    ),
            decreases n_chunks - c,
        {
            proof {
                assert((c + 1) * nd <= n_chunks * nd) by (nonlinear_arith)
                    requires
                        c + 1 <= n_chunks,
                        nd >= 1,
                ;
                assert(c * nd + nd == (c + 1) * nd) by (nonlinear_arith);
            }
            let start = c * nd;
            let mut bi: usize = 0;
            let mut j: usize = 1;
            while j < nd
                invariant
                    start == c * nd,
                    start + nd <= n,
                    0 <= bi < j <= nd,
                    forall|jj: int|
                        0 <= jj < j ==> #[trigger] self.values@[start + jj] <= self.values@[start + bi],
                    forall|jj: int|
                        0 <= jj < bi ==> #[trigger] self.values@[start + jj] < self.values@[start + bi],
                decreases nd - j,
            {
                if self.values[start + j] > self.values[start + bi] {
                    bi = j;
                }
                j += 1;
            }
            values.push(bi as i64);
            c += 1;
            proof {
                let chunk = self.values@.subrange(c as int * nd - nd, c as int * nd);
                assert(chunk =~= self.values@.subrange(
                    (c - 1) as int * nd,
                    ((c - 1) + 1) as int * nd,
                ));
                assert forall|jj: int| 0 <= jj < chunk.len() implies chunk[jj] <= chunk[bi as int] by {
                    assert(chunk[jj] == self.values@[start + jj]);
                }
                assert forall|jj: int| 0 <= jj < bi implies chunk[jj] < chunk[bi as int] by {
                    assert(chunk[jj] == self.values@[start + jj]);
                }
                assert(is_first_max(
                    self.values@.subrange((c - 1) as int * nd, ((c - 1) + 1) as int * nd),
                    bi as int,
                ));
            }
        }
        Ok(Tensor { values, dims: out_dims })
    }

    /// Index of the least element along one axis, first occurrence in
    /// storage order winning ties; the axis collapses to extent one and
    /// indices come out as elements.
    #[verifier::loop_isolation(false)]
    #[verifier::rlimit(80)]
    pub fn argmin(&self, d: usize) -> (r: Result<Tensor, TensorError>)
        requires
            self.wf(),
            d < self.dims@.len() ==> self.dims@[d as int] <= i64::MAX,
        ensures
            match r {
                Ok(t) => {
                    &&& (d as int) < self.dims@.len()
                    &&& t.wf()
                    &&& t.dims@ == self.dims@.update(d as int, 1usize)
                    &&& t.values@.len() * self.dims@[d as int] == self.values@.len()
                    &&& forall|c: int|
                        0 <= c < t.values@.len() ==> 0 <= #[trigger] t.values@[c] && is_first_min(
                            self.values@.subrange(
                                c * self.dims@[d as int],
                                (c + 1) * self.dims@[d as int],
                            ),
                            t.values@[c] as int,
                        )
                },
                Err(e) => d >= self.dims@.len() && e == TensorError::BadAxis,
            },
    {
        if d >= self.dims.len() {
            return Err(TensorError::BadAxis);
        }
        let nd = self.dims[d];
        let mut out_dims = self.dims.clone();
        out_dims[d] = 1;
        proof {
            lemma_prod_collapse_axis(self.dims@, d as int);
            lemma_prod_pos(self.dims@);
            assert(all_positive(out_dims@));
            lemma_prod_pos(out_dims@);
        }
        let n = self.values.len();
        let n_chunks = n / nd;
        proof {
            let pc = prod(out_dims@);
            assert(pc * nd == n);
            vstd::arithmetic::div_mod::lemma_div_by_multiple(pc, nd as int);
            assert(n_chunks == pc);
            assert(n_chunks * nd == n);
        }
        let mut values: Vec<i64> = Vec::new();
        let mut c: usize = 0;
        while c < n_chunks
            invariant
                0 <= c <= n_chunks,
                values@.len() == c,
                forall|cc: int|
                    0 <= cc < c ==> 0 <= #[trigger] values@[cc] && is_first_min(
                        self.values@.subrange(cc * nd, (cc + 1) * nd),
                        values@[cc] as int,
                    ),
            decreases n_chunks - c,
        {
            proof {
                assert((c + 1) * nd <= n_chunks * nd) by (nonlinear_arith)
                    requires
                        c + 1 <= n_chunks,
                        nd >= 1,
                ;
                assert(c * nd + nd == (c + 1) * nd) by (nonlinear_arith);
            }
            let start = c * nd;
            let mut bi: usize = 0;
            let mut j: usize = 1;
            while j < nd
                invariant
                    start == c * nd,
                    start + nd <= n,
                    0 <= bi < j <= nd,
                    forall|jj: int|
                        0 <= jj < j ==> #[trigger] self.values@[start + jj] >= self.values@[start + bi],
                    forall|jj: int|
                        0 <= jj < bi ==> #[trigger] self.values@[start + jj] > self.values@[start + bi],
                decreases nd - j,
            {
                if self.values[start + j] < self.values[start + bi] {
                    bi = j;
                }
                j += 1;
            }
            values.push(bi as i64);
            c += 1;
            proof {
                let chunk = self.values@.subrange(c as int * nd - nd, c as int * nd);
                assert(chunk =~= self.values@.subrange(
                    (c - 1) as int * nd,
                    ((c - 1) + 1) as int * nd,
                ));
                assert forall|jj: int| 0 <= jj < chunk.len() implies chunk[jj] >= chunk[bi as int] by {
                    assert(chunk[jj] == self.values@[start + jj]);
                }
                assert forall|jj: int| 0 <= jj < bi implies chunk[jj] > chunk[bi as int] by {
                    assert(chunk[jj] == self.values@[start + jj]);
                }
                assert(is_first_min(
                    self.values@.subrange((c - 1) as int * nd, ((c - 1) + 1) as int * nd),
                    bi as int,
                ));
            }
        }
        Ok(Tensor { values, dims: out_dims })
    }
}

} // verus!
