//! Indexing engine: slicing by per-axis half-open ranges, writing a
//! tensor into an addressed sub-region, and swapping two axes.
use vstd::prelude::*;

use crate::shape::{all_positive, decode_index, element_count, encode_index, flat_of, idx_of,
    lemma_flat_bounds, lemma_flat_injective, lemma_prod_le, lemma_prod_swap, prod, valid_index};
use crate::tensor::{Tensor, TensorError};

verus! {

/// Every given range is non-empty and stops inside its axis's extent.
pub open spec fn ranges_ok(dims: Seq<usize>, ranges: Seq<(usize, usize)>) -> bool {
    forall|k: int|
        0 <= k < ranges.len() ==> (#[trigger] ranges[k]).0 < ranges[k].1 && ranges[k].1 <= dims[k]
}

/// The start of the addressed region on each axis: the range's start on
/// covered axes, zero on the rest.
pub open spec fn region_starts(ranges: Seq<(usize, usize)>, rank: nat) -> Seq<int> {
    Seq::new(rank, |k: int| if k < ranges.len() { (ranges[k]).0 as int } else { 0 })
}

/// The extents of the addressed region: the range's width on covered
/// axes, the whole axis on the rest.
pub open spec fn region_dims(dims: Seq<usize>, ranges: Seq<(usize, usize)>) -> Seq<usize> {
    Seq::new(
        dims.len(),
        |k: int|
            if k < ranges.len() {
                ((ranges[k]).1 - (ranges[k]).0) as usize
            } else {
                dims[k]
            },
    )
}

/// Pointwise sum of two multi-indices.
pub open spec fn idx_add(a: Seq<int>, b: Seq<int>) -> Seq<int> {
    Seq::new(a.len(), |k: int| a[k] + b[k])
}

/// The multi-index lies inside the addressed region.
pub open spec fn in_region(idx: Seq<int>, ranges: Seq<(usize, usize)>) -> bool {
    forall|k: int|
        0 <= k < ranges.len() ==> (#[trigger] ranges[k]).0 <= idx[k] < ranges[k].1
}

impl Tensor {
    /// Restrict the tensor to per-axis half-open ranges over its leading
    /// axes; axes not covered are taken in full. A range reaching outside
    /// the shape is refused, never clamped.
    #[verifier::loop_isolation(false)]
    #[verifier::rlimit(100)]
    pub fn index(&self, ranges: &Vec<(usize, usize)>) -> (r: Result<Tensor, TensorError>)
        requires
            self.wf(),
        ensures
            match r {
                Ok(t) => {
                    &&& ranges@.len() <= self.dims@.len()
                    &&& ranges_ok(self.dims@, ranges@)
                    &&& t.wf()
                    &&& t.dims@ == region_dims(self.dims@, ranges@)
                    &&& forall|idx: Seq<int>|
                        valid_index(t.dims@, idx) ==> t.values@[#[trigger] flat_of(t.dims@, idx)]
                            == self.values@[flat_of(
                            self.dims@,
                            idx_add(idx, region_starts(ranges@, self.dims@.len())),
                        )]
                },
                Err(e) => match e {
                    TensorError::BadAxis => ranges@.len() > self.dims@.len(),
                    TensorError::OutOfRange => ranges@.len() <= self.dims@.len() && !ranges_ok(
                        self.dims@,
                        ranges@,
                    ),
                    _ => false,
                },
            },
    {
        let rank = self.dims.len();
        if ranges.len() > rank {
            return Err(TensorError::BadAxis);
        }
        let n = self.values.len();
        // validate the ranges and build the region's shape and starts
        let mut out_dims: Vec<usize> = Vec::new();
        let mut starts: Vec<usize> = Vec::new();
        let mut k: usize = 0;
        while k < rank
            invariant
                0 <= k <= rank,
                out_dims@.len() == k,
                starts@.len() == k,
                forall|j: int|
                    0 <= j < k && j < ranges@.len() ==> (#[trigger] ranges@[j]).0 < ranges@[j].1
                        && ranges@[j].1 <= self.dims@[j],
                forall|j: int| 0 <= j < k ==> out_dims@[j] == region_dims(self.dims@, ranges@)[j],
                forall|j: int|
                    0 <= j < k ==> starts@[j] as int == region_starts(ranges@, rank as nat)[j],
            decreases rank - k,
        {
            if k < ranges.len() {
                let (s, e) = ranges[k];
                if s >= e || e > self.dims[k] {
                    return Err(TensorError::OutOfRange);
                }
                out_dims.push(e - s);
                starts.push(s);
            } else {
                out_dims.push(self.dims[k]);
                starts.push(0);
            }
            k += 1;
        }
        proof {
            assert(all_positive(out_dims@));
            assert(forall|j: int| 0 <= j < rank ==> out_dims@[j] <= self.dims@[j]);
            lemma_prod_le(out_dims@, self.dims@);
        }
        let out_count = match element_count(&out_dims) {
            Some(c) => c,
            None => {
                // a positive shape whose count fits the machine word always
                // has an element count
                proof {
                    assert(false);
                }
                0
            },
        };
        let ghost gstarts = region_starts(ranges@, rank as nat);
        let mut values: Vec<i64> = Vec::new();
        let mut p: usize = 0;
        while p < out_count
            invariant
                0 <= p <= out_count,
                values@.len() == p,
                forall|idx: Seq<int>|
                    valid_index(out_dims@, idx) && 0 <= flat_of(out_dims@, idx) < p
                        ==> values@[#[trigger] flat_of(out_dims@, idx)] == self.values@[flat_of(
                        self.dims@,
                        idx_add(idx, gstarts),
                    )],
            decreases out_count - p,
        {
            let oidx = decode_index(&out_dims, p);
            let mut sidx: Vec<usize> = Vec::new();
            let mut k2: usize = 0;
            while k2 < rank
                invariant
                    0 <= k2 <= rank,
                    sidx@.len() == k2,
                    forall|j: int|
                        0 <= j < k2 ==> sidx@[j] as int == idx_of(oidx@)[j] + gstarts[j],
                decreases rank - k2,
            {
                proof {
                    let kj = k2 as int;
                    assert(idx_of(oidx@)[kj] < out_dims@[kj]);
                    if kj < ranges@.len() {
                        assert(out_dims@[kj] == (ranges@[kj].1 - ranges@[kj].0) as usize);
                        assert(starts@[kj] as int == ranges@[kj].0 as int);
                    }
                }
                let v = oidx[k2] + starts[k2];
                sidx.push(v);
                k2 += 1;
            }
            proof {
                assert(idx_of(sidx@) =~= idx_add(idx_of(oidx@), gstarts));
                assert forall|j: int| 0 <= j < rank implies 0 <= #[trigger] idx_of(sidx@)[j]
                    < self.dims@[j] by {
                    assert(idx_of(oidx@)[j] < out_dims@[j]);
                }
            }
            let pos = encode_index(&self.dims, &sidx);
            values.push(self.values[pos]);
            p += 1;
            proof {
                assert forall|idx: Seq<int>|
                    valid_index(out_dims@, idx) && 0 <= flat_of(out_dims@, idx)
                        < p implies values@[#[trigger] flat_of(out_dims@, idx)]
                    == self.values@[flat_of(self.dims@, idx_add(idx, gstarts))] by {
                    lemma_flat_bounds(out_dims@, idx);
                    if flat_of(out_dims@, idx) == p - 1 {
                        lemma_flat_injective(out_dims@, idx, idx_of(oidx@));
                    }
                }
            }
        }
        proof {
            assert forall|idx: Seq<int>| valid_index(out_dims@, idx) implies values@[#[trigger] flat_of(
                out_dims@,
                idx,
            )] == self.values@[flat_of(self.dims@, idx_add(idx, gstarts))] by {
                lemma_flat_bounds(out_dims@, idx);
            }
            assert(out_dims@ =~= region_dims(self.dims@, ranges@));
        }
        Ok(Tensor { values, dims: out_dims })
    }

    /// Write `value` into the addressed sub-region, handing back the
    /// updated tensor; cells outside the region keep their elements.
    #[verifier::loop_isolation(false)]
    #[verifier::rlimit(100)]
    pub fn index_assign(&self, ranges: &Vec<(usize, usize)>, value: &Tensor) -> (r: Result<
        Tensor,
        TensorError,
    >)
        requires
            self.wf(),
            value.wf(),
        ensures
            match r {
                Ok(t) => {
                    &&& ranges@.len() <= self.dims@.len()
                    &&& ranges_ok(self.dims@, ranges@)
                    &&& value.dims@ == region_dims(self.dims@, ranges@)
                    &&& t.wf()
                    &&& t.dims@ == self.dims@
                    &&& forall|idx: Seq<int>|
                        valid_index(value.dims@, idx) ==> t.values@[flat_of(
                            self.dims@,
                            #[trigger] idx_add(idx, region_starts(ranges@, self.dims@.len())),
                        )] == value.values@[flat_of(value.dims@, idx)]
                    &&& forall|idx: Seq<int>|
                        valid_index(self.dims@, idx) && !in_region(idx, ranges@)
                            ==> t.values@[#[trigger] flat_of(self.dims@, idx)]
                            == self.values@[flat_of(self.dims@, idx)]
                },
                Err(e) => match e {
                    TensorError::BadAxis => ranges@.len() > self.dims@.len(),
                    TensorError::OutOfRange => ranges@.len() <= self.dims@.len() && !ranges_ok(
                        self.dims@,
                        ranges@,
                    ),
                    TensorError::ShapeMismatch => ranges_ok(self.dims@, ranges@) && ranges@.len()
                        <= self.dims@.len() && value.dims@ != region_dims(self.dims@, ranges@),
                    _ => false,
                },
            },
    {
        let rank = self.dims.len();
        if ranges.len() > rank {
            return Err(TensorError::BadAxis);
        }
        let n = self.values.len();
        let vn = value.values.len();
        let mut reg_dims: Vec<usize> = Vec::new();
        let mut starts: Vec<usize> = Vec::new();
        let mut ends: Vec<usize> = Vec::new();
        let mut k: usize = 0;
        while k < rank
            invariant
                0 <= k <= rank,
                reg_dims@.len() == k,
                starts@.len() == k,
                ends@.len() == k,
                forall|j: int|
                    0 <= j < k && j < ranges@.len() ==> (#[trigger] ranges@[j]).0 < ranges@[j].1
                        && ranges@[j].1 <= self.dims@[j],
                forall|j: int| 0 <= j < k ==> reg_dims@[j] == region_dims(self.dims@, ranges@)[j],
                forall|j: int|
                    0 <= j < k ==> starts@[j] as int == region_starts(ranges@, rank as nat)[j],
                forall|j: int|
                    0 <= j < k ==> ends@[j] as int == starts@[j] + reg_dims@[j],
            decreases rank - k,
        {
            if k < ranges.len() {
                let (s, e) = ranges[k];
                if s >= e || e > self.dims[k] {
                    return Err(TensorError::OutOfRange);
                }
                reg_dims.push(e - s);
                starts.push(s);
                ends.push(e);
            } else {
                reg_dims.push(self.dims[k]);
                starts.push(0);
                ends.push(self.dims[k]);
            }
            k += 1;
        }
        proof {
            assert(region_dims(self.dims@, ranges@) =~= reg_dims@);
        }
        if !crate::elementwise::dims_equal(&value.dims, &reg_dims) {
            return Err(TensorError::ShapeMismatch);
        }
        let ghost gstarts = region_starts(ranges@, rank as nat);
        let mut values: Vec<i64> = Vec::new();
        let mut p: usize = 0;
        while p < n
            invariant
                0 <= p <= n,
                values@.len() == p,
                forall|idx: Seq<int>|
                    valid_index(value.dims@, idx) && 0 <= flat_of(self.dims@, idx_add(idx, gstarts))
                        < p ==> values@[flat_of(
                        self.dims@,
                        #[trigger] idx_add(idx, gstarts),
                    )] == value.values@[flat_of(value.dims@, idx)],
                forall|idx: Seq<int>|
                    valid_index(self.dims@, idx) && !in_region(idx, ranges@) && 0 <= flat_of(
                        self.dims@,
                        idx,
                    ) < p ==> values@[#[trigger] flat_of(self.dims@, idx)] == self.values@[flat_of(
                        self.dims@,
                        idx,
                    )],
            decreases n - p,
        {
            let oidx = decode_index(&self.dims, p);
            // does the decoded index lie in the addressed region?
            let mut inside = true;
            let mut k2: usize = 0;
            while k2 < rank
                invariant
                    0 <= k2 <= rank,
                    inside <==> forall|j: int|
                        0 <= j < k2 ==> starts@[j] <= #[trigger] idx_of(oidx@)[j] < ends@[j],
                decreases rank - k2,
            {
                let c = oidx[k2];
                if c < starts[k2] || c >= ends[k2] {
                    proof {
                        let kj = k2 as int;
                        assert(!(starts@[kj] <= idx_of(oidx@)[kj] < ends@[kj]));
                    }
                    inside = false;
                    k2 = rank;
                } else {
                    k2 += 1;
                }
            }
            if inside {
                let mut vidx: Vec<usize> = Vec::new();
                let mut k3: usize = 0;
                while k3 < rank
                    invariant
                        0 <= k3 <= rank,
                        vidx@.len() == k3,
                        forall|j: int|
                            0 <= j < k3 ==> vidx@[j] as int == idx_of(oidx@)[j] - gstarts[j],
                    decreases rank - k3,
                {
                    proof {
                        let kj = k3 as int;
                        assert(starts@[kj] <= idx_of(oidx@)[kj] < ends@[kj]);
                    }
                    let v = oidx[k3] - starts[k3];
                    vidx.push(v);
                    k3 += 1;
                }
                proof {
                    assert forall|j: int| 0 <= j < rank implies 0 <= #[trigger] idx_of(vidx@)[j]
                        < value.dims@[j] by {
                        assert(starts@[j] <= idx_of(oidx@)[j] < ends@[j]);
                    }
                    assert(idx_add(idx_of(vidx@), gstarts) =~= idx_of(oidx@));
                }
                let q = encode_index(&value.dims, &vidx);
                values.push(value.values[q]);
                proof {
                    assert(idx_of(vidx@) =~= Seq::new(
                        self.dims@.len(),
                        |j: int| idx_of(oidx@)[j] - gstarts[j],
                    ));
                    assert(values@[p as int] == value.values@[flat_of(
                        value.dims@,
                        Seq::new(self.dims@.len(), |j: int| idx_of(oidx@)[j] - gstarts[j]),
                    )]);
                }
            } else {
                values.push(self.values[p]);
            }
            p += 1;
            proof {
                let gdecoded = idx_of(oidx@);
                assert forall|idx: Seq<int>|
                    valid_index(value.dims@, idx) && 0 <= flat_of(self.dims@, idx_add(idx, gstarts))
                        < p implies values@[flat_of(
                    self.dims@,
                    #[trigger] idx_add(idx, gstarts),
                )] == value.values@[flat_of(value.dims@, idx)] by {
                    let shifted = idx_add(idx, gstarts);
                    assert forall|j: int| 0 <= j < rank implies 0 <= #[trigger] shifted[j]
                        < self.dims@[j] by {
                        assert(idx[j] < value.dims@[j]);
                    }
                    lemma_flat_bounds(self.dims@, shifted);
                    if flat_of(self.dims@, shifted) == p - 1 {
                        lemma_flat_injective(self.dims@, shifted, gdecoded);
                        // the decoded index is inside the region
                        assert forall|j: int| 0 <= j < rank implies starts@[j]
                            <= #[trigger] gdecoded[j] < ends@[j] by {
                            assert(idx[j] < value.dims@[j]);
                        }
                        assert(inside);
                        assert(idx =~= Seq::new(
                            self.dims@.len(),
                            |j: int| idx_of(oidx@)[j] - gstarts[j],
                        ));
                    }
                }
                assert forall|idx: Seq<int>|
                    valid_index(self.dims@, idx) && !in_region(idx, ranges@) && 0 <= flat_of(
                        self.dims@,
                        idx,
                    ) < p implies values@[#[trigger] flat_of(self.dims@, idx)]
                    == self.values@[flat_of(self.dims@, idx)] by {
                    lemma_flat_bounds(self.dims@, idx);
                    if flat_of(self.dims@, idx) == p - 1 {
                        lemma_flat_injective(self.dims@, idx, gdecoded);
                        // a cell outside the region is never the decoded one
                        // when the decoded index is inside it
                        assert(!inside) by {
                            if inside {
                                let j = choose|j: int|
                                    0 <= j < ranges@.len() && !((#[trigger] ranges@[j]).0 <= idx[j]
                                        < ranges@[j].1);
                                assert(starts@[j] <= idx_of(oidx@)[j] < ends@[j]);
                            }
                        }
                    }
                }
            }
        }
        proof {
            assert forall|idx: Seq<int>| valid_index(value.dims@, idx) implies values@[flat_of(
                self.dims@,
                #[trigger] idx_add(idx, gstarts),
            )] == value.values@[flat_of(value.dims@, idx)] by {
                let shifted = idx_add(idx, gstarts);
                assert forall|j: int| 0 <= j < rank implies 0 <= #[trigger] shifted[j]
                    < self.dims@[j] by {
                    assert(idx[j] < value.dims@[j]);
                }
                lemma_flat_bounds(self.dims@, shifted);
            }
            assert forall|idx: Seq<int>|
                valid_index(self.dims@, idx) && !in_region(idx, ranges@) implies values@[#[trigger] flat_of(
                self.dims@,
                idx,
            )] == self.values@[flat_of(self.dims@, idx)] by {
                lemma_flat_bounds(self.dims@, idx);
            }
        }
        Ok(Tensor { values, dims: self.dims.clone() })
    }

    /// Exchange two axes: the shape swaps the two extents and each cell
    /// moves to the position with those coordinates exchanged.
    #[verifier::loop_isolation(false)]
    #[verifier::rlimit(100)]
    pub fn swap_dims(&self, d1: usize, d2: usize) -> (r: Result<Tensor, TensorError>)
        requires
            self.wf(),
        ensures
            match r {
                Ok(t) => {
                    &&& (d1 as int) < self.dims@.len() && (d2 as int) < self.dims@.len()
                    &&& t.wf()
                    &&& t.dims@ == self.dims@.update(d1 as int, self.dims@[d2 as int]).update(
                        d2 as int,
                        self.dims@[d1 as int],
                    )
                    &&& forall|idx: Seq<int>|
                        valid_index(t.dims@, idx) ==> t.values@[#[trigger] flat_of(t.dims@, idx)]
                            == self.values@[flat_of(
                            self.dims@,
                            idx.update(d1 as int, idx[d2 as int]).update(d2 as int, idx[d1 as int]),
                        )]
                },
                Err(e) => (d1 >= self.dims@.len() || d2 >= self.dims@.len()) && e
                    == TensorError::BadAxis,
            },
    {
        let rank = self.dims.len();
        if d1 >= rank || d2 >= rank {
            return Err(TensorError::BadAxis);
        }
        let n = self.values.len();
        let mut out_dims = self.dims.clone();
        let e1 = self.dims[d1];
        let e2 = self.dims[d2];
        out_dims[d1] = e2;
        out_dims[d2] = e1;
        proof {
            lemma_prod_swap(self.dims@, d1 as int, d2 as int);
            assert(out_dims@ =~= self.dims@.update(d1 as int, e2).update(d2 as int, e1));
            assert(all_positive(out_dims@));
        }
        let mut values: Vec<i64> = Vec::new();
        let mut p: usize = 0;
        while p < n
            invariant
                0 <= p <= n,
                values@.len() == p,
                forall|idx: Seq<int>|
                    valid_index(out_dims@, idx) && 0 <= flat_of(out_dims@, idx) < p
                        ==> values@[#[trigger] flat_of(out_dims@, idx)] == self.values@[flat_of(
                        self.dims@,
                        idx.update(d1 as int, idx[d2 as int]).update(d2 as int, idx[d1 as int]),
                    )],
            decreases n - p,
        {
            let oidx = decode_index(&out_dims, p);
            let mut sidx = oidx.clone();
            let c1 = oidx[d1];
            let c2 = oidx[d2];
            sidx[d1] = c2;
            sidx[d2] = c1;
            proof {
                let g = idx_of(oidx@);
                assert(idx_of(sidx@) =~= g.update(d1 as int, g[d2 as int]).update(
                    d2 as int,
                    g[d1 as int],
                ));
                assert forall|j: int| 0 <= j < rank implies 0 <= #[trigger] idx_of(sidx@)[j]
                    < self.dims@[j] by {
                    assert(g[j] < out_dims@[j]);
                    assert(g[d1 as int] < out_dims@[d1 as int]);
                    assert(g[d2 as int] < out_dims@[d2 as int]);
                }
            }
            let pos = encode_index(&self.dims, &sidx);
            values.push(self.values[pos]);
            p += 1;
            proof {
                assert forall|idx: Seq<int>|
                    valid_index(out_dims@, idx) && 0 <= flat_of(out_dims@, idx)
                        < p implies values@[#[trigger] flat_of(out_dims@, idx)]
                    == self.values@[flat_of(
                    self.dims@,
                    idx.update(d1 as int, idx[d2 as int]).update(d2 as int, idx[d1 as int]),
                )] by {
                    lemma_flat_bounds(out_dims@, idx);
                    if flat_of(out_dims@, idx) == p - 1 {
                        lemma_flat_injective(out_dims@, idx, idx_of(oidx@));
                    }
                }
            }
        }
        proof {
            assert forall|idx: Seq<int>| valid_index(out_dims@, idx) implies values@[#[trigger] flat_of(
                out_dims@,
                idx,
            )] == self.values@[flat_of(
                self.dims@,
                idx.update(d1 as int, idx[d2 as int]).update(d2 as int, idx[d1 as int]),
            )] by {
                lemma_flat_bounds(out_dims@, idx);
            }
        }
        Ok(Tensor { values, dims: out_dims })
    }
}

} // verus!
