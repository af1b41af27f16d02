//! Concatenation along one axis: same-rank tensors agreeing on every
//! other axis, their slices following each other in input order.
use vstd::prelude::*;

use crate::indexing::{idx_add, in_region, region_dims, region_starts};
use crate::shape::{flat_of, prod, valid_index};
use crate::tensor::{zeros, Device, Tensor, TensorError};

verus! {

/// Summed extent along axis `d` of all the tensors.
pub open spec fn cat_extent(ts: Seq<Tensor>, d: int) -> int
    decreases ts.len(),
{
    if ts.len() == 0 {
        0
    } else {
        cat_extent(ts.drop_last(), d) + ts.last().dims@[d]
    }
}

/// Where tensor `i`'s slice starts along the concatenation axis: the
/// summed extent of the tensors before it.
pub open spec fn cat_offset(ts: Seq<Tensor>, i: int, d: int) -> int {
    cat_extent(ts.subrange(0, i), d)
}

/// All tensors have the first one's rank and agree with it on every axis
/// but `d`.
pub open spec fn cat_shapes_ok(ts: Seq<Tensor>, d: int) -> bool {
    forall|i: int|
        0 <= i < ts.len() ==> (#[trigger] ts[i].dims@).len() == ts[0].dims@.len() && (forall|k: int|
            0 <= k < ts[0].dims@.len() && k != d ==> ts[i].dims@[k] == ts[0].dims@[k])
}

/// A one-longer prefix adds the last tensor's extent.
proof fn lemma_cat_extent_snoc(ts: Seq<Tensor>, i: int, d: int)
    requires
        0 <= i < ts.len(),
    ensures
        cat_extent(ts.subrange(0, i + 1), d) == cat_extent(ts.subrange(0, i), d)
            + ts[i].dims@[d],
{
    let pre = ts.subrange(0, i + 1);
    assert(pre.drop_last() =~= ts.subrange(0, i));
    assert(pre.last() == ts[i]);
}

/// Offsets grow with the tensor's position.
proof fn lemma_cat_offset_mono(ts: Seq<Tensor>, j: int, k: int, d: int)
    requires
        0 <= j <= k <= ts.len(),
    ensures
        cat_extent(ts.subrange(0, j), d) <= cat_extent(ts.subrange(0, k), d),
    decreases k - j,
{
    if j < k {
        lemma_cat_offset_mono(ts, j, k - 1, d);
        lemma_cat_extent_snoc(ts, k - 1, d);
    }
}

/// Concatenate the tensors along axis `d`, in input order.
#[verifier::loop_isolation(false)]
#[verifier::rlimit(100)]
pub fn cat(tensors: &Vec<Tensor>, d: usize) -> (r: Result<Tensor, TensorError>)
    requires
        forall|i: int| 0 <= i < tensors@.len() ==> (#[trigger] tensors@[i]).wf(),
    ensures
        match r {
            Ok(t) => {
                &&& tensors@.len() >= 1
                &&& (d as int) < tensors@[0].dims@.len()
                &&& cat_shapes_ok(tensors@, d as int)
                &&& cat_extent(tensors@, d as int) <= usize::MAX
                &&& t.wf()
                &&& t.dims@ == tensors@[0].dims@.update(
                    d as int,
                    cat_extent(tensors@, d as int) as usize,
                )
                &&& forall|i: int, idx: Seq<int>|
                    0 <= i < tensors@.len() && valid_index(tensors@[i].dims@, idx)
                        ==> t.values@[flat_of(
                        t.dims@,
                        idx.update(d as int, idx[d as int] + cat_offset(tensors@, i, d as int)),
                    )] == tensors@[i].values@[#[trigger] flat_of(tensors@[i].dims@, idx)]
            },
            Err(e) => match e {
                TensorError::EmptyInput => tensors@.len() == 0,
                TensorError::BadAxis => tensors@.len() >= 1 && d >= tensors@[0].dims@.len(),
                TensorError::ShapeMismatch => tensors@.len() >= 1 && (d as int)
                    < tensors@[0].dims@.len() && !cat_shapes_ok(tensors@, d as int),
                TensorError::BadElementCount => tensors@.len() >= 1 && (d as int)
                    < tensors@[0].dims@.len() && cat_shapes_ok(tensors@, d as int) && (cat_extent(
                    tensors@,
                    d as int,
                ) > usize::MAX || prod(
                    tensors@[0].dims@.update(d as int, cat_extent(tensors@, d as int) as usize),
                ) > usize::MAX),
                _ => false,
            },
        },
{
    let kcount = tensors.len();
    if kcount == 0 {
        return Err(TensorError::EmptyInput);
    }
    let rank = tensors[0].dims.len();
    if d >= rank {
        return Err(TensorError::BadAxis);
    }
    // validate the shapes
    let mut i0: usize = 0;
    while i0 < kcount
        invariant
            0 <= i0 <= kcount,
            forall|ii: int|
                0 <= ii < i0 ==> (#[trigger] tensors@[ii].dims@).len() == rank && (forall|k: int|
                    0 <= k < rank && k != d ==> tensors@[ii].dims@[k] == tensors@[0].dims@[k]),
        decreases kcount - i0,
    {
        if tensors[i0].dims.len() != rank {
            return Err(TensorError::ShapeMismatch);
        }
        let mut k: usize = 0;
        while k < rank
            invariant
                0 <= k <= rank,
                forall|kk: int|
                    0 <= kk < k && kk != d ==> tensors@[i0 as int].dims@[kk]
                        == tensors@[0].dims@[kk],
            decreases rank - k,
        {
            if k != d {
                if tensors[i0].dims[k] != tensors[0].dims[k] {
                    return Err(TensorError::ShapeMismatch);
                }
            }
            k += 1;
        }
        i0 += 1;
    }
    proof {
        assert(cat_shapes_ok(tensors@, d as int));
    }
    // add up the concatenated extents
    let mut total: usize = 0;
    let mut i: usize = 0;
    proof {
        assert(tensors@.subrange(0, 0) =~= Seq::<Tensor>::empty());
    }
    while i < kcount
        invariant
            0 <= i <= kcount,
            total == cat_extent(tensors@.subrange(0, i as int), d as int),
            i >= 1 ==> total >= 1,
        decreases kcount - i,
    {
        proof {
            lemma_cat_extent_snoc(tensors@, i as int, d as int);
        }
        total = match total.checked_add(tensors[i].dims[d]) {
            Some(t2) => t2,
            None => {
                proof {
                    lemma_cat_offset_mono(tensors@, i as int + 1, kcount as int, d as int);
                    assert(tensors@.subrange(0, kcount as int) =~= tensors@);
                }
                return Err(TensorError::BadElementCount);
            },
        };
        i += 1;
    }
    proof {
        assert(tensors@.subrange(0, kcount as int) =~= tensors@);
    }
    let mut out_dims = tensors[0].dims.clone();
    out_dims[d] = total;
    let dev = Device::Cpu;
    let mut cur = match zeros(out_dims, &dev) {
        Ok(t) => t,
        Err(_) => {
            return Err(TensorError::BadElementCount);
        },
    };
    let ghost gout_dims = tensors@[0].dims@.update(d as int, total);
    let mut off: usize = 0;
    let mut i2: usize = 0;
    proof {
        assert(tensors@.subrange(0, 0) =~= Seq::<Tensor>::empty());
    }
    while i2 < kcount
        invariant
            0 <= i2 <= kcount,
            cur.wf(),
            cur.dims@ == gout_dims,
            off == cat_offset(tensors@, i2 as int, d as int),
            off <= total,
            forall|ii: int, idx: Seq<int>|
                0 <= ii < i2 && valid_index(tensors@[ii].dims@, idx) ==> cur.values@[flat_of(
                    gout_dims,
                    idx.update(d as int, idx[d as int] + cat_offset(tensors@, ii, d as int)),
                )] == tensors@[ii].values@[#[trigger] flat_of(tensors@[ii].dims@, idx)],
        decreases kcount - i2,
    {
        let nd_i = tensors[i2].dims[d];
        proof {
            lemma_cat_extent_snoc(tensors@, i2 as int, d as int);
            lemma_cat_offset_mono(tensors@, i2 as int + 1, kcount as int, d as int);
            assert(tensors@.subrange(0, kcount as int) =~= tensors@);
            assert(off + nd_i <= total);
        }
        // the addressed region: full on the leading axes, the slice window
        // on the concatenation axis
        let mut ranges: Vec<(usize, usize)> = Vec::new();
        let mut k: usize = 0;
        while k < d
            invariant
                0 <= k <= d,
                ranges@.len() == k,
                forall|kk: int|
                    0 <= kk < k ==> #[trigger] ranges@[kk] == (0usize, tensors@[0].dims@[kk]),
            decreases d - k,
        {
            ranges.push((0, tensors[0].dims[k]));
            k += 1;
        }
        ranges.push((off, off + nd_i));
        proof {
            // the ranges are valid and address exactly this tensor's slice
            assert(nd_i >= 1);
            assert forall|kk: int| 0 <= kk < ranges@.len() implies (#[trigger] ranges@[kk]).0
                < ranges@[kk].1 && ranges@[kk].1 <= gout_dims[kk] by {
                if kk < d {
                    assert(gout_dims[kk] == tensors@[0].dims@[kk]);
                }
            }
            assert(region_dims(gout_dims, ranges@) =~= tensors@[i2 as int].dims@);
        }
        // the region is in bounds and shaped like this tensor, so the
        // assignment cannot fail
        let cur2 = match cur.index_assign(&ranges, &tensors[i2]) {
            Ok(t) => t,
            Err(_) => {
                proof {
                    assert(false);
                }
                return Err(TensorError::BadElementCount);
            },
        };
        let ghost gstarts = region_starts(ranges@, gout_dims.len());
        cur = cur2;
        off = off + nd_i;
        i2 += 1;
        proof {
            let gi = i2 as int - 1;
            // this tensor's slice now holds its values
            assert forall|idx: Seq<int>|
                valid_index(tensors@[gi].dims@, idx) implies cur.values@[flat_of(
                gout_dims,
                idx.update(d as int, idx[d as int] + cat_offset(tensors@, gi, d as int)),
            )] == tensors@[gi].values@[#[trigger] flat_of(tensors@[gi].dims@, idx)] by {
                assert(idx_add(idx, gstarts) =~= idx.update(
                    d as int,
                    idx[d as int] + cat_offset(tensors@, gi, d as int),
                ));
            }
            // earlier slices sit below this window and were untouched
            assert forall|ii: int, idx: Seq<int>|
                0 <= ii < gi && valid_index(tensors@[ii].dims@, idx) implies cur.values@[flat_of(
                gout_dims,
                idx.update(d as int, idx[d as int] + cat_offset(tensors@, ii, d as int)),
            )] == tensors@[ii].values@[#[trigger] flat_of(tensors@[ii].dims@, idx)] by {
                let shifted = idx.update(
                    d as int,
                    idx[d as int] + cat_offset(tensors@, ii, d as int),
                );
                lemma_cat_offset_mono(tensors@, 0, ii as int, d as int);
                lemma_cat_extent_snoc(tensors@, ii, d as int);
                lemma_cat_offset_mono(tensors@, ii + 1, gi, d as int);
                assert(shifted[d as int] < cat_offset(tensors@, gi, d as int));
                assert(valid_index(gout_dims, shifted)) by {
                    assert forall|kk: int| 0 <= kk < gout_dims.len() implies 0
                        <= #[trigger] shifted[kk] < gout_dims[kk] by {
                        if kk != d {
                            assert(tensors@[ii].dims@[kk] == tensors@[0].dims@[kk]);
                        }
                    }
                }
                assert(!in_region(shifted, ranges@)) by {
                    assert(!((#[trigger] ranges@[d as int]).0 <= shifted[d as int] < ranges@[
                        d as int].1));
                }
            }
        }
    }
    proof {
        assert(cat_offset(tensors@, kcount as int, d as int) == cat_extent(tensors@, d as int))
            by {
            assert(tensors@.subrange(0, kcount as int) =~= tensors@);
        }
    }
    Ok(cur)
}

} // verus!
