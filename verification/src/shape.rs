//! Shape model: per-axis extents, element counts, and the row-major
//! correspondence between multi-indices and flat storage positions.
use vstd::prelude::*;
use vstd::arithmetic::div_mod::{lemma_fundamental_div_mod, lemma_mod_bound};

verus! {

/// Every axis extent is at least one.
pub open spec fn all_positive(dims: Seq<usize>) -> bool {
    forall|k: int| 0 <= k < dims.len() ==> dims[k] >= 1
}

/// Number of elements a shape describes: the product of its extents.
pub open spec fn prod(dims: Seq<usize>) -> int
    decreases dims.len(),
{
    if dims.len() == 0 {
        1
    } else {
        dims[0] * prod(dims.subrange(1, dims.len() as int))
    }
}

/// A multi-index seen as mathematical integers.
pub open spec fn idx_of(v: Seq<usize>) -> Seq<int> {
    Seq::new(v.len(), |k: int| v[k] as int)
}

/// The multi-index addresses a cell of the shape.
pub open spec fn valid_index(dims: Seq<usize>, idx: Seq<int>) -> bool {
    &&& idx.len() == dims.len()
    &&& forall|k: int| 0 <= k < dims.len() ==> 0 <= #[trigger] idx[k] < dims[k]
}

/// Row-major flat storage position of a multi-index.
pub open spec fn flat_of(dims: Seq<usize>, idx: Seq<int>) -> int
    decreases dims.len(),
{
    if dims.len() == 0 {
        0
    } else {
        idx[0] * prod(dims.subrange(1, dims.len() as int)) + flat_of(
            dims.subrange(1, dims.len() as int),
            idx.subrange(1, idx.len() as int),
        )
    }
}

pub proof fn lemma_prod_pos(dims: Seq<usize>)
    requires
        all_positive(dims),
    ensures
        prod(dims) >= 1,
    decreases dims.len(),
{
    if dims.len() > 0 {
        let rest = dims.subrange(1, dims.len() as int);
        lemma_prod_pos(rest);
        assert(prod(dims) == dims[0] * prod(rest));
        assert(dims[0] * prod(rest) >= 1) by (nonlinear_arith)
            requires
                dims[0] >= 1,
                prod(rest) >= 1,
        ;
    }
}

/// Splitting a shape splits its element count multiplicatively.
pub proof fn lemma_prod_split(dims: Seq<usize>, k: int)
    requires
        0 <= k <= dims.len(),
    ensures
        prod(dims) == prod(dims.subrange(0, k)) * prod(dims.subrange(k, dims.len() as int)),
    decreases k,
{
    let n = dims.len() as int;
    if k == 0 {
        assert(dims.subrange(0, 0) =~= Seq::<usize>::empty());
        assert(dims.subrange(0, n) =~= dims);
    } else {
        let rest = dims.subrange(1, n);
        lemma_prod_split(rest, k - 1);
        assert(rest.subrange(0, k - 1) =~= dims.subrange(1, k));
        assert(rest.subrange(k - 1, rest.len() as int) =~= dims.subrange(k, n));
        let head = dims.subrange(0, k);
        let head_rest = head.subrange(1, k);
        assert(head_rest =~= dims.subrange(1, k));
        assert(head[0] == dims[0]);
        assert(prod(head) == dims[0] * prod(dims.subrange(1, k)));
        assert(prod(dims) == dims[0] * (prod(dims.subrange(1, k)) * prod(
            dims.subrange(k, n),
        )));
        assert(dims[0] * (prod(dims.subrange(1, k)) * prod(dims.subrange(k, n))) == (dims[0]
            * prod(dims.subrange(1, k))) * prod(dims.subrange(k, n))) by (nonlinear_arith);
    }
}

/// Appending one axis multiplies the element count by its extent.
pub proof fn lemma_prod_snoc(dims: Seq<usize>, k: int)
    requires
        0 <= k < dims.len(),
    ensures
        prod(dims.subrange(0, k + 1)) == prod(dims.subrange(0, k)) * dims[k],
{
    let head = dims.subrange(0, k + 1);
    lemma_prod_split(head, k);
    assert(head.subrange(0, k) =~= dims.subrange(0, k));
    let tail = head.subrange(k, k + 1);
    assert(tail.len() == 1);
    assert(tail[0] == dims[k]);
    assert(tail.subrange(1, 1) =~= Seq::<usize>::empty());
    assert(prod(tail.subrange(1, 1)) == 1);
    assert(prod(tail) == tail[0] * prod(tail.subrange(1, tail.len() as int)));
    assert(prod(tail) == dims[k] * 1);
}

/// A shape no larger on any axis has no larger an element count.
pub proof fn lemma_prod_le(d1: Seq<usize>, d2: Seq<usize>)
    requires
        d1.len() == d2.len(),
        all_positive(d1),
        forall|k: int| 0 <= k < d1.len() ==> d1[k] <= d2[k],
    ensures
        prod(d1) <= prod(d2),
    decreases d1.len(),
{
    if d1.len() > 0 {
        let r1 = d1.subrange(1, d1.len() as int);
        let r2 = d2.subrange(1, d2.len() as int);
        lemma_prod_le(r1, r2);
        lemma_prod_pos(r1);
        assert(d1[0] * prod(r1) <= d2[0] * prod(r2)) by (nonlinear_arith)
            requires
                1 <= d1[0] <= d2[0],
                1 <= prod(r1) <= prod(r2),
        ;
    }
}

/// Collapsing one axis to extent one divides the element count by that
/// axis's extent.
pub proof fn lemma_prod_collapse_axis(dims: Seq<usize>, d: int)
    requires
        0 <= d < dims.len(),
    ensures
        prod(dims) == prod(dims.update(d, 1usize)) * dims[d],
{
    let n = dims.len() as int;
    let u = dims.update(d, 1usize);
    lemma_prod_split(dims, d);
    lemma_prod_split(u, d);
    assert(u.subrange(0, d) =~= dims.subrange(0, d));
    let suf = dims.subrange(d, n);
    let usuf = u.subrange(d, n);
    assert(suf[0] == dims[d]);
    assert(usuf[0] == 1usize);
    assert(suf.subrange(1, suf.len() as int) =~= dims.subrange(d + 1, n));
    assert(usuf.subrange(1, usuf.len() as int) =~= dims.subrange(d + 1, n));
    assert(prod(suf) == dims[d] * prod(dims.subrange(d + 1, n)));
    assert(prod(usuf) == 1 * prod(dims.subrange(d + 1, n)));
    let p1 = prod(dims.subrange(0, d));
    let p2 = prod(dims.subrange(d + 1, n));
    let v = dims[d] as int;
    assert(p1 * (v * p2) == (p1 * (1 * p2)) * v) by (nonlinear_arith);
}

/// Replacing one extent rescales the element count by the two extents.
pub proof fn lemma_prod_update(dims: Seq<usize>, d: int, v: usize)
    requires
        0 <= d < dims.len(),
    ensures
        prod(dims.update(d, v)) * dims[d] == prod(dims) * v,
{
    let n = dims.len() as int;
    let u = dims.update(d, v);
    lemma_prod_split(dims, d);
    lemma_prod_split(u, d);
    assert(u.subrange(0, d) =~= dims.subrange(0, d));
    let suf = dims.subrange(d, n);
    let usuf = u.subrange(d, n);
    assert(suf[0] == dims[d]);
    assert(usuf[0] == v);
    assert(suf.subrange(1, suf.len() as int) =~= dims.subrange(d + 1, n));
    assert(usuf.subrange(1, usuf.len() as int) =~= dims.subrange(d + 1, n));
    let p1 = prod(dims.subrange(0, d));
    let p2 = prod(dims.subrange(d + 1, n));
    assert(prod(suf) == dims[d] * p2);
    assert(prod(usuf) == v * p2);
    assert((p1 * (v * p2)) * dims[d] == (p1 * (dims[d] * p2)) * v) by (nonlinear_arith);
}

/// Swapping two extents keeps the element count.
pub proof fn lemma_prod_swap(dims: Seq<usize>, d1: int, d2: int)
    requires
        0 <= d1 < dims.len(),
        0 <= d2 < dims.len(),
        all_positive(dims),
    ensures
        prod(dims.update(d1, dims[d2]).update(d2, dims[d1])) == prod(dims),
{
    if d1 == d2 {
        assert(dims.update(d1, dims[d2]).update(d2, dims[d1]) =~= dims);
    } else {
        let u1 = dims.update(d1, dims[d2]);
        let u2 = u1.update(d2, dims[d1]);
        lemma_prod_update(dims, d1, dims[d2]);
        lemma_prod_update(u1, d2, dims[d1]);
        assert(u1[d2] == dims[d2]);
        // prod(u2) * dims[d2] == prod(u1) * dims[d1] == prod(dims) * dims[d2]
        assert(prod(u2) * dims[d2] == prod(u1) * dims[d1]);
        assert(prod(u1) * dims[d1] == prod(dims) * dims[d2]);
        assert(prod(u2) == prod(dims)) by (nonlinear_arith)
            requires
                prod(u2) * dims[d2] == prod(dims) * dims[d2],
                dims[d2] >= 1,
        ;
    }
}

/// A valid multi-index lands strictly inside the storage.
pub proof fn lemma_flat_bounds(dims: Seq<usize>, idx: Seq<int>)
    requires
        all_positive(dims),
        valid_index(dims, idx),
    ensures
        0 <= flat_of(dims, idx) < prod(dims),
    decreases dims.len(),
{
    if dims.len() > 0 {
        let drest = dims.subrange(1, dims.len() as int);
        let irest = idx.subrange(1, idx.len() as int);
        lemma_flat_bounds(drest, irest);
        lemma_prod_pos(drest);
        let p = prod(drest);
        assert(0 <= idx[0] * p && idx[0] * p + p <= dims[0] * p) by (nonlinear_arith)
            requires
                0 <= idx[0] < dims[0],
                p >= 1,
        ;
        assert(flat_of(dims, idx) == idx[0] * p + flat_of(drest, irest));
        assert(prod(dims) == dims[0] * p);
    }
}

/// Distinct valid multi-indices land on distinct storage positions.
pub proof fn lemma_flat_injective(dims: Seq<usize>, a: Seq<int>, b: Seq<int>)
    requires
        all_positive(dims),
        valid_index(dims, a),
        valid_index(dims, b),
        flat_of(dims, a) == flat_of(dims, b),
    ensures
        a =~= b,
    decreases dims.len(),
{
    if dims.len() > 0 {
        let drest = dims.subrange(1, dims.len() as int);
        let arest = a.subrange(1, a.len() as int);
        let brest = b.subrange(1, b.len() as int);
        lemma_flat_bounds(drest, arest);
        lemma_flat_bounds(drest, brest);
        lemma_prod_pos(drest);
        let p = prod(drest);
        let fa = flat_of(drest, arest);
        let fb = flat_of(drest, brest);
        assert(a[0] == b[0] && fa == fb) by (nonlinear_arith)
            requires
                a[0] * p + fa == b[0] * p + fb,
                0 <= fa < p,
                0 <= fb < p,
                p >= 1,
        ;
        lemma_flat_injective(drest, arest, brest);
        assert(a =~= seq![a[0]].add(arest));
        assert(b =~= seq![b[0]].add(brest));
    }
}

/// Element count of a shape, refusing zero extents and counts past the
/// machine word.
#[verifier::loop_isolation(false)]
pub fn element_count(dims: &Vec<usize>) -> (r: Option<usize>)
    ensures
        match r {
            Some(c) => all_positive(dims@) && c == prod(dims@),
            None => !(all_positive(dims@) && prod(dims@) <= usize::MAX),
        },
{
    let ghost n = dims@.len() as int;
    let mut acc: usize = 1;
    let mut i: usize = 0;
    proof {
        assert(dims@.subrange(0, 0) =~= Seq::<usize>::empty());
    }
    while i < dims.len()
        invariant
            0 <= i <= dims@.len(),
            acc == prod(dims@.subrange(0, i as int)),
            forall|k: int| 0 <= k < i ==> dims@[k] >= 1,
        decreases dims@.len() - i,
    {
        let d = dims[i];
        if d == 0 {
            return None;
        }
        proof {
            lemma_prod_snoc(dims@, i as int);
        }
        match acc.checked_mul(d) {
            Some(a2) => {
                acc = a2;
            },
            None => {
                proof {
                    if all_positive(dims@) {
                        lemma_prod_split(dims@, i as int + 1);
                        let tail = dims@.subrange(i as int + 1, n);
                        lemma_prod_pos(tail);
                        assert(prod(dims@) == (acc * d) * prod(tail));
                        assert((acc * d) * prod(tail) >= acc * d) by (nonlinear_arith)
                            requires
                                acc * d >= 1,
                                prod(tail) >= 1,
                        ;
                    }
                }
                return None;
            },
        }
        i += 1;
    }
    proof {
        assert(dims@.subrange(0, n) =~= dims@);
    }
    Some(acc)
}

/// Row-major strides: the stride of an axis is the element count of the
/// axes after it.
#[verifier::loop_isolation(false)]
pub fn strides_of(dims: &Vec<usize>) -> (r: Vec<usize>)
    requires
        all_positive(dims@),
        prod(dims@) <= usize::MAX,
    ensures
        r@.len() == dims@.len(),
        forall|k: int|
            0 <= k < dims@.len() ==> r@[k] == prod(
                dims@.subrange(k + 1, dims@.len() as int),
            ),
{
    let ghost n = dims@.len() as int;
    let d = dims.len();
    let mut r: Vec<usize> = Vec::new();
    let mut i: usize = 0;
    while i < d
        invariant
            d == dims@.len(),
            0 <= i <= d,
            r@.len() == i,
            forall|k: int| 0 <= k < i ==> r@[k] == 1,
        decreases d - i,
    {
        r.push(1);
        i += 1;
    }
    if d == 0 {
        return r;
    }
    proof {
        assert(dims@.subrange(n, n) =~= Seq::<usize>::empty());
    }
    let mut k: usize = d - 1;
    while k > 0
        invariant
            d == dims@.len(),
            d >= 1,
            0 <= k <= d - 1,
            r@.len() == d,
            forall|j: int| k <= j < d ==> r@[j] == prod(dims@.subrange(j + 1, d as int)),
            forall|j: int| 0 <= j < k ==> r@[j] == 1,
            prod(dims@) <= usize::MAX,
            all_positive(dims@),
        decreases k,
    {
        // r[k - 1] = r[k] * dims[k]
        let ghost kk = k as int;
        proof {
            lemma_prod_split(dims@, kk);
            let tail = dims@.subrange(kk, n);
            lemma_prod_pos(dims@.subrange(0, kk));
            lemma_prod_pos(tail);
            assert(prod(dims@) == prod(dims@.subrange(0, kk)) * prod(tail));
            assert(prod(dims@.subrange(0, kk)) * prod(tail) >= prod(tail)) by (nonlinear_arith)
                requires
                    prod(dims@.subrange(0, kk)) >= 1,
                    prod(tail) >= 1,
            ;
            // tail = dims[k] * suffix(k+1)
            assert(tail.subrange(1, tail.len() as int) =~= dims@.subrange(kk + 1, n));
            assert(tail[0] == dims@[kk]);
            assert(prod(tail) == dims@[kk] * prod(dims@.subrange(kk + 1, n)));
            assert(r@[kk] == prod(dims@.subrange(kk + 1, n)));
            assert(r@[kk] * dims@[kk] == dims@[kk] * prod(dims@.subrange(kk + 1, n)))
                by (nonlinear_arith)
                requires
                    r@[kk] == prod(dims@.subrange(kk + 1, n)),
            ;
            assert(r@[kk] * dims@[kk] <= usize::MAX);
        }
        let v = r[k] * dims[k];
        r[k - 1] = v;
        k -= 1;
    }
    proof {
        let tail = dims@.subrange(1, n);
        assert(r@[0] == prod(tail)) by {
            if d == 1 {
                assert(dims@.subrange(1, n) =~= Seq::<usize>::empty());
            }
        }
    }
    r
}

/// Decode a flat storage position into the multi-index it addresses.
#[verifier::loop_isolation(false)]
#[verifier::rlimit(60)]
pub fn decode_index(dims: &Vec<usize>, p: usize) -> (r: Vec<usize>)
    requires
        all_positive(dims@),
        prod(dims@) <= usize::MAX,
        p < prod(dims@),
    ensures
        r@.len() == dims@.len(),
        valid_index(dims@, idx_of(r@)),
        flat_of(dims@, idx_of(r@)) == p,
{
    let ghost n = dims@.len() as int;
    let strides = strides_of(dims);
    let d = dims.len();
    let mut r: Vec<usize> = Vec::new();
    let mut rem: usize = p;
    let mut k: usize = 0;
    proof {
        assert(dims@.subrange(0, n) =~= dims@);
        assert(idx_of(r@) =~= Seq::<int>::empty());
    }
    while k < d
        invariant
            d == dims@.len(),
            strides@.len() == d,
            forall|j: int| 0 <= j < d ==> strides@[j] == prod(dims@.subrange(j + 1, d as int)),
            all_positive(dims@),
            0 <= k <= d,
            r@.len() == k,
            forall|j: int| 0 <= j < k ==> #[trigger] r@[j] < dims@[j],
            0 <= rem < prod(dims@.subrange(k as int, d as int)),
            p == flat_of(dims@.subrange(0, k as int), idx_of(r@).subrange(0, k as int)) * prod(
                dims@.subrange(k as int, d as int),
            ) + rem,
        decreases d - k,
    {
        let ghost kk = k as int;
        let stride = strides[k];
        proof {
            let tail = dims@.subrange(kk, n);
            assert(tail[0] == dims@[kk]);
            assert(tail.subrange(1, tail.len() as int) =~= dims@.subrange(kk + 1, n));
            assert(prod(tail) == dims@[kk] * prod(dims@.subrange(kk + 1, n)));
            lemma_prod_pos(dims@.subrange(kk + 1, n));
        }
        let q = rem / stride;
        let rem2 = rem % stride;
        proof {
            let s = stride as int;
            assert(s >= 1);
            lemma_fundamental_div_mod(rem as int, s);
            lemma_mod_bound(rem as int, s);
            assert(q == rem as int / s && rem2 == rem as int % s);
            assert(rem == q * s + rem2 && 0 <= rem2 < s);
            assert(q < dims@[kk]) by (nonlinear_arith)
                requires
                    rem < dims@[kk] * s,
                    s >= 1,
                    q == rem as int / s,
                    rem == q * s + rem2,
                    0 <= rem2 < s,
            ;
        }
        let ghost old_r = r@;
        r.push(q);
        rem = rem2;
        k += 1;
        proof {
            // re-establish the flat decomposition for the longer prefix
            let idx = idx_of(r@);
            let kk2 = k as int;
            let s = stride as int;
            let tailp = prod(dims@.subrange(kk2, n));
            assert(s == tailp);
            lemma_flat_prefix_snoc(dims@, idx.subrange(0, kk2), kk2 - 1);
            assert(idx.subrange(0, kk2).subrange(0, kk2 - 1) =~= idx_of(old_r).subrange(
                0,
                kk2 - 1,
            ));
            assert(idx.subrange(0, kk2)[kk2 - 1] == q as int);
            let fpre = flat_of(dims@.subrange(0, kk2 - 1), idx_of(old_r).subrange(0, kk2 - 1));
            assert(flat_of(dims@.subrange(0, kk2), idx.subrange(0, kk2)) == fpre * dims@[kk]
                + q);
            // the old suffix product factors through the new axis
            assert(prod(dims@.subrange(kk2 - 1, n)) == dims@[kk] * tailp);
            assert((fpre * dims@[kk] + q) * tailp == fpre * (dims@[kk] * tailp) + q * tailp)
                by (nonlinear_arith);
            assert(p == fpre * prod(dims@.subrange(kk2 - 1, n)) + (q * s + rem2));
            assert(p == flat_of(dims@.subrange(0, kk2), idx.subrange(0, kk2)) * tailp + rem2);
        }
    }
    proof {
        assert(idx_of(r@).subrange(0, d as int) =~= idx_of(r@));
        assert(dims@.subrange(0, d as int) =~= dims@);
        assert(dims@.subrange(d as int, d as int) =~= Seq::<usize>::empty());
        assert(rem == 0);
        assert(p == flat_of(dims@, idx_of(r@)) * 1 + 0);
        assert forall|j: int| 0 <= j < dims@.len() implies 0 <= #[trigger] idx_of(r@)[j]
            < dims@[j] by {
            assert(idx_of(r@)[j] == r@[j] as int);
        }
    }
    r
}

/// A one-longer prefix folds its last coordinate into the flat position.
pub proof fn lemma_flat_prefix_snoc(dims: Seq<usize>, idx: Seq<int>, k: int)
    requires
        0 <= k < dims.len(),
        idx.len() == k + 1,
    ensures
        flat_of(dims.subrange(0, k + 1), idx) == flat_of(
            dims.subrange(0, k),
            idx.subrange(0, k),
        ) * dims[k] + idx[k],
    decreases k,
{
    let dh = dims.subrange(0, k + 1);
    let dp = dims.subrange(0, k);
    if k == 0 {
        assert(dh.len() == 1);
        assert(dh.subrange(1, 1) =~= Seq::<usize>::empty());
        assert(idx.subrange(1, 1) =~= Seq::<int>::empty());
        assert(flat_of(dh, idx) == idx[0] * prod(dh.subrange(1, 1)) + flat_of(
            dh.subrange(1, 1),
            idx.subrange(1, 1),
        ));
        assert(prod(dh.subrange(1, 1)) == 1);
        assert(flat_of(dp, idx.subrange(0, 0)) == 0);
    } else {
        let dims2 = dims.subrange(1, dims.len() as int);
        let idx2 = idx.subrange(1, idx.len() as int);
        lemma_flat_prefix_snoc(dims2, idx2, k - 1);
        assert(dims2.subrange(0, k) =~= dh.subrange(1, k + 1));
        assert(dims2.subrange(0, k - 1) =~= dp.subrange(1, k));
        assert(idx2.subrange(0, k - 1) =~= idx.subrange(1, k));
        assert(dims2[k - 1] == dims[k]);
        assert(idx2[k - 1] == idx[k]);
        // unfold flat_of on dh and dp
        assert(dh.subrange(1, k + 1) =~= dims.subrange(1, k + 1));
        assert(dp.subrange(1, k) =~= dims.subrange(1, k));
        let pdh = prod(dh.subrange(1, k + 1));
        let pdp = prod(dp.subrange(1, k));
        assert(flat_of(dh, idx) == idx[0] * pdh + flat_of(dh.subrange(1, k + 1), idx2));
        assert(flat_of(dp, idx.subrange(0, k)) == idx.subrange(0, k)[0] * pdp + flat_of(
            dp.subrange(1, k),
            idx.subrange(0, k).subrange(1, k),
        ));
        assert(idx.subrange(0, k).subrange(1, k) =~= idx2.subrange(0, k - 1));
        assert(idx.subrange(0, k)[0] == idx[0]);
        // prod relation: pdh == pdp * dims[k]
        lemma_prod_snoc(dims2, k - 1);
        assert(dims2.subrange(0, k) =~= dims.subrange(1, k + 1));
        assert(dims2.subrange(0, k - 1) =~= dims.subrange(1, k));
        assert(pdh == pdp * dims[k]);
        let a = idx[0];
        let b = flat_of(dp.subrange(1, k), idx2.subrange(0, k - 1));
        let c = dims[k];
        assert(flat_of(dh.subrange(1, k + 1), idx2) == b * c + idx[k]);
        assert(a * (pdp * c) + (b * c + idx[k]) == (a * pdp + b) * c + idx[k])
            by (nonlinear_arith);
    }
}

/// Encode a multi-index into its flat storage position.
#[verifier::loop_isolation(false)]
pub fn encode_index(dims: &Vec<usize>, idx: &Vec<usize>) -> (r: usize)
    requires
        all_positive(dims@),
        prod(dims@) <= usize::MAX,
        valid_index(dims@, idx_of(idx@)),
    ensures
        r == flat_of(dims@, idx_of(idx@)),
        r < prod(dims@),
{
    let ghost n = dims@.len() as int;
    let strides = strides_of(dims);
    let d = dims.len();
    let mut acc: usize = 0;
    let mut k: usize = 0;
    proof {
        lemma_flat_bounds(dims@, idx_of(idx@));
        assert(dims@.subrange(0, 0) =~= Seq::<usize>::empty());
        assert(idx_of(idx@).subrange(0, 0) =~= Seq::<int>::empty());
    }
    while k < d
        invariant
            d == dims@.len(),
            idx@.len() == d,
            strides@.len() == d,
            forall|j: int| 0 <= j < d ==> strides@[j] == prod(dims@.subrange(j + 1, d as int)),
            all_positive(dims@),
            valid_index(dims@, idx_of(idx@)),
            prod(dims@) <= usize::MAX,
            flat_of(dims@, idx_of(idx@)) < prod(dims@),
            0 <= k <= d,
            acc == flat_of(dims@.subrange(0, k as int), idx_of(idx@).subrange(0, k as int)),
            acc * prod(dims@.subrange(k as int, d as int)) <= flat_of(dims@, idx_of(idx@)),
        decreases d - k,
    {
        let ghost kk = k as int;
        let ghost gidx = idx_of(idx@);
        proof {
            lemma_flat_prefix_snoc(dims@, gidx.subrange(0, kk + 1), kk);
            assert(gidx.subrange(0, kk + 1).subrange(0, kk) =~= gidx.subrange(0, kk));
            // bound the new accumulator: acc2 * prod(suffix k+1) <= flat total
            lemma_encode_partial_bound(dims@, gidx, kk);
            let x = acc * dims@[kk] + gidx[kk];
            let tp = prod(dims@.subrange(kk + 1, d as int));
            lemma_prod_pos(dims@.subrange(kk + 1, d as int));
            assert(x <= flat_of(dims@, gidx)) by (nonlinear_arith)
                requires
                    x * tp <= flat_of(dims@, gidx),
                    tp >= 1,
                    x >= 0,
            ;
        }
        let v = acc * dims[k] + idx[k];
        acc = v;
        k += 1;
    }
    proof {
        assert(dims@.subrange(0, n) =~= dims@);
        assert(idx_of(idx@).subrange(0, n) =~= idx_of(idx@));
    }
    acc
}

/// The partial row-major accumulation never exceeds the full flat position.
proof fn lemma_encode_partial_bound(dims: Seq<usize>, idx: Seq<int>, k: int)
    requires
        all_positive(dims),
        valid_index(dims, idx),
        0 <= k < dims.len(),
    ensures
        (flat_of(dims.subrange(0, k), idx.subrange(0, k)) * dims[k] + idx[k]) * prod(
            dims.subrange(k + 1, dims.len() as int),
        ) <= flat_of(dims, idx),
        flat_of(dims.subrange(0, k + 1), idx.subrange(0, k + 1)) * prod(
            dims.subrange(k + 1, dims.len() as int),
        ) <= flat_of(dims, idx),
{
    let n = dims.len() as int;
    lemma_flat_prefix_decomp(dims, idx, k + 1);
    lemma_flat_prefix_snoc(dims, idx.subrange(0, k + 1), k);
    assert(idx.subrange(0, k + 1).subrange(0, k) =~= idx.subrange(0, k));
    let f = flat_of(dims.subrange(0, k + 1), idx.subrange(0, k + 1));
    let tp = prod(dims.subrange(k + 1, n));
    let rest = flat_of(dims.subrange(k + 1, n), idx.subrange(k + 1, n));
    lemma_flat_bounds_sub(dims, idx, k + 1);
    assert(flat_of(dims, idx) == f * tp + rest);
    assert(rest >= 0);
}

/// The flat position decomposes around any axis boundary.
pub proof fn lemma_flat_prefix_decomp(dims: Seq<usize>, idx: Seq<int>, k: int)
    requires
        idx.len() == dims.len(),
        0 <= k <= dims.len(),
    ensures
        flat_of(dims, idx) == flat_of(dims.subrange(0, k), idx.subrange(0, k)) * prod(
            dims.subrange(k, dims.len() as int),
        ) + flat_of(dims.subrange(k, dims.len() as int), idx.subrange(k, idx.len() as int)),
    decreases k,
{
    let n = dims.len() as int;
    if k == 0 {
        assert(dims.subrange(0, 0) =~= Seq::<usize>::empty());
        assert(idx.subrange(0, 0) =~= Seq::<int>::empty());
        assert(dims.subrange(0, n) =~= dims);
        assert(idx.subrange(0, n) =~= idx);
    } else {
        lemma_flat_prefix_decomp(dims, idx, k - 1);
        lemma_flat_prefix_snoc(dims, idx.subrange(0, k), k - 1);
        assert(idx.subrange(0, k).subrange(0, k - 1) =~= idx.subrange(0, k - 1));
        // tail at k-1 unfolds into dims[k-1] and tail at k
        let t1 = dims.subrange(k - 1, n);
        let i1 = idx.subrange(k - 1, n);
        assert(t1[0] == dims[k - 1]);
        assert(i1[0] == idx[k - 1]);
        assert(t1.subrange(1, t1.len() as int) =~= dims.subrange(k, n));
        assert(i1.subrange(1, i1.len() as int) =~= idx.subrange(k, n));
        assert(prod(t1) == dims[k - 1] * prod(dims.subrange(k, n)));
        assert(flat_of(t1, i1) == idx[k - 1] * prod(dims.subrange(k, n)) + flat_of(
            dims.subrange(k, n),
            idx.subrange(k, n),
        ));
        let a = flat_of(dims.subrange(0, k - 1), idx.subrange(0, k - 1));
        let c = dims[k - 1];
        let tp = prod(dims.subrange(k, n));
        assert(a * (c * tp) + (idx[k - 1] * tp + flat_of(dims.subrange(k, n), idx.subrange(k, n)))
            == (a * c + idx[k - 1]) * tp + flat_of(dims.subrange(k, n), idx.subrange(k, n)))
            by (nonlinear_arith);
    }
}

/// Bounds for the flat position of an index suffix.
proof fn lemma_flat_bounds_sub(dims: Seq<usize>, idx: Seq<int>, k: int)
    requires
        all_positive(dims),
        valid_index(dims, idx),
        0 <= k <= dims.len(),
    ensures
        0 <= flat_of(dims.subrange(k, dims.len() as int), idx.subrange(k, idx.len() as int))
            < prod(dims.subrange(k, dims.len() as int)),
{
    let n = dims.len() as int;
    let ds = dims.subrange(k, n);
    let is_ = idx.subrange(k, n);
    assert(valid_index(ds, is_));
    lemma_flat_bounds(ds, is_);
}

} // verus!
