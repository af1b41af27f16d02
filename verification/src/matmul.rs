//! Batched matrix multiply: both operands are viewed as batches of
//! matrices over their trailing two axes, with the batch axis broadcast
//! when one side's batch has a single slice.
use vstd::prelude::*;

use crate::elem::{add_elem, exec_add_elem, exec_mul_elem, mul_elem};
use crate::shape::{all_positive, element_count, lemma_prod_pos, lemma_prod_split,
    lemma_prod_update, prod};
use crate::tensor::{Tensor, TensorError};

verus! {

/// Batch size of a shape seen as a batch of matrices: the product of all
/// axes before the trailing two.
pub open spec fn batch_of(dims: Seq<usize>) -> int {
    prod(dims.subrange(0, dims.len() - 2))
}

/// The operands make a valid batched product: equal rank of at least
/// two, matching inner dimensions, and batch sizes equal or broadcast
/// from one.
pub open spec fn matmul_ok(ld: Seq<usize>, rd: Seq<usize>) -> bool {
    &&& ld.len() == rd.len() >= 2
    &&& ld[ld.len() - 1] == rd[rd.len() - 2]
    &&& (batch_of(ld) == batch_of(rd) || batch_of(ld) == 1 || batch_of(rd) == 1)
}

/// The shape of the product: the leading axes of the side with the wider
/// batch, then (lhs rows, rhs columns).
pub open spec fn matmul_dims(ld: Seq<usize>, rd: Seq<usize>) -> Seq<usize> {
    let n = ld.len() as int;
    if batch_of(ld) >= batch_of(rd) {
        ld.update(n - 1, rd[n - 1])
    } else {
        rd.update(n - 2, ld[n - 2])
    }
}

/// Wrapping sum of products of a row of the left operand against a
/// column of the right one, over the first `l` inner positions.
pub open spec fn dot_wrap(av: Seq<i64>, bv: Seq<i64>, arow: int, bcol: int, nn: int, l: int) -> i64
    decreases l,
{
    if l <= 0 {
        0i64
    } else {
        add_elem(
            dot_wrap(av, bv, arow, bcol, nn, l - 1),
            mul_elem(av[arow + (l - 1)], bv[bcol + (l - 1) * nn]),
        )
    }
}

/// One cell of the batched product: row `i` of batch slice `b` of the
/// left operand against column `j` of the same (or broadcast) slice of
/// the right one.
pub open spec fn matmul_cell(
    lv: Seq<i64>,
    rv: Seq<i64>,
    b: int,
    i: int,
    j: int,
    m: int,
    kk: int,
    nn: int,
    bl: int,
    br: int,
) -> i64 {
    let lb = if bl == 1 {
        0int
    } else {
        b
    };
    let rb = if br == 1 {
        0int
    } else {
        b
    };
    dot_wrap(lv, rv, (lb * m + i) * kk, rb * (kk * nn) + j, nn, kk)
}

impl Tensor {
    /// Batched matrix product. Every batch slice is multiplied
    /// independently; a batch of one on either side is broadcast against
    /// the other side's batch.
    #[verifier::loop_isolation(false)]
    #[verifier::rlimit(100)]
    pub fn matmul(&self, rhs: &Tensor) -> (r: Result<Tensor, TensorError>)
        requires
            self.wf(),
            rhs.wf(),
        ensures
            match r {
                Ok(t) => {
                    &&& matmul_ok(self.dims@, rhs.dims@)
                    &&& t.wf()
                    &&& t.dims@ == matmul_dims(self.dims@, rhs.dims@)
                    &&& ({
                        let rank = self.dims@.len() as int;
                        let m = self.dims@[rank - 2] as int;
                        let kk = self.dims@[rank - 1] as int;
                        let nn = rhs.dims@[rank - 1] as int;
                        let bl = batch_of(self.dims@);
                        let br = batch_of(rhs.dims@);
                        let bo = if bl >= br {
                            bl
                        } else {
                            br
                        };
                        &&& t.values@.len() == bo * m * nn
                        &&& forall|b: int, i: int, j: int|
                            0 <= b < bo && 0 <= i < m && 0 <= j < nn ==> t.values@[(b * m + i) * nn
                                + j] == #[trigger] matmul_cell(
                                self.values@,
                                rhs.values@,
                                b,
                                i,
                                j,
                                m,
                                kk,
                                nn,
                                bl,
                                br,
                            )
                    })
                },
                Err(e) => match e {
                    TensorError::ShapeMismatch => !matmul_ok(self.dims@, rhs.dims@),
                    TensorError::BadElementCount => matmul_ok(self.dims@, rhs.dims@) && prod(
                        matmul_dims(self.dims@, rhs.dims@),
                    ) > usize::MAX,
                    _ => false,
                },
            },
    {
        let rank = self.dims.len();
        if rank < 2 || rhs.dims.len() != rank {
            return Err(TensorError::ShapeMismatch);
        }
        let m = self.dims[rank - 2];
        let kk = self.dims[rank - 1];
        let nn = rhs.dims[rank - 1];
        if rhs.dims[rank - 2] != kk {
            return Err(TensorError::ShapeMismatch);
        }
        let nl = self.values.len();
        let nr = rhs.values.len();
        // batch sizes, from the element counts and the matrix extents
        proof {
            lemma_prod_split(self.dims@, rank - 2);
            lemma_prod_split(rhs.dims@, rank - 2);
            assert(prod(Seq::<usize>::empty()) == 1);
            let ltail = self.dims@.subrange(rank - 2, rank as int);
            assert(ltail[0] == m && ltail.subrange(1, 2) =~= seq![kk]);
            assert(seq![kk].subrange(1, 1) =~= Seq::<usize>::empty());
            assert(prod(seq![kk]) == seq![kk][0] * prod(seq![kk].subrange(1, 1)));
            assert(prod(seq![kk]) == kk * 1);
            assert(prod(ltail) == m * (kk as int * 1));
            let rtail = rhs.dims@.subrange(rank - 2, rank as int);
            assert(rtail[0] == kk && rtail.subrange(1, 2) =~= seq![nn]);
            assert(seq![nn].subrange(1, 1) =~= Seq::<usize>::empty());
            assert(prod(seq![nn]) == seq![nn][0] * prod(seq![nn].subrange(1, 1)));
            assert(prod(seq![nn]) == nn * 1);
            assert(prod(rtail) == kk as int * (nn as int * 1));
            lemma_prod_pos(self.dims@.subrange(0, rank - 2));
            lemma_prod_pos(rhs.dims@.subrange(0, rank - 2));
            assert(m * kk <= nl) by (nonlinear_arith)
                requires
                    nl == batch_of(self.dims@) * (m * (kk as int * 1)),
                    batch_of(self.dims@) >= 1,
                    m >= 1,
                    kk >= 1,
            ;
            assert(kk * nn <= nr) by (nonlinear_arith)
                requires
                    nr == batch_of(rhs.dims@) * (kk as int * (nn as int * 1)),
                    batch_of(rhs.dims@) >= 1,
                    kk >= 1,
                    nn >= 1,
            ;
        }
        let mk = m * kk;
        let knn = kk * nn;
        proof {
            assert(m >= 1 && kk >= 1 && nn >= 1);
            assert(mk >= 1) by (nonlinear_arith)
                requires
                    mk == m * (kk as int),
                    m >= 1,
                    kk >= 1,
            ;
            assert(knn >= 1) by (nonlinear_arith)
                requires
                    knn == kk * (nn as int),
                    kk >= 1,
                    nn >= 1,
            ;
        }
        let bl = nl / mk;
        let br = nr / knn;
        proof {
            vstd::arithmetic::div_mod::lemma_div_by_multiple(batch_of(self.dims@), mk as int);
            assert(batch_of(self.dims@) * (m * (kk as int * 1)) == batch_of(self.dims@) * (mk
                as int)) by (nonlinear_arith)
                requires
                    mk == m * (kk as int),
            ;
            assert(bl == batch_of(self.dims@));
            vstd::arithmetic::div_mod::lemma_div_by_multiple(batch_of(rhs.dims@), knn as int);
            assert(batch_of(rhs.dims@) * (kk as int * (nn as int * 1)) == batch_of(rhs.dims@) * (
            knn as int)) by (nonlinear_arith)
                requires
                    knn == kk * (nn as int),
            ;
            assert(br == batch_of(rhs.dims@));
        }
        if !(bl == br || bl == 1 || br == 1) {
            return Err(TensorError::ShapeMismatch);
        }
        // the output shape: wider batch's leading axes, then (m, nn)
        let mut out_dims: Vec<usize>;
        if bl >= br {
            out_dims = self.dims.clone();
            out_dims[rank - 1] = nn;
        } else {
            out_dims = rhs.dims.clone();
            out_dims[rank - 2] = m;
        }
        proof {
            assert(out_dims@ == matmul_dims(self.dims@, rhs.dims@));
        }
        let bo = if bl >= br {
            bl
        } else {
            br
        };
        let out_count = match element_count(&out_dims) {
            Some(c) => c,
            None => {
                proof {
                    assert(all_positive(out_dims@));
                }
                return Err(TensorError::BadElementCount);
            },
        };
        proof {
            // the output count is bo * m * nn
            if bl >= br {
                lemma_prod_update(self.dims@, rank - 1, nn);
                assert(out_count * (kk as int) == nl * nn);
                assert(out_count * (kk as int) == (bl * (m * nn)) * kk) by (nonlinear_arith)
                    requires
                        nl == bl * (m * (kk as int * 1)),
                        out_count * (kk as int) == nl * nn,
                ;
                assert(out_count == bl * (m * nn)) by (nonlinear_arith)
                    requires
                        out_count * (kk as int) == (bl * (m * nn)) * kk,
                        kk >= 1,
                ;
            } else {
                lemma_prod_update(rhs.dims@, rank - 2, m);
                assert(out_count * (kk as int) == nr * m);
                assert(out_count * (kk as int) == (br * (m * nn)) * kk) by (nonlinear_arith)
                    requires
                        nr == br * (kk as int * (nn as int * 1)),
                        out_count * (kk as int) == nr * m,
                ;
                assert(out_count == br * (m * nn)) by (nonlinear_arith)
                    requires
                        out_count * (kk as int) == (br * (m * nn)) * kk,
                        kk >= 1,
                ;
            }
            assert(out_count == bo * m * nn) by (nonlinear_arith)
                requires
                    out_count == bo * ((m as int) * nn),
            ;
        }
        let ghost lv = self.values@;
        let ghost rv = rhs.values@;
        let mut values: Vec<i64> = Vec::new();
        let mut b: usize = 0;
        while b < bo
            invariant
                0 <= b <= bo,
                values@.len() == b * m * nn,
                forall|bb: int, ii: int, jj: int|
                    0 <= bb < b && 0 <= ii < m && 0 <= jj < nn ==> values@[(bb * m + ii) * nn + jj]
                        == #[trigger] matmul_cell(
                        lv,
                        rv,
                        bb,
                        ii,
                        jj,
                        m as int,
                        kk as int,
                        nn as int,
                        bl as int,
                        br as int,
                    ),
            decreases bo - b,
        {
            let lb = if bl == 1 {
                0
            } else {
                b
            };
            let rb = if br == 1 {
                0
            } else {
                b
            };
            proof {
                assert(lb < bl && rb < br);
                assert(lb * (mk as int) + mk <= nl) by (nonlinear_arith)
                    requires
                        lb < bl,
                        nl == bl * (mk as int),
                        mk >= 1,
                ;
                assert(rb * (knn as int) + knn <= nr) by (nonlinear_arith)
                    requires
                        rb < br,
                        nr == br * (knn as int),
                        knn >= 1,
                ;
            }
            let lbase = lb * mk;
            let rbase = rb * knn;
            let mut i: usize = 0;
            while i < m
                invariant
                    0 <= i <= m,
                    values@.len() == b * m * nn + i * nn,
                    forall|bb: int, ii: int, jj: int|
                        0 <= bb < b && 0 <= ii < m && 0 <= jj < nn ==> values@[(bb * m + ii) * nn
                            + jj] == #[trigger] matmul_cell(
                            lv,
                            rv,
                            bb,
                            ii,
                            jj,
                            m as int,
                            kk as int,
                            nn as int,
                            bl as int,
                            br as int,
                        ),
                    forall|ii: int, jj: int|
                        0 <= ii < i && 0 <= jj < nn ==> values@[(b * m + ii) * nn + jj]
                            == #[trigger] matmul_cell(
                            lv,
                            rv,
                            b as int,
                            ii,
                            jj,
                            m as int,
                            kk as int,
                            nn as int,
                            bl as int,
                            br as int,
                        ),
                decreases m - i,
            {
                proof {
                    assert(i * (kk as int) + kk <= mk) by (nonlinear_arith)
                        requires
                            i < m,
                            mk == m * (kk as int),
                            kk >= 1,
                    ;
                }
                let rowbase = lbase + i * kk;
                let mut j: usize = 0;
                while j < nn
                    invariant
                        0 <= j <= nn,
                        values@.len() == b * m * nn + i * nn + j,
                        forall|bb: int, ii: int, jj: int|
                            0 <= bb < b && 0 <= ii < m && 0 <= jj < nn ==> values@[(bb * m + ii)
                                * nn + jj] == #[trigger] matmul_cell(
                                lv,
                                rv,
                                bb,
                                ii,
                                jj,
                                m as int,
                                kk as int,
                                nn as int,
                                bl as int,
                                br as int,
                            ),
                        forall|ii: int, jj: int|
                            0 <= ii < i && 0 <= jj < nn ==> values@[(b * m + ii) * nn + jj]
                                == #[trigger] matmul_cell(
                                lv,
                                rv,
                                b as int,
                                ii,
                                jj,
                                m as int,
                                kk as int,
                                nn as int,
                                bl as int,
                                br as int,
                            ),
                        forall|jj: int|
                            0 <= jj < j ==> values@[(b * m + i) * nn + jj]
                                == #[trigger] matmul_cell(
                                lv,
                                rv,
                                b as int,
                                i as int,
                                jj,
                                m as int,
                                kk as int,
                                nn as int,
                                bl as int,
                                br as int,
                            ),
                    decreases nn - j,
                {
                    let mut acc: i64 = 0;
                    let mut l: usize = 0;
                    while l < kk
                        invariant
                            0 <= l <= kk,
                            acc == dot_wrap(
                                lv,
                                rv,
                                rowbase as int,
                                rbase + j,
                                nn as int,
                                l as int,
                            ),
                        decreases kk - l,
                    {
                        proof {
                            assert(l * (nn as int) + j < knn) by (nonlinear_arith)
                                requires
                                    l < kk,
                                    j < nn,
                                    knn == kk * (nn as int),
                            ;
                        }
                        let lval = self.values[rowbase + l];
                        let rval = rhs.values[rbase + l * nn + j];
                        acc = exec_add_elem(acc, exec_mul_elem(lval, rval));
                        l += 1;
                    }
                    values.push(acc);
                    j += 1;
                    proof {
                        let mm = m as int;
                        let nnn = nn as int;
                        let prelen = b * mm * nnn + i * nnn + (j - 1);
                        assert((b * m + i) * nnn == b * mm * nnn + i * nnn) by (nonlinear_arith)
                            requires
                                mm == m as int,
                                nnn == nn as int,
                        ;
                        assert(values@.len() == prelen + 1);
                        assert(values@[(b * m + i) * nn + (j - 1)] == acc);
                        assert((lb * mm + i) * (kk as int) == lb * (mk as int) + i * (kk as int))
                            by (nonlinear_arith)
                            requires
                                mm == m as int,
                                mk == m * (kk as int),
                        ;
                        assert(rowbase == (lb * mm + i) * (kk as int));
                        assert(rbase + (j - 1) == rb * ((kk as int) * nnn) + (j - 1));
                        assert(matmul_cell(
                            lv,
                            rv,
                            b as int,
                            i as int,
                            j - 1,
                            mm,
                            kk as int,
                            nnn,
                            bl as int,
                            br as int,
                        ) == acc);
                        assert forall|bb: int, ii: int, jj: int|
                            0 <= bb < b && 0 <= ii < m && 0 <= jj < nn implies values@[(bb * mm
                            + ii) * nnn + jj] == #[trigger] matmul_cell(
                            lv,
                            rv,
                            bb,
                            ii,
                            jj,
                            mm,
                            kk as int,
                            nnn,
                            bl as int,
                            br as int,
                        ) by {
                            assert((bb * mm + ii) * nnn + jj < prelen) by (nonlinear_arith)
                                requires
                                    prelen == b * mm * nnn + i * nnn + (j - 1),
                                    0 <= bb < b,
                                    0 <= ii < m,
                                    0 <= jj < nn,
                                    1 <= j,
                                    0 <= i,
                                    mm == m,
                                    nnn == nn,
                                    m >= 1,
                                    nn >= 1,
                            ;
                        }
                        assert forall|ii: int, jj: int|
                            0 <= ii < i && 0 <= jj < nn implies values@[(b * mm + ii) * nnn + jj]
                            == #[trigger] matmul_cell(
                            lv,
                            rv,
                            b as int,
                            ii,
                            jj,
                            mm,
                            kk as int,
                            nnn,
                            bl as int,
                            br as int,
                        ) by {
                            assert((b * mm + ii) * nnn + jj < prelen) by (nonlinear_arith)
                                requires
                                    prelen == b * mm * nnn + i * nnn + (j - 1),
                                    0 <= ii < i,
                                    0 <= jj < nn,
                                    1 <= j,
                                    0 <= b,
                                    mm == m,
                                    nnn == nn,
                                    nn >= 1,
                            ;
                        }
                        assert forall|jj: int|
                            0 <= jj < j implies values@[(b * mm + i) * nnn + jj]
                            == #[trigger] matmul_cell(
                            lv,
                            rv,
                            b as int,
                            i as int,
                            jj,
                            mm,
                            kk as int,
                            nnn,
                            bl as int,
                            br as int,
                        ) by {
                            if jj < j - 1 {
                                assert((b * mm + i) * nnn + jj < prelen);
                            }
                        }
                    }
                }
                i += 1;
                proof {
                    assert(b * m * nn + (i - 1) * nn + nn == b * m * nn + i * nn)
                        by (nonlinear_arith);
                }
            }
            b += 1;
            proof {
                assert((b - 1) * m * nn + m * nn == b * m * nn) by (nonlinear_arith);
            }
        }
        Ok(Tensor { values, dims: out_dims })
    }
}

} // verus!
