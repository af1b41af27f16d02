//! Element arithmetic: the per-cell operations of the engine, with
//! two's-complement wrapping semantics, and the algebraic laws the
//! elementwise engine inherits from them.
use vstd::prelude::*;
use vstd::wrapping::i64_specs;

verus! {

/// Wrapping sum of two elements.
pub open spec fn add_elem(a: i64, b: i64) -> i64 {
    i64_specs::wrapping_add(a, b)
}

/// Wrapping difference of two elements.
pub open spec fn sub_elem(a: i64, b: i64) -> i64 {
    i64_specs::wrapping_sub(a, b)
}

/// Wrapping product of two elements.
pub open spec fn mul_elem(a: i64, b: i64) -> i64 {
    i64_specs::wrapping_mul(a, b)
}

/// Negation, as the engine computes it: a wrapping multiply by minus one.
pub open spec fn neg_elem(a: i64) -> i64 {
    mul_elem(a, -1i64)
}

/// Truncating quotient of two elements, wrapping on the one overflowing
/// pair, for a nonzero divisor.
pub open spec fn div_elem(a: i64, b: i64) -> i64
    recommends
        b != 0,
{
    if a == i64::MIN && b == -1i64 {
        i64::MIN
    } else {
        let x = a as int;
        let d = b as int;
        let q = if x == 0 {
            0int
        } else if x > 0 && d > 0 {
            x / d
        } else if x < 0 && d < 0 {
            (x * -1) / (d * -1)
        } else if x < 0 {
            ((x * -1) / d) * -1
        } else {
            (x / (d * -1)) * -1
        };
        q as i64
    }
}

/// The rectifier on one element: the element itself when it is not below
/// zero, the additive identity otherwise.
pub open spec fn relu_elem(a: i64) -> i64 {
    if a < 0 {
        0i64
    } else {
        a
    }
}

/// Exec wrapping sum.
pub fn exec_add_elem(a: i64, b: i64) -> (r: i64)
    ensures
        r == add_elem(a, b),
{
    a.wrapping_add(b)
}

/// Exec wrapping difference.
pub fn exec_sub_elem(a: i64, b: i64) -> (r: i64)
    ensures
        r == sub_elem(a, b),
{
    a.wrapping_sub(b)
}

/// Exec wrapping product.
pub fn exec_mul_elem(a: i64, b: i64) -> (r: i64)
    ensures
        r == mul_elem(a, b),
{
    a.wrapping_mul(b)
}

/// Exec truncating quotient for a nonzero divisor.
pub fn exec_div_elem(a: i64, b: i64) -> (r: i64)
    requires
        b != 0,
    ensures
        r == div_elem(a, b),
{
    match a.checked_div(b) {
        Some(v) => v,
        None => {
            // only i64::MIN / -1 overflows; it wraps back to i64::MIN
            proof {
                if !(a == i64::MIN && b == -1i64) {
                    lemma_div_overflow_only_min_by_minus_one(a, b);
                }
            }
            i64::MIN
        },
    }
}

/// The one quotient of `i64` values that leaves the type's range is
/// `i64::MIN / -1`.
proof fn lemma_div_overflow_only_min_by_minus_one(a: i64, b: i64)
    requires
        b != 0,
        !(a == i64::MIN && b == -1i64),
    ensures
        ({
            let x = a as int;
            let d = b as int;
            let q = if x == 0 {
                0int
            } else if x > 0 && d > 0 {
                x / d
            } else if x < 0 && d < 0 {
                (x * -1) / (d * -1)
            } else if x < 0 {
                ((x * -1) / d) * -1
            } else {
                (x / (d * -1)) * -1
            };
            i64::MIN <= q <= i64::MAX
        }),
{
    let x = a as int;
    let d = b as int;
    if x == 0 {
    } else if x > 0 && d > 0 {
        vstd::arithmetic::div_mod::lemma_div_pos_is_pos(x, d);
        vstd::arithmetic::div_mod::lemma_div_nonincreasing(x, d);
    } else if x < 0 && d < 0 {
        let nx = x * -1;
        let nd = d * -1;
        vstd::arithmetic::div_mod::lemma_div_pos_is_pos(nx, nd);
        if nd == 1 {
            // b == -1, so a != i64::MIN and the magnitude fits
            vstd::arithmetic::div_mod::lemma_div_nonincreasing(nx, nd);
        } else {
            vstd::arithmetic::div_mod::lemma_div_is_ordered_by_denominator(nx, 2, nd);
            vstd::arithmetic::div_mod::lemma_div_is_ordered(nx, 0x8000_0000_0000_0000, 2);
            assert(0x8000_0000_0000_0000int / 2 == 0x4000_0000_0000_0000);
        }
    } else if x < 0 {
        let nx = x * -1;
        vstd::arithmetic::div_mod::lemma_div_pos_is_pos(nx, d);
        vstd::arithmetic::div_mod::lemma_div_nonincreasing(nx, d);
    } else {
        let nd = d * -1;
        vstd::arithmetic::div_mod::lemma_div_pos_is_pos(x, nd);
        vstd::arithmetic::div_mod::lemma_div_nonincreasing(x, nd);
    }
}

/// Negating an element wraps its sign: minus one times the element.
pub proof fn lemma_neg_elem(a: i64)
    ensures
        a != i64::MIN ==> neg_elem(a) == -a,
        a == i64::MIN ==> neg_elem(a) == i64::MIN,
{
    assert(neg_elem(a) == i64_specs::signed_crop(a * -1));
    if a == i64::MIN {
        let x = a * -1;
        assert(x == 0x8000_0000_0000_0000);
        assert(x % 0x1_0000_0000_0000_0000 == 0x8000_0000_0000_0000);
        assert(i64_specs::signed_crop(x) == i64::MIN);
    } else {
        assert(-0x8000_0000_0000_0000 < a <= 0x7fff_ffff_ffff_ffff);
        let x = a * -1;
        assert(x == -a);
        if x >= 0 {
            assert(x % 0x1_0000_0000_0000_0000 == x);
        } else {
            assert(x % 0x1_0000_0000_0000_0000 == x + 0x1_0000_0000_0000_0000);
        }
    }
}

/// Subtraction is addition of the wrapped negation, exactly, on every pair
/// of elements.
pub proof fn lemma_sub_is_add_neg(a: i64, b: i64)
    ensures
        sub_elem(a, b) == add_elem(a, neg_elem(b)),
{
    lemma_neg_elem(b);
}

/// Elementwise addition is commutative, exactly.
pub proof fn lemma_add_elem_commutes(a: i64, b: i64)
    ensures
        add_elem(a, b) == add_elem(b, a),
{
}

} // verus!
