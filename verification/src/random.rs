//! Random tensor generation from a caller-held seeded generator. The
//! generator is an explicit context value; a process-wide guarded
//! instance is a convenience the surrounding program may add.
use vstd::prelude::*;

use crate::shape::{all_positive, element_count, prod};
use crate::tensor::{Device, Tensor, TensorError};

verus! {

/// The statistical distributions a tensor can be drawn from.
#[derive(Clone, Copy, Debug, PartialEq, Eq, Structural)]
pub enum Distribution {
    /// Every element value of the type, as the generator hands them out.
    Standard,
    /// Uniform over the half-open range: low included, high excluded.
    Uniform(i64, i64),
}

#[verifier::external_type_specification]
#[verifier::external_body]
pub struct ExStdRng(rand::rngs::StdRng);

/// Relies on rand's Rng::gen_range over `lo..hi`: it returns a value of
/// the half-open range, and panics only on an empty range.
#[verifier::external_body]
fn draw_uniform(rng: &mut rand::rngs::StdRng, lo: i64, hi: i64) -> (r: i64)
    requires
        lo < hi,
    ensures
        lo <= r < hi,
{
    rand::Rng::gen_range(rng, lo..hi)
}

/// Relies on rand's Rng::gen for `i64`: any value of the type may come
/// back, so nothing is assumed of the result.
#[verifier::external_body]
fn draw_any(rng: &mut rand::rngs::StdRng) -> i64 {
    rand::Rng::gen(rng)
}

/// A tensor of the given shape with every element drawn in turn from the
/// distribution, advancing the caller's generator.
#[verifier::loop_isolation(false)]
pub fn random(
    dims: Vec<usize>,
    distribution: Distribution,
    rng: &mut rand::rngs::StdRng,
    _device: &Device,
) -> (r: Result<Tensor, TensorError>)
    requires
        distribution matches Distribution::Uniform(lo, hi) ==> lo < hi,
    ensures
        match r {
            Ok(t) => {
                &&& all_positive(dims@) && prod(dims@) <= usize::MAX
                &&& t.wf()
                &&& t.dims@ == dims@
                &&& (distribution matches Distribution::Uniform(lo, hi) ==> forall|i: int|
                    0 <= i < t.values@.len() ==> lo <= #[trigger] t.values@[i] < hi)
            },
            Err(e) => !(all_positive(dims@) && prod(dims@) <= usize::MAX) && e
                == TensorError::BadElementCount,
        },
{
    let c = match element_count(&dims) {
        Some(c) => c,
        None => {
            return Err(TensorError::BadElementCount);
        },
    };
    let mut values: Vec<i64> = Vec::new();
    match distribution {
        Distribution::Standard => {
            let mut i: usize = 0;
            while i < c
                invariant
                    0 <= i <= c,
                    values@.len() == i,
                decreases c - i,
            {
                values.push(draw_any(rng));
                i += 1;
            }
        },
        Distribution::Uniform(lo, hi) => {
            let mut i: usize = 0;
            while i < c
                invariant
                    0 <= i <= c,
                    values@.len() == i,
                    forall|j: int| 0 <= j < i ==> lo <= #[trigger] values@[j] < hi,
                decreases c - i,
            {
                values.push(draw_uniform(rng, lo, hi));
                i += 1;
            }
        },
    }
    Ok(Tensor { values, dims })
}

} // verus!
