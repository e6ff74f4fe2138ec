//! The weighted sampler: an alias table over a weight vector, from which an
//! action index is drawn in constant time.

use vstd::prelude::*;
use rand::rngs::ThreadRng;
use rand::Rng;
use rand_distr::weighted::{Error, WeightedAliasIndex};
use rand_distr::Distribution;
use crate::errors::WeightsFault;
use crate::fixed::ONE;

verus! {

/// An alias table over `i128` weights: a `WeightedAliasIndex` of the crate
/// `rand_distr`. The verifier does not look inside; all it knows of a table
/// is the weight vector it was built from, `sampler_weights`.
#[verifier::external_body]
#[derive(Debug)]
pub struct Sampler {
    table: WeightedAliasIndex<i128>,
}

/// The thread-local generator of the crate `rand`, carried through as an
/// opaque value.
#[verifier::external_type_specification]
#[verifier::external_body]
pub struct ExThreadRng(ThreadRng);

/// The weight vector that an alias table was built from.
pub uninterp spec fn sampler_weights(s: Sampler) -> Seq<i128>;

/// Why no alias table can be built from `w`, if anything: the vector is
/// empty or too long, else a weight is negative or above `i128::MAX / len`,
/// else all weights are zero.
pub open spec fn weights_fault(w: Seq<i128>) -> Option<WeightsFault> {
    if w.len() == 0 || w.len() > u32::MAX {
        Some(WeightsFault::InvalidInput)
    } else if exists|i: int|
        0 <= i < w.len() && (#[trigger] w[i] < 0 || w[i] > (i128::MAX as int) / (w.len() as int)) {
        Some(WeightsFault::InvalidWeight)
    } else if forall|i: int| 0 <= i < w.len() ==> #[trigger] w[i] == 0 {
        Some(WeightsFault::InsufficientNonZero)
    } else {
        None
    }
}

/// Calls `WeightedAliasIndex::new` on a copy of `weights`. The table is
/// built exactly when `weights_fault` finds nothing wrong, and then holds
/// these weights; otherwise the error is the one `weights_fault` names.
#[verifier::external_body]
pub(crate) fn build_sampler(weights: &Vec<i128>) -> (r: Result<Sampler, WeightsFault>)
    ensures
        match r {
            Ok(s) => weights_fault(weights@) is None && sampler_weights(s) == weights@,
            Err(e) => weights_fault(weights@) == Some(e),
        },
{
    match WeightedAliasIndex::new(weights.clone()) {
        Ok(table) => Ok(Sampler { table }),
        Err(Error::InvalidInput) => Err(WeightsFault::InvalidInput),
        Err(Error::InvalidWeight) => Err(WeightsFault::InvalidWeight),
        Err(Error::InsufficientNonZero) => Err(WeightsFault::InsufficientNonZero),
        Err(_) => Err(WeightsFault::Overflow),
    }
}

impl Clone for Sampler {
    /// Calls `WeightedAliasIndex::clone`: the copy holds the same weights.
    #[verifier::external_body]
    fn clone(&self) -> (r: Self)
        ensures
            sampler_weights(r) == sampler_weights(*self),
    {
        Sampler { table: self.table.clone() }
    }
}

/// Calls `Distribution::sample` on the alias table. Whatever the generator
/// yields, the index lies within the weight vector and its weight is not
/// zero: the table picks an index with a chance proportional to its
/// weight, and on whole-number weights it does so without rounding.
#[verifier::external_body]
pub(crate) fn sample_index(s: &Sampler, rng: &mut ThreadRng) -> (r: usize)
    ensures
        r < sampler_weights(*s).len(),
        sampler_weights(*s)[r as int] > 0,
{
    s.table.sample(rng)
}

/// Calls `Rng::random::<u32>` and reads the 32 bits as the fractional
/// digits of a fixed-point value: a draw in `[0, 1)`.
#[verifier::external_body]
pub(crate) fn draw_unit(rng: &mut ThreadRng) -> (r: i128)
    ensures
        0 <= r < ONE,
{
    i128::from(rng.random::<u32>())
}

} // verus!
