//! The source of random numbers.
use vstd::prelude::*;
use rand::rngs::StdRng;
use rand::Rng;

verus! {

/// The seeded generator of the `rand` crate. Opaque: only `random_up_to`
/// looks into it.
#[verifier::external_type_specification]
#[verifier::external_body]
pub struct ExStdRng(StdRng);

/// Draws an index from `0` to `high`, both included, with `Rng::gen_range`
/// on the inclusive range. The draw lies in the range it was asked for;
/// which index comes is up to the generator, and nothing more is claimed.
#[verifier::external_body]
pub(crate) fn random_up_to(rng: &mut StdRng, high: usize) -> (index: usize)
    ensures
        index <= high,
{
    rng.gen_range(0..=high)
}

} // verus!
