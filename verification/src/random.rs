//! Random choice among candidates.

use rand::rngs::StdRng;
use rand::seq::IteratorRandom;
use vstd::prelude::*;

verus! {

/// The standard generator of `rand`. Nothing is said of what is inside it.
#[verifier::external_type_specification]
#[verifier::external_body]
pub struct ExStdRng(StdRng);

/// `IteratorRandom::choose` of `rand`, on the candidates in order. Which
/// candidate comes out depends on the generator, so the contract says only
/// what holds of every outcome: nothing is chosen from an empty list, and
/// from any other list one of its members is.
#[verifier::external_body]
pub(crate) fn choose_among(candidates: &Vec<usize>, rng: &mut StdRng) -> (picked: Option<usize>)
    ensures
        candidates@.len() == 0 ==> picked is None,
        candidates@.len() > 0 ==> picked is Some && candidates@.contains(picked->0),
{
    candidates.iter().copied().choose(rng)
}

} // verus!
