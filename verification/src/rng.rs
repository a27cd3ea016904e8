use vstd::prelude::*;
use rand::rngs::StdRng;
use rand::seq::SliceRandom;
use rand::Rng;

verus! {

/// The generator of `rand` that the trees are drawn with. Nothing is known of
/// its state.
#[verifier::external_type_specification]
#[verifier::external_body]
pub struct ExStdRng(StdRng);

/// `Rng::gen_range` of `rand` on the inclusive range from `low` to `high`.
/// It panics on an empty range, so `low` may not exceed `high`; what it
/// returns lies in the range. Which number comes is up to the generator.
#[verifier::external_body]
pub(crate) fn gen_range_inclusive(rng: &mut StdRng, low: i32, high: i32) -> (n: i32)
    requires
        low <= high,
    ensures
        low <= n <= high,
{
    rng.gen_range(low..=high)
}

/// `SliceRandom::choose` of `rand` on a slice, with the chosen element copied
/// out. It returns `None` exactly on the empty slice, and otherwise one of the
/// slice's elements. Which one comes is up to the generator.
#[verifier::external_body]
pub(crate) fn choose_from<T: Copy>(rng: &mut StdRng, values: &[T]) -> (picked: Option<T>)
    ensures
        values@.len() == 0 ==> picked is None,
        values@.len() > 0 ==> picked is Some && values@.contains(picked->0),
{
    values.choose(rng).copied()
}

} // verus!
