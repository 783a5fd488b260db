use vstd::prelude::*;
use rand::rngs::ThreadRng;

verus! {

/// The thread-local random generator of `rand`, carried through opaquely.
#[verifier::external_type_specification]
#[verifier::external_body]
pub struct ExThreadRng(ThreadRng);

/// `rand::Rng::gen_range` over `low..high`: some number in that range; which
/// one rests on the generator's state, so nothing more is stated.
#[verifier::external_body]
pub(crate) fn random_below(rng: &mut ThreadRng, low: usize, high: usize) -> (r: usize)
    requires
        low < high,
    ensures
        low <= r < high,
{
    rand::Rng::gen_range(rng, low..high)
}

} // verus!
