use rand::rngs::ThreadRng;
use rand::seq::SliceRandom;
use rand::Rng;
use vstd::prelude::*;

verus! {

/// `rand::rngs::ThreadRng`: a handle to a thread's random number
/// generator.
#[verifier::external_type_specification]
#[verifier::external_body]
pub struct ExThreadRng(ThreadRng);

/// `rand::thread_rng`: a handle to the calling thread's own generator.
/// Nothing is claimed of it.
#[verifier::external_body]
pub(crate) fn thread_rng() -> ThreadRng {
    rand::thread_rng()
}

/// `SliceRandom::shuffle`: reorders the slice in place. Whatever the
/// generator draws, the slice holds the same entries afterwards, each as
/// often as before.
#[verifier::external_body]
pub(crate) fn shuffle<T>(items: &mut [T], rng: &mut ThreadRng)
    ensures
        final(items)@.to_multiset() == old(items)@.to_multiset(),
{
    items.shuffle(rng)
}

/// `Rng::gen_range` on `0..bound`: some value below `bound`. The range must
/// not be empty.
#[verifier::external_body]
pub(crate) fn gen_below(rng: &mut ThreadRng, bound: u8) -> (value: u8)
    requires
        bound > 0,
    ensures
        value < bound,
{
    rng.gen_range(0..bound)
}

} // verus!
