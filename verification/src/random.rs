//! The random source of the simulation: the thread-local generator of the
//! `rand` crate. Nothing here is proved; each contract says what `rand`
//! documents and no more.

use vstd::prelude::*;
use rand::rngs::ThreadRng;
use rand::Rng;

verus! {

/// `rand::rngs::ThreadRng`, a handle to the generator of the current
/// thread. Nothing of its state is visible to proofs.
#[verifier::external_type_specification]
#[verifier::external_body]
pub struct ExThreadRng(ThreadRng);

/// Calls `rand::thread_rng`, which hands out the generator of the current
/// thread and seeds it from the operating system on first use. Nothing is
/// claimed of the handle. (`rand` gives up if the operating system cannot
/// supply a seed.)
#[verifier::external_body]
pub(crate) fn thread_rng() -> (rng: ThreadRng) {
    rand::thread_rng()
}

/// Calls `rand::Rng::gen_range` on two `usize` bounds. `rand` documents a
/// value in the half-open range from `low` to `high`, and a panic where
/// `low >= high`: the contract asks for `low < high` and claims the range,
/// nothing of which value is drawn.
#[verifier::external_body]
pub(crate) fn gen_range(rng: &mut ThreadRng, low: usize, high: usize) -> (value: usize)
    requires
        low < high,
    ensures
        low <= value < high,
{
    rng.gen_range(low, high)
}

} // verus!
