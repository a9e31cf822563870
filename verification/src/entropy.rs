//! The source of randomness: the thread-local generator of the `rand` crate.
//! Nothing in this file is proved; the contracts restate what `rand`
//! documents.

use vstd::prelude::*;
use rand::rngs::ThreadRng;
use rand::Rng;

verus! {

/// `rand::rngs::ThreadRng`, a handle to the generator of the current thread.
/// Its state is hidden from the verifier.
#[verifier::external_type_specification]
#[verifier::external_body]
pub struct ExThreadRng(ThreadRng);

/// `rand::thread_rng` hands out the handle. Nothing is claimed of it. The
/// call fails only where the system cannot seed the generator, which no
/// argument decides.
pub assume_specification[ rand::thread_rng ]() -> ThreadRng;

/// `Rng::gen_ratio` on the thread-local generator: a draw that is `true`
/// with probability `numerator / denominator`. The call panics on a zero
/// denominator and on a ratio above one, which the precondition rules out.
/// Beyond that a draw fails only where the generator cannot be reseeded
/// from the system, which no argument decides and no precondition can
/// exclude. Of the outcome only the two certain cases are claimed: a ratio
/// of one always draws `true`, a ratio of zero always draws `false`.
#[verifier::external_body]
pub(crate) fn gen_ratio(rng: &mut ThreadRng, numerator: u32, denominator: u32) -> (hit: bool)
    requires
        denominator != 0,
        numerator <= denominator,
    ensures
        numerator == denominator ==> hit,
        numerator == 0 ==> !hit,
{
    rng.gen_ratio(numerator, denominator)
}

} // verus!
