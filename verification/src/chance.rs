//! The random source behind resend sampling.

use rand::Rng;
use vstd::prelude::*;

verus! {

/// `rand::rngs::ThreadRng`, the handle to the calling thread's generator.
/// Nothing is known of what it holds.
#[verifier::external_type_specification]
#[verifier::external_body]
pub struct ExThreadRng(rand::rngs::ThreadRng);

/// `rand::thread_rng` hands out the handle to the calling thread's generator,
/// which the operating system seeds. Nothing is claimed of the handle.
pub assume_specification[ rand::thread_rng ]() -> (rng: rand::rngs::ThreadRng)
;

/// `rand::Rng::gen_ratio` on a thread generator: a coin that comes up `true`
/// with `numerator` chances in `denominator`. The crate documents a panic for
/// a zero denominator and for a numerator above the denominator, so both are
/// left out. Of the outcome it promises only the two certain cases: always
/// `true` when the two numbers are equal, never `true` when the numerator is
/// zero. In between the outcome is open.
#[verifier::external_body]
pub(crate) fn flip(rng: &mut rand::rngs::ThreadRng, numerator: u32, denominator: u32) -> (heads:
    bool)
    requires
        denominator > 0,
        numerator <= denominator,
    ensures
        numerator == denominator ==> heads,
        numerator == 0 ==> !heads,
{
    rng.gen_ratio(numerator, denominator)
}


} // verus!
