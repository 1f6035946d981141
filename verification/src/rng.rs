//! The crate's single source of randomness, wrapped so that callers
//! state only what holds of every outcome.

use vstd::prelude::*;
use crate::fx::SCALE;

verus! {

#[verifier::external_type_specification]
#[verifier::external_body]
pub struct ExThreadRng(rand::rngs::ThreadRng);

/// Relies on rand::thread_rng: a lazily seeded random generator for
/// the current thread. Nothing is promised of it.
#[verifier::external_body]
pub fn fresh_rng() -> rand::rngs::ThreadRng {
    rand::thread_rng()
}

/// Relies on rand::Rng::gen_range over `0..bound`: returns a value
/// uniform in that half-open range and panics only when the range is
/// empty, which the precondition rules out.
#[verifier::external_body]
pub fn rand_below(rng: &mut rand::rngs::ThreadRng, bound: u32) -> (r: u32)
    requires
        bound > 0,
    ensures
        r < bound,
{
    rand::Rng::gen_range(rng, 0..bound)
}

/// One uniform fixed-point draw from `[0, 1)`.
pub fn random_unit(rng: &mut rand::rngs::ThreadRng) -> (r: i64)
    ensures
        0 <= r < SCALE,
{
    rand_below(rng, 1_000_000) as i64
}

} // verus!
