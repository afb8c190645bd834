//! Sources of randomness and identity, behind trusted wrappers.

use vstd::prelude::*;
use rand::Rng;

verus! {

/// Relies on `rand::rngs::ThreadRng` and `rand::Rng::gen_range`, which returns
/// a value uniformly distributed in the half-open range `0..bound` and panics
/// only when the range is empty. Nothing more is assumed of the value drawn.
#[verifier::external_body]
pub(crate) fn draw_below(bound: u64) -> (r: u64)
    requires
        bound > 0,
    ensures
        r < bound,
{
    rand::thread_rng().gen_range(0..bound)
}

/// Relies on `uuid::Uuid::new_v4`, a random (version 4) UUID, read out as its
/// 128-bit integer form. The value is random, so nothing is assumed of it.
#[verifier::external_body]
pub(crate) fn fresh_id() -> (r: u128)
{
    uuid::Uuid::new_v4().as_u128()
}

} // verus!
