//! Uniform random draws, through the `rand` crate.

use vstd::prelude::*;

use rand::Rng;

verus! {

/// Relies on rand's `Rng::gen_range` over the half-open range `0..bound`:
/// the result is uniformly drawn from that range, so it is strictly below
/// `bound`. `gen_range` panics on an empty range, which `bound > 0` rules
/// out. Nothing more is promised: every draw may differ.
#[verifier::external_body]
pub(crate) fn random_index(bound: u8) -> (r: u8)
    requires
        bound > 0,
    ensures
        r < bound,
{
    rand::thread_rng().gen_range(0..bound)
}

} // verus!
