//! The one source of randomness, behind a trusted wrapper.

use vstd::prelude::*;

verus! {

/// Relies on rand::thread_rng and rand::Rng::gen_range: sampling a `Range`
/// returns a value in [0, bound) and panics only on an empty range, which the
/// precondition rules out. Nothing is assumed beyond the bound: to the
/// verifier two calls on the same argument may return different values.
#[verifier::external_body]
pub(crate) fn random_below(bound: u32) -> (r: u32)
    requires
        bound > 0,
    ensures
        r < bound,
{
    rand::Rng::gen_range(&mut rand::thread_rng(), 0..bound)
}

} // verus!
