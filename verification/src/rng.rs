//! The one source of randomness the library uses: picking a scoop index for
//! the keep-alive seek between rounds.

use vstd::prelude::*;

verus! {

/// Relies on rand's `Rng::gen_range(low, high)`, documented to return a value
/// in `[low, high)`; `low < high` holds here, so it does not panic. Nothing
/// more is promised of a random value.
#[verifier::external_body]
pub fn random_scoop() -> (r: u64)
    ensures
        r < crate::plot::SCOOPS_IN_NONCE,
{
    rand::Rng::gen_range(&mut rand::thread_rng(), 0, crate::plot::SCOOPS_IN_NONCE)
}

} // verus!
