//! The library's one source of entropy, used to sample the ball's restart
//! direction after a score event.

use vstd::prelude::*;

verus! {

/// Relies on `rand::random`: returns a 64-bit value sampled from the thread
/// RNG.  The result depends on the generator's state, so nothing is assumed
/// of it; everything computed from it is verified for every possible value.
#[verifier::external_body]
pub(crate) fn random_bits() -> u64 {
    rand::random::<u64>()
}

} // verus!
