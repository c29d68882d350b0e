//! The engine's one source of randomness.

use rand::Rng;
use vstd::prelude::*;

verus! {

/// Relies on `rand::thread_rng` and `rand::Rng::gen_range` for one
/// uniformly drawn byte. Nothing is assumed about which byte comes back:
/// every caller must hold for every possible value.
#[verifier::external_body]
pub(crate) fn random_byte() -> u8 {
    let mut rng = rand::thread_rng();
    rng.gen_range(0..=255) as u8
}

} // verus!
