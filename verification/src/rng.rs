//! Randomness for key, identifier and initialization-value generation.
//! The draws come from the process RNG; nothing is assumed of their
//! values beyond their type.

use vstd::prelude::*;

verus! {

/// Relies on rand::random: a uniformly drawn `u128`. No property of
/// the value is assumed.
#[verifier::external_body]
pub fn random_u128() -> u128 {
    rand::random()
}

} // verus!
