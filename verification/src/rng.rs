//! The library's only source of randomness, behind a trusted wrapper.
//!
//! A random draw promises nothing, so the wrapper carries no `ensures`;
//! every caller states what holds of all possible outcomes.

use vstd::prelude::*;

verus! {

/// Relies on rand::random: draws one `u32` from the thread-local
/// generator.  Nothing is promised of the result.
#[verifier::external_body]
pub(crate) fn random_u32() -> u32 {
    rand::random()
}

} // verus!
