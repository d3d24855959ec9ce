//! Random bits.

use vstd::prelude::*;

verus! {

/// One hundred and twenty-eight random bits.
///
/// Trusted: calls `rand::random::<u128>`, which draws from the thread's
/// generator. Nothing is claimed of the number. The call does not return
/// where the system cannot seed the generator.
#[verifier::external_body]
pub(crate) fn random_bits() -> u128 {
    rand::random::<u128>()
}

} // verus!
