//! The system's clock.

use vstd::prelude::*;

verus! {

/// The seconds since the Unix epoch, by the system's clock.
///
/// Trusted: calls `chrono::Utc::now` and `DateTime::timestamp`. Nothing is
/// claimed of the number. `Utc::now` does not return on a machine whose clock
/// stands before the epoch.
#[verifier::external_body]
pub(crate) fn unix_now() -> i64 {
    chrono::Utc::now().timestamp()
}

} // verus!
