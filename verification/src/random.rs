//! Random identifiers.

use vstd::prelude::*;

verus! {

/// Calls `rand::random::<u64>()`. Nothing is claimed of the number.
#[verifier::external_body]
fn random_u64() -> (number: u64) {
    rand::random::<u64>()
}

/// Calls `rand::random::<u128>()`. Nothing is claimed of the number.
#[verifier::external_body]
pub(crate) fn random_u128() -> (number: u128) {
    rand::random::<u128>()
}

/// A random identifier, never zero.
pub fn random_id() -> (id: u64)
    ensures
        id >= 1,
{
    nonzero(random_u64())
}

/// The number, or one in place of zero.
pub fn nonzero(number: u64) -> (id: u64)
    ensures
        id == if number == 0 {
            1
        } else {
            number
        },
{
    if number == 0 {
        1
    } else {
        number
    }
}

} // verus!
