use vstd::prelude::*;

verus! {

/// Draws a byte from `rand::random::<u8>()`, the thread-local generator of
/// the `rand` crate. The byte depends on chance alone, so nothing is stated
/// of its value: every `u8` may come back.
#[verifier::external_body]
pub(crate) fn random_byte() -> u8 {
    rand::random::<u8>()
}

} // verus!
