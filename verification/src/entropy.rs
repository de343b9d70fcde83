use vstd::prelude::*;

verus! {

/// The thread-local generator of the `rand` crate, carried through as an
/// opaque value.
#[verifier::external_type_specification]
#[verifier::external_body]
pub struct ExThreadRng(rand::rngs::ThreadRng);

/// One fresh 32-bit word.
///
/// Calls `rand::Rng::next_u32`. Nothing is promised of the word: any value
/// may come back, and two calls may differ.
#[verifier::external_body]
pub(crate) fn next_word(rng: &mut rand::rngs::ThreadRng) -> (word: u32) {
    rand::Rng::next_u32(rng)
}

/// Thirty-two fresh bytes.
///
/// Calls `rand::RngExt::fill` on an array of 32 bytes. Nothing is promised
/// of the bytes.
#[verifier::external_body]
pub(crate) fn fresh_bytes_32(rng: &mut rand::rngs::ThreadRng) -> (bytes: [u8; 32]) {
    let mut bytes = [0u8; 32];
    rand::RngExt::fill(rng, &mut bytes);
    bytes
}

} // verus!
