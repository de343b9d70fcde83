use vstd::prelude::*;

verus! {

/// The prime modulus of the coefficient field (23 bits).
pub const Q: u32 = 8380417;

/// Degree of the defining polynomial `X^N + 1`.
pub const N: usize = 256;

/// Rows of the commitment matrix.
pub const K: usize = 4;

/// Columns of the commitment matrix.
pub const L: usize = 4;

/// Number of bits covered by a range proof.
pub const BITS: usize = 64;

} // verus!
