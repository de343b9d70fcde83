//! Lattice layer: ring arithmetic, commitments, and range proofs.

pub mod commitment;
pub mod params;
pub mod range_proof;
pub mod ring;
pub mod ring_algebra;
pub mod sums;

pub use commitment::{CommitmentMatrix, LatticeCommitment, LatticeRandVec};
pub use params::{BITS, K, L, N, Q};
pub use range_proof::{AmountLeqProof, BitProof, LatticeRangeProof};
pub use ring::{RingElement, RingVector};
