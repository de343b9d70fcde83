//! Core machinery of a post-quantum chain: lattice commitments and range
//! proofs over the ring `Z_q[X]/(X^N + 1)`, hashing and key derivation, the
//! proof-of-work predicate, and the append-only chain with its difficulty
//! controller.

pub mod block;
pub mod blockchain;
pub mod chain_codec;
pub mod codec;
pub mod compression;
pub mod difficulty;
pub mod entropy;
pub mod error;
pub mod hash;
pub mod lattice;
pub mod message;
pub mod mldsa;
pub mod net;
pub mod pow;
pub mod serialization;
pub mod solver;
pub mod transaction;
pub mod wire;
pub mod xcqa_sig;

pub use block::{Block, BlockHeader};
pub use blockchain::Blockchain;
pub use difficulty::{adjust_difficulty, check_difficulty};
pub use error::{CoreError, CryptoError, NetError, PowError};
pub use hash::{blake3_512, sha512, Hkdf};
pub use lattice::{
    AmountLeqProof, CommitmentMatrix, LatticeCommitment, LatticeRandVec, LatticeRangeProof,
};
pub use message::Message;
pub use mldsa::{
    mldsa_keygen, mldsa_sign, mldsa_verify, MlDsa65PrivateKey, MlDsa65PublicKey, MlDsa65Signature,
};
pub use net::Peer;
pub use pow::{generate_epoch_pk, verify_pow_solution, XcqaPublicKey};
pub use serialization::CanonicalSerialize;
pub use solver::{CpuSolver, GpuSolver};
pub use transaction::Transaction;
pub use xcqa_sig::XcqaSignature;
