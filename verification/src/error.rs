use vstd::prelude::*;
use vstd::std_specs::convert::FromSpecImpl;

verus! {

/// Failures of the cryptographic layer.
#[derive(Debug)]
pub enum CryptoError {
    /// A canonical byte string has the wrong length.
    InvalidKeyLength { expected: usize, actual: usize },
    /// A signature did not verify.
    InvalidSignature,
    /// Bytes could not be decoded or decompressed.
    SerializationError(String),
    /// Bytes could not be compressed.
    CompressionError(String),
    /// A range proof failed its structural or equation checks.
    InvalidProof,
}

/// Failures of the chain layer.
#[derive(Debug)]
pub enum CoreError {
    /// A transaction was rejected, with the reason.
    InvalidTransaction(String),
    /// A block was rejected, with the reason.
    InvalidBlock(String),
    /// A failure of the cryptographic layer, passed on as it came.
    CryptoError(CryptoError),
}

impl From<CryptoError> for CoreError {
    /// A failure of the cryptographic layer, seen from the chain layer.
    fn from(e: CryptoError) -> (wrapped: CoreError) {
        CoreError::CryptoError(e)
    }
}

impl FromSpecImpl<CryptoError> for CoreError {
    open spec fn obeys_from_spec() -> bool {
        true
    }

    open spec fn from_spec(e: CryptoError) -> CoreError {
        CoreError::CryptoError(e)
    }
}

/// Failures of the solver back-ends.
#[derive(Debug)]
pub enum PowError {
    MiningFailed(String),
    GpuNotAvailable(String),
    InsufficientVram { required: usize, available: usize },
}

/// Failures at the network boundary.
#[derive(Debug)]
pub enum NetError {
    ConnectionFailed(String),
    Io(String),
    Serialization(String),
    InvalidMessage(String),
}

} // verus!
