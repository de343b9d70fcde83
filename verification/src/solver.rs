//! The proof-of-work search, one attempt at a time: the caller draws a
//! nonce, has the attempt's message signed by the layered signature scheme
//! with a fresh key, and hands the signature back to be judged.

use vstd::prelude::*;
use vstd::string::StringExecFns;
use crate::difficulty::{check_difficulty, meets_difficulty};
use crate::entropy::fresh_bytes_32;
use crate::error::PowError;
use crate::hash::{blake3_512, blake3_xof_64};
use crate::wire::put_bytes;
use crate::xcqa_sig::{enc_signature, signature_fits, XcqaSignature};

verus! {

/// The digest by which a signature is judged as work: the BLAKE3-512 digest
/// of its canonical bytes.
pub open spec fn work_digest(sig: crate::xcqa_sig::XcqaSignatureView) -> Seq<u8> {
    blake3_xof_64(enc_signature(sig))
}

/// Whether a signature counts as a solution at a fine difficulty.
pub open spec fn is_solution(sig: crate::xcqa_sig::XcqaSignatureView, fine: int) -> bool {
    signature_fits(sig) && meets_difficulty(work_digest(sig), fine)
}

/// The message of one attempt: the header bytes, then the nonce.
pub fn attempt_message(block_header: &[u8], nonce: &[u8; 32]) -> (msg: Vec<u8>)
    ensures
        msg@ == block_header@ + nonce@,
{
    let mut msg: Vec<u8> = Vec::new();
    put_bytes(&mut msg, block_header);
    put_bytes(&mut msg, nonce.as_slice());
    assert(msg@ =~= block_header@ + nonce@);
    msg
}

/// Judges one attempt: gives the signature and its nonce back where the
/// signature's digest meets the fine difficulty, and nothing otherwise.
pub fn judge_attempt(sig: XcqaSignature, nonce: [u8; 32], fine_difficulty: u8) -> (found: Option<
    (XcqaSignature, [u8; 32]),
>)
    ensures
        found is Some <==> is_solution(sig@, fine_difficulty as int),
        found matches Some((s, n)) ==> s == sig && n == nonce,
{
    if !sig.fits_wire() {
        return None;
    }
    let bytes = sig.to_bytes();
    let sig_hash = blake3_512(bytes.as_slice());
    if check_difficulty(&sig_hash, fine_difficulty) {
        Some((sig, nonce))
    } else {
        None
    }
}

/// The solver that searches on the processor.
#[derive(Debug)]
pub struct CpuSolver {
    layer_count: usize,
}

impl CpuSolver {
    /// The number of layers the solver was made for.
    pub closed spec fn layers(&self) -> usize {
        self.layer_count
    }

    /// A solver for keys of `layer_count` layers.
    pub fn new(layer_count: usize) -> (solver: Self)
        ensures
            solver.layers() == layer_count,
    {
        CpuSolver { layer_count }
    }

    /// The number of layers of the keys that attempts are signed with.
    pub fn layer_count(&self) -> (n: usize)
        ensures
            n == self.layers(),
    {
        self.layer_count
    }

    /// A fresh nonce for the next attempt.
    pub fn fresh_nonce(&self, rng: &mut rand::rngs::ThreadRng) -> (nonce: [u8; 32]) {
        fresh_bytes_32(rng)
    }
}

/// What a look for a graphics device found.
#[derive(Debug)]
pub enum GpuProbe {
    /// Graphics support is not built in.
    Disabled,
    /// No device answered; the text says why.
    NoDevice(String),
    /// The device did not tell its memory; the text says why.
    QueryFailed(String),
    /// The device has this many bytes of memory.
    TotalMemory(usize),
}

/// The solver that searches on a graphics device.
#[derive(Debug)]
pub struct GpuSolver {
    layer_count: usize,
}

/// The number of bytes in a megabyte of device memory.
pub const BYTES_PER_MB: usize = 1048576;

impl GpuSolver {
    /// The number of layers the solver was made for.
    pub closed spec fn layers(&self) -> usize {
        self.layer_count
    }

    /// Without graphics support built in, no solver can be made.
    pub fn new(layer_count: usize, min_vram_mb: usize) -> (res: Result<Self, PowError>)
        ensures
            res matches Err(PowError::GpuNotAvailable(msg)) && msg@ == "GPU feature not enabled"@,
    {
        GpuSolver::from_probe(layer_count, min_vram_mb, GpuProbe::Disabled)
    }

    /// Decides from what a look for a device found: a solver where the
    /// device has at least `min_vram_mb` whole megabytes, and the fitting
    /// error otherwise.
    pub fn from_probe(layer_count: usize, min_vram_mb: usize, probe: GpuProbe) -> (res: Result<
        Self,
        PowError,
    >)
        ensures
            match probe {
                GpuProbe::Disabled => res matches Err(PowError::GpuNotAvailable(msg)) && msg@
                    == "GPU feature not enabled"@,
                GpuProbe::NoDevice(why) => res matches Err(PowError::GpuNotAvailable(msg)) && msg@
                    == "CUDA device not found: "@ + why@,
                GpuProbe::QueryFailed(why) => res matches Err(PowError::GpuNotAvailable(msg))
                    && msg@ == "Failed to query VRAM: "@ + why@,
                GpuProbe::TotalMemory(bytes) => if bytes / BYTES_PER_MB < min_vram_mb {
                    res == Err::<Self, PowError>(
                        PowError::InsufficientVram {
                            required: min_vram_mb,
                            available: bytes / BYTES_PER_MB,
                        },
                    )
                } else {
                    res matches Ok(solver) && solver.layers() == layer_count
                },
            },
    {
        match probe {
            GpuProbe::Disabled => Err(
                PowError::GpuNotAvailable("GPU feature not enabled".to_string()),
            ),
            GpuProbe::NoDevice(why) => Err(
                PowError::GpuNotAvailable(
                    "CUDA device not found: ".to_string().concat(why.as_str()),
                ),
            ),
            GpuProbe::QueryFailed(why) => Err(
                PowError::GpuNotAvailable("Failed to query VRAM: ".to_string().concat(why.as_str())),
            ),
            GpuProbe::TotalMemory(bytes) => {
                let available_mb = bytes / BYTES_PER_MB;
                if available_mb < min_vram_mb {
                    Err(PowError::InsufficientVram { required: min_vram_mb, available: available_mb })
                } else {
                    Ok(GpuSolver { layer_count })
                }
            },
        }
    }

    /// The number of layers of the keys that attempts are signed with.
    pub fn layer_count(&self) -> (n: usize)
        ensures
            n == self.layers(),
    {
        self.layer_count
    }

    /// A fresh nonce for the next attempt.
    pub fn fresh_nonce(&self, rng: &mut rand::rngs::ThreadRng) -> (nonce: [u8; 32]) {
        fresh_bytes_32(rng)
    }
}

} // verus!
