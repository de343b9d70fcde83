use vstd::prelude::*;
use crate::codec::{
    decode_range_proof,
    enc_poly,
    enc_range_proof,
    get_range_proof,
    lemma_range_proof_decodes,
    put_range_proof,
    put_ring_element,
    range_proof_fits,
};
use crate::compression::{io_error_text, zstd_content, zstd_decode, zstd_encode};
use crate::error::CryptoError;
use crate::hash::{blake3_512, blake3_xof_64};
use crate::lattice::commitment::{
    commit_spec,
    CommitmentMatrix,
    LatticeCommitment,
    LatticeRandVec,
};
use crate::lattice::params::{BITS, L, N};
use crate::lattice::ring::RingElement;
use crate::wire::put_bytes;

verus! {

/// Bit `i` of a value, counted from the least significant.
pub open spec fn bit_of(value: u64, i: int) -> int {
    ((value >> (i as u64)) & 1) as int
}

/// The mathematical content of a `BitProof`.
pub struct BitProofView {
    pub commitment: Seq<Seq<int>>,
    pub response_r: Seq<Seq<int>>,
    pub response_b: int,
}

/// The mathematical content of a `LatticeRangeProof`.
pub struct RangeProofView {
    pub bit_commitments: Seq<Seq<Seq<int>>>,
    pub bit_proofs: Seq<BitProofView>,
}

/// A bit proof is accepted when its bit is 0 or 1, its randomness has `L`
/// elements, and committing to the bit under that randomness gives back its
/// commitment.
pub open spec fn bit_proof_accepts(p: BitProofView, a: Seq<Seq<Seq<int>>>) -> bool {
    &&& 0 <= p.response_b <= 1
    &&& p.response_r.len() == L
    &&& commit_spec(p.response_b, p.response_r, a) == p.commitment
}

/// A range proof is accepted when it holds exactly `BITS` bit commitments
/// and `BITS` bit proofs, and every bit proof is accepted.
pub open spec fn range_proof_accepts(p: RangeProofView, a: Seq<Seq<Seq<int>>>) -> bool {
    &&& p.bit_commitments.len() == BITS
    &&& p.bit_proofs.len() == BITS
    &&& forall|i: int| 0 <= i < BITS ==> bit_proof_accepts(#[trigger] p.bit_proofs[i], a)
}

/// The opening of a commitment to `bit` under randomness `r`.
pub open spec fn bit_proof_of(bit: int, r: Seq<Seq<int>>, a: Seq<Seq<Seq<int>>>) -> BitProofView {
    BitProofView { commitment: commit_spec(bit, r, a), response_r: r, response_b: bit }
}

/// The range proof of `value` under the per-bit randomness `rands`: bit `i`
/// is committed under `rands[i]` and opened.
pub open spec fn range_proof_of(
    value: u64,
    rands: Seq<Seq<Seq<int>>>,
    a: Seq<Seq<Seq<int>>>,
) -> RangeProofView {
    RangeProofView {
        bit_commitments: Seq::new(
            BITS as nat,
            |i: int| commit_spec(bit_of(value, i), rands[i], a),
        ),
        bit_proofs: Seq::new(BITS as nat, |i: int| bit_proof_of(bit_of(value, i), rands[i], a)),
    }
}

/// The first element of each of the first `n` commitments, as bytes, one
/// after the other.
pub open spec fn transcript_upto(commitments: Seq<Seq<Seq<int>>>, n: int) -> Seq<u8>
    decreases n,
{
    if n <= 0 {
        Seq::empty()
    } else {
        transcript_upto(commitments, n - 1) + enc_poly(commitments[n - 1][0])
    }
}

/// The Fiat-Shamir transcript: the first element of every bit commitment,
/// then the context.
pub open spec fn challenge_transcript(commitments: Seq<Seq<Seq<int>>>, ctx: Seq<u8>) -> Seq<u8> {
    transcript_upto(commitments, commitments.len() as int) + ctx
}

/// The opening of one committed bit.
#[derive(Debug)]
pub struct BitProof {
    pub commitment: LatticeCommitment,
    pub response_r: LatticeRandVec,
    pub response_b: u8,
}

impl View for BitProof {
    type V = BitProofView;

    open spec fn view(&self) -> BitProofView {
        BitProofView {
            commitment: self.commitment@,
            response_r: self.response_r@,
            response_b: self.response_b as int,
        }
    }
}

impl Clone for BitProof {
    fn clone(&self) -> (copy: Self)
        ensures
            copy@ == self@,
    {
        BitProof {
            commitment: self.commitment.clone(),
            response_r: self.response_r.clone(),
            response_b: self.response_b,
        }
    }
}

/// A proof that a committed value lies in `[0, 2^64)`: one commitment and
/// one opening per bit.
#[derive(Debug)]
pub struct LatticeRangeProof {
    pub bit_commitments: Vec<LatticeCommitment>,
    pub bit_proofs: Vec<BitProof>,
}

impl View for LatticeRangeProof {
    type V = RangeProofView;

    open spec fn view(&self) -> RangeProofView {
        RangeProofView {
            bit_commitments: Seq::new(
                self.bit_commitments.len() as nat,
                |i: int| self.bit_commitments[i]@,
            ),
            bit_proofs: Seq::new(self.bit_proofs.len() as nat, |i: int| self.bit_proofs[i]@),
        }
    }
}

impl Clone for LatticeRangeProof {
    fn clone(&self) -> (copy: Self)
        ensures
            copy@ == self@,
    {
        let mut bit_commitments: Vec<LatticeCommitment> = Vec::new();
        let mut i: usize = 0;
        while i < self.bit_commitments.len()
            invariant
                i <= self.bit_commitments.len(),
                bit_commitments.len() == i,
                forall|t: int| 0 <= t < i ==> (#[trigger] bit_commitments[t])@ == self.bit_commitments[t]@,
            decreases self.bit_commitments.len() - i,
        {
            bit_commitments.push(self.bit_commitments[i].clone());
            i += 1;
        }
        let mut bit_proofs: Vec<BitProof> = Vec::new();
        let mut j: usize = 0;
        while j < self.bit_proofs.len()
            invariant
                j <= self.bit_proofs.len(),
                bit_proofs.len() == j,
                forall|t: int| 0 <= t < j ==> (#[trigger] bit_proofs[t])@ == self.bit_proofs[t]@,
            decreases self.bit_proofs.len() - j,
        {
            bit_proofs.push(self.bit_proofs[j].clone());
            j += 1;
        }
        let copy = LatticeRangeProof { bit_commitments, bit_proofs };
        assert(copy@.bit_commitments =~= self@.bit_commitments);
        assert(copy@.bit_proofs =~= self@.bit_proofs);
        copy
    }
}

/// The 64 bits of a value, least significant first.
pub fn decompose_bits(value: u64) -> (bits: [u8; 64])
    ensures
        forall|i: int| 0 <= i < BITS ==> #[trigger] bits[i] as int == bit_of(value, i),
        forall|i: int| 0 <= i < BITS ==> #[trigger] bits[i] <= 1,
{
    let mut bits = [0u8; 64];
    let mut i: usize = 0;
    while i < BITS
        invariant
            i <= BITS,
            forall|t: int| 0 <= t < i ==> #[trigger] bits[t] as int == bit_of(value, t),
            forall|t: int| 0 <= t < i ==> #[trigger] bits[t] <= 1,
        decreases BITS - i,
    {
        let shift: u64 = i as u64;
        let bit: u64 = (value >> shift) & 1;
        assert(bit <= 1) by (bit_vector)
            requires
                bit == (value >> shift) & 1,
        ;
        bits[i] = bit as u8;
        i += 1;
    }
    bits
}

/// Tells whether two ring elements hold the same coefficients.
fn elements_equal(x: &RingElement, y: &RingElement) -> (same: bool)
    ensures
        same == (x@ == y@),
{
    let mut k: usize = 0;
    while k < N
        invariant
            k <= N,
            forall|t: int| 0 <= t < k ==> #[trigger] x.coeffs[t] == y.coeffs[t],
        decreases N - k,
    {
        if x.coeffs[k] != y.coeffs[k] {
            assert(x@[k as int] != y@[k as int]);
            return false;
        }
        k += 1;
    }
    assert(x@ =~= y@);
    true
}

/// Tells whether two commitments are equal: as many elements, and every
/// coefficient of every element the same.
pub fn commitments_equal(a: &LatticeCommitment, b: &LatticeCommitment) -> (same: bool)
    ensures
        same == (a@ == b@),
{
    if a.c.elements.len() != b.c.elements.len() {
        assert(a@.len() != b@.len());
        return false;
    }
    let n = a.c.elements.len();
    let mut i: usize = 0;
    while i < n
        invariant
            i <= n,
            n == a.c.elements.len(),
            n == b.c.elements.len(),
            forall|t: int| 0 <= t < i ==> #[trigger] a@[t] == b@[t],
        decreases n - i,
    {
        if !elements_equal(&a.c.elements[i], &b.c.elements[i]) {
            assert(a@[i as int] != b@[i as int]);
            return false;
        }
        i += 1;
    }
    assert(a@ =~= b@);
    true
}

impl BitProof {
    /// Checks the opening: the bit is 0 or 1, and committing to it under the
    /// disclosed randomness gives the stored commitment.
    pub fn verify(&self, matrix: &CommitmentMatrix) -> (ok: bool)
        requires
            matrix.wf(),
        ensures
            ok == bit_proof_accepts(self@, matrix@),
    {
        if self.response_b > 1 {
            return false;
        }
        if self.response_r.r.elements.len() != L {
            assert(self@.response_r.len() != L);
            return false;
        }
        let recomputed = LatticeCommitment::commit(
            self.response_b as u64,
            &self.response_r,
            matrix,
        );
        commitments_equal(&recomputed, &self.commitment)
    }
}

/// The range proof's openings disclose the bits of `value`, and each bit
/// commitment is the one its opening carries.
pub open spec fn opens_value(p: RangeProofView, value: u64) -> bool {
    &&& p.bit_commitments.len() == BITS
    &&& p.bit_proofs.len() == BITS
    &&& forall|i: int|
        0 <= i < BITS ==> (#[trigger] p.bit_proofs[i]).response_b == bit_of(value, i)
            && p.bit_proofs[i].commitment == p.bit_commitments[i]
}

impl LatticeRangeProof {
    /// The Fiat-Shamir challenge over the bit commitments and the context.
    /// Verification does not consume it.
    pub fn challenge(bit_commitments: &Vec<LatticeCommitment>, block_hash: &[u8; 64]) -> (e: [u8; 64])
        requires
            forall|i: int|
                0 <= i < bit_commitments.len() ==> (#[trigger] bit_commitments[i]).c.elements.len()
                    > 0,
        ensures
            e@ == blake3_xof_64(
                challenge_transcript(
                    Seq::new(bit_commitments.len() as nat, |i: int| bit_commitments[i]@),
                    block_hash@,
                ),
            ),
    {
        let ghost cs = Seq::new(bit_commitments.len() as nat, |i: int| bit_commitments[i]@);
        let mut input: Vec<u8> = Vec::new();
        let mut i: usize = 0;
        while i < bit_commitments.len()
            invariant
                i <= bit_commitments.len(),
                cs == Seq::new(bit_commitments.len() as nat, |i: int| bit_commitments[i]@),
                forall|t: int|
                    0 <= t < bit_commitments.len() ==> (#[trigger] bit_commitments[t]).c.elements.len()
                        > 0,
                input@ == transcript_upto(cs, i as int),
            decreases bit_commitments.len() - i,
        {
            assert(bit_commitments[i as int].c.elements.len() > 0);
            put_ring_element(&mut input, &bit_commitments[i].c.elements[0]);
            proof {
                assert(cs[i as int][0] == bit_commitments[i as int].c.elements[0]@);
                assert(input@ =~= transcript_upto(cs, i + 1));
            }
            i += 1;
        }
        put_bytes(&mut input, block_hash.as_slice());
        assert(input@ =~= challenge_transcript(cs, block_hash@));
        blake3_512(input.as_slice())
    }

    /// Builds the proof from given per-bit randomness: bit `i` of the value
    /// is committed under `bit_randomness[i]` and opened.
    pub fn prove_with(
        value: u64,
        bit_randomness: &Vec<LatticeRandVec>,
        matrix: &CommitmentMatrix,
        block_hash: &[u8; 64],
    ) -> (rp: Self)
        requires
            matrix.wf(),
            bit_randomness.len() == BITS,
            forall|i: int| 0 <= i < BITS ==> (#[trigger] bit_randomness[i]).r.elements.len() == L,
        ensures
            rp@ == range_proof_of(
                value,
                Seq::new(BITS as nat, |i: int| bit_randomness[i]@),
                matrix@,
            ),
            range_proof_accepts(rp@, matrix@),
            opens_value(rp@, value),
    {
        let ghost rands = Seq::new(BITS as nat, |i: int| bit_randomness[i]@);
        let ghost a = matrix@;
        let bits = decompose_bits(value);
        let mut bit_commitments: Vec<LatticeCommitment> = Vec::new();
        let mut i: usize = 0;
        while i < BITS
            invariant
                i <= BITS,
                matrix.wf(),
                a == matrix@,
                bit_randomness.len() == BITS,
                forall|t: int| 0 <= t < BITS ==> (#[trigger] bit_randomness[t]).r.elements.len() == L,
                rands == Seq::new(BITS as nat, |t: int| bit_randomness[t]@),
                forall|t: int| 0 <= t < BITS ==> #[trigger] bits[t] as int == bit_of(value, t),
                bit_commitments.len() == i,
                forall|t: int| 0 <= t < i ==> (#[trigger] bit_commitments[t]).wf(),
                forall|t: int|
                    0 <= t < i ==> (#[trigger] bit_commitments[t])@ == commit_spec(
                        bit_of(value, t),
                        rands[t],
                        a,
                    ),
            decreases BITS - i,
        {
            assert(bit_randomness[i as int].r.elements.len() == L);
            let c = LatticeCommitment::commit(bits[i] as u64, &bit_randomness[i], matrix);
            bit_commitments.push(c);
            i += 1;
        }
        assert forall|t: int| 0 <= t < bit_commitments.len() implies (
        #[trigger] bit_commitments[t]).c.elements.len() > 0 by {
            assert(bit_commitments[t].wf());
        }
        let _challenge = LatticeRangeProof::challenge(&bit_commitments, block_hash);
        let mut bit_proofs: Vec<BitProof> = Vec::new();
        let mut j: usize = 0;
        while j < BITS
            invariant
                j <= BITS,
                bit_randomness.len() == BITS,
                rands == Seq::new(BITS as nat, |t: int| bit_randomness[t]@),
                forall|t: int| 0 <= t < BITS ==> #[trigger] bits[t] as int == bit_of(value, t),
                bit_commitments.len() == BITS,
                forall|t: int|
                    0 <= t < BITS ==> (#[trigger] bit_commitments[t])@ == commit_spec(
                        bit_of(value, t),
                        rands[t],
                        a,
                    ),
                bit_proofs.len() == j,
                forall|t: int|
                    0 <= t < j ==> (#[trigger] bit_proofs[t])@ == bit_proof_of(
                        bit_of(value, t),
                        rands[t],
                        a,
                    ),
            decreases BITS - j,
        {
            let opening = BitProof {
                commitment: bit_commitments[j].clone(),
                response_r: bit_randomness[j].clone(),
                response_b: bits[j],
            };
            assert(opening@ == bit_proof_of(bit_of(value, j as int), rands[j as int], a));
            bit_proofs.push(opening);
            j += 1;
        }
        let rp = LatticeRangeProof { bit_commitments, bit_proofs };
        proof {
            let want = range_proof_of(value, rands, a);
            assert(rp@.bit_commitments =~= want.bit_commitments);
            assert(rp@.bit_proofs =~= want.bit_proofs);
            lemma_range_proof_verifies(value, rands, a);
        }
        rp
    }

    /// Proves that `value` lies in `[0, 2^64)`, with fresh randomness for
    /// every bit.
    pub fn prove(
        value: u64,
        _randomness: &LatticeRandVec,
        _commitment: &LatticeCommitment,
        matrix: &CommitmentMatrix,
        rng: &mut rand::rngs::ThreadRng,
        block_hash: &[u8; 64],
    ) -> (rp: Self)
        requires
            matrix.wf(),
        ensures
            range_proof_accepts(rp@, matrix@),
            opens_value(rp@, value),
    {
        let mut bit_randomness: Vec<LatticeRandVec> = Vec::new();
        let mut i: usize = 0;
        while i < BITS
            invariant
                i <= BITS,
                bit_randomness.len() == i,
                forall|t: int| 0 <= t < i ==> (#[trigger] bit_randomness[t]).r.elements.len() == L,
            decreases BITS - i,
        {
            let r = LatticeRandVec::random(rng);
            bit_randomness.push(r);
            i += 1;
        }
        LatticeRangeProof::prove_with(value, &bit_randomness, matrix, block_hash)
    }

    /// Checks the proof: exactly `BITS` bit commitments and `BITS` bit
    /// proofs, and every bit proof accepted.
    pub fn verify(
        &self,
        _commitment: &LatticeCommitment,
        matrix: &CommitmentMatrix,
        _block_hash: &[u8; 64],
    ) -> (ok: bool)
        requires
            matrix.wf(),
        ensures
            ok == range_proof_accepts(self@, matrix@),
    {
        if self.bit_commitments.len() != BITS || self.bit_proofs.len() != BITS {
            return false;
        }
        let mut i: usize = 0;
        while i < BITS
            invariant
                i <= BITS,
                matrix.wf(),
                self.bit_commitments.len() == BITS,
                self.bit_proofs.len() == BITS,
                forall|t: int| 0 <= t < i ==> bit_proof_accepts(#[trigger] self@.bit_proofs[t], matrix@),
            decreases BITS - i,
        {
            if !self.bit_proofs[i].verify(matrix) {
                assert(!bit_proof_accepts(self@.bit_proofs[i as int], matrix@));
                return false;
            }
            assert(self@.bit_proofs[i as int] == self.bit_proofs[i as int]@);
            i += 1;
        }
        true
    }
}

/// The compression level of range proofs.
pub const COMPRESSION_LEVEL: i32 = 6;

/// The range proof that a compressed byte string stands for: what decodes
/// from its decompressed content.
pub open spec fn decompressed_proof(compressed: Seq<u8>) -> Option<RangeProofView> {
    match zstd_content(compressed) {
        Some(raw) => decode_range_proof(raw),
        None => None,
    }
}

impl LatticeRangeProof {
    /// Tells whether every count in the proof fits its 32-bit prefix on the
    /// wire.
    pub fn fits_wire(&self) -> (ok: bool)
        ensures
            ok == range_proof_fits(self@),
    {
        if self.bit_commitments.len() > u32::MAX as usize || self.bit_proofs.len()
            > u32::MAX as usize {
            return false;
        }
        let mut i: usize = 0;
        while i < self.bit_commitments.len()
            invariant
                i <= self.bit_commitments.len(),
                forall|t: int|
                    0 <= t < i ==> crate::codec::poly_vec_fits(#[trigger] self@.bit_commitments[t]),
            decreases self.bit_commitments.len() - i,
        {
            if self.bit_commitments[i].c.elements.len() > u32::MAX as usize {
                assert(!crate::codec::poly_vec_fits(self@.bit_commitments[i as int]));
                return false;
            }
            assert(self@.bit_commitments[i as int] == self.bit_commitments[i as int]@);
            assert(crate::codec::poly_vec_fits(self@.bit_commitments[i as int]));
            i += 1;
        }
        let mut j: usize = 0;
        while j < self.bit_proofs.len()
            invariant
                j <= self.bit_proofs.len(),
                forall|t: int|
                    0 <= t < j ==> crate::codec::bit_proof_fits(#[trigger] self@.bit_proofs[t]),
            decreases self.bit_proofs.len() - j,
        {
            let bp = &self.bit_proofs[j];
            if bp.commitment.c.elements.len() > u32::MAX as usize || bp.response_r.r.elements.len()
                > u32::MAX as usize {
                assert(!crate::codec::bit_proof_fits(self@.bit_proofs[j as int]));
                return false;
            }
            assert(self@.bit_proofs[j as int] == bp@);
            assert(crate::codec::bit_proof_fits(self@.bit_proofs[j as int]));
            j += 1;
        }
        true
    }

    /// The canonical bytes of the proof.
    pub fn to_bytes(&self) -> (bytes: Vec<u8>)
        requires
            range_proof_fits(self@),
        ensures
            bytes@ == enc_range_proof(self@),
            decode_range_proof(bytes@) == Some(self@),
    {
        let mut bytes: Vec<u8> = Vec::new();
        put_range_proof(&mut bytes, self);
        proof {
            assert(bytes@ =~= enc_range_proof(self@));
            lemma_range_proof_decodes(self@);
        }
        bytes
    }

    /// Decodes a proof from its canonical bytes: succeeds exactly where the
    /// whole byte string is the layout of a proof, and returns that proof.
    pub fn from_bytes(bytes: &[u8]) -> (res: Result<Self, CryptoError>)
        ensures
            match decode_range_proof(bytes@) {
                Some(p) => res matches Ok(rp) && rp@ == p,
                None => res matches Err(CryptoError::SerializationError(msg)) && msg@
                    == "Malformed range proof"@,
            },
    {
        assert(bytes@.skip(0) =~= bytes@);
        match get_range_proof(bytes, 0) {
            Some((rp, end)) => {
                if end == bytes.len() {
                    Ok(rp)
                } else {
                    Err(CryptoError::SerializationError("Malformed range proof".to_string()))
                }
            },
            None => Err(CryptoError::SerializationError("Malformed range proof".to_string())),
        }
    }

    /// The result of compression, given what the compressor made of the
    /// canonical bytes: its frame, or a compression error with its
    /// complaint.
    pub fn compressed(outcome: Result<Vec<u8>, String>) -> (res: Result<Vec<u8>, CryptoError>)
        ensures
            match outcome {
                Ok(frame) => res == Ok::<Vec<u8>, CryptoError>(frame),
                Err(why) => res == Err::<Vec<u8>, CryptoError>(CryptoError::CompressionError(why)),
            },
    {
        match outcome {
            Ok(frame) => Ok(frame),
            Err(why) => Err(CryptoError::CompressionError(why)),
        }
    }

    /// The result of decompression, given what the decompressor made of
    /// the bytes: the proof that its output decodes to, or a serialization
    /// error where it complained or its output is no proof.
    pub fn decompressed(outcome: Result<Vec<u8>, String>) -> (res: Result<Self, CryptoError>)
        ensures
            match outcome {
                Ok(raw) => match decode_range_proof(raw@) {
                    Some(p) => res matches Ok(rp) && rp@ == p,
                    None => res matches Err(CryptoError::SerializationError(msg)) && msg@
                        == "Malformed range proof"@,
                },
                Err(why) => res == Err::<Self, CryptoError>(CryptoError::SerializationError(why)),
            },
    {
        match outcome {
            Ok(raw) => LatticeRangeProof::from_bytes(raw.as_slice()),
            Err(why) => Err(CryptoError::SerializationError(why)),
        }
    }

    /// Canonical bytes, then Zstandard at level 6. A proof too large for the
    /// canonical layout is refused as a serialization error; a failure of
    /// the compressor is passed on as a compression error.
    pub fn compress(&self) -> (res: Result<Vec<u8>, CryptoError>)
        ensures
            !range_proof_fits(self@) ==> res matches Err(CryptoError::SerializationError(_)),
            range_proof_fits(self@) ==> match res {
                Ok(compressed) => zstd_content(compressed@) == Some(enc_range_proof(self@))
                    && decompressed_proof(compressed@) == Some(self@),
                Err(e) => e is CompressionError,
            },
    {
        if !self.fits_wire() {
            return Err(CryptoError::SerializationError("Range proof too large".to_string()));
        }
        let serialized = self.to_bytes();
        let outcome = match zstd_encode(serialized.as_slice(), COMPRESSION_LEVEL) {
            Ok(frame) => Ok(frame),
            Err(e) => Err(io_error_text(&e)),
        };
        LatticeRangeProof::compressed(outcome)
    }

    /// Zstandard decompression, then canonical decoding; a failure at either
    /// stage is a serialization error.
    pub fn decompress(compressed: &[u8]) -> (res: Result<Self, CryptoError>)
        ensures
            match decompressed_proof(compressed@) {
                Some(p) => res matches Ok(rp) && rp@ == p,
                None => res matches Err(CryptoError::SerializationError(_)),
            },
    {
        let outcome = match zstd_decode(compressed) {
            Ok(raw) => Ok(raw),
            Err(e) => Err(io_error_text(&e)),
        };
        LatticeRangeProof::decompressed(outcome)
    }
}

/// Decompressing what compression returned gives the proof back, so the
/// verifier answers the same on both.
pub proof fn lemma_compress_round_trip(
    rp: LatticeRangeProof,
    compressed: Seq<u8>,
    matrix: CommitmentMatrix,
)
    requires
        range_proof_fits(rp@),
        zstd_content(compressed) == Some(enc_range_proof(rp@)),
    ensures
        decompressed_proof(compressed) == Some(rp@),
        range_proof_accepts(decompressed_proof(compressed)->Some_0, matrix@) == range_proof_accepts(
            rp@,
            matrix@,
        ),
{
    lemma_range_proof_decodes(rp@);
}

/// Committing to a bit and opening it is always accepted.
pub proof fn lemma_bit_commitment_verifies(bit: u8, r: LatticeRandVec, matrix: CommitmentMatrix)
    requires
        bit <= 1,
        r.r.elements.len() == L,
        matrix.wf(),
    ensures
        bit_proof_accepts(bit_proof_of(bit as int, r@, matrix@), matrix@),
{
}

/// The proof built for any value, under any randomness of the right shape,
/// is accepted.
pub proof fn lemma_range_proof_verifies(
    value: u64,
    rands: Seq<Seq<Seq<int>>>,
    a: Seq<Seq<Seq<int>>>,
)
    requires
        rands.len() == BITS,
        forall|i: int| 0 <= i < BITS ==> (#[trigger] rands[i]).len() == L,
    ensures
        range_proof_accepts(range_proof_of(value, rands, a), a),
        opens_value(range_proof_of(value, rands, a), value),
{
    let p = range_proof_of(value, rands, a);
    assert forall|i: int| 0 <= i < BITS implies bit_proof_accepts(#[trigger] p.bit_proofs[i], a) by {
        let shift = i as u64;
        assert(((value >> shift) & 1) <= 1) by (bit_vector);
        assert(rands[i].len() == L);
    }
}

/// The mathematical content of an `AmountLeqProof`.
pub struct AmountProofView {
    pub diff_commitment: Seq<Seq<int>>,
    pub range_proof: RangeProofView,
}

/// An amount proof is accepted when its inner range proof is.
pub open spec fn amount_proof_accepts(p: AmountProofView, a: Seq<Seq<Seq<int>>>) -> bool {
    range_proof_accepts(p.range_proof, a)
}

/// A proof that a hidden amount does not exceed a public maximum: a
/// commitment to the difference and a range proof of the difference.
#[derive(Debug)]
pub struct AmountLeqProof {
    pub diff_commitment: LatticeCommitment,
    pub range_proof: LatticeRangeProof,
}

impl View for AmountLeqProof {
    type V = AmountProofView;

    open spec fn view(&self) -> AmountProofView {
        AmountProofView { diff_commitment: self.diff_commitment@, range_proof: self.range_proof@ }
    }
}

impl Clone for AmountLeqProof {
    fn clone(&self) -> (copy: Self)
        ensures
            copy@ == self@,
    {
        AmountLeqProof {
            diff_commitment: self.diff_commitment.clone(),
            range_proof: self.range_proof.clone(),
        }
    }
}

impl AmountLeqProof {
    /// Builds the proof from given randomness, or nothing where `actual`
    /// exceeds `max`: commits to `max - actual` under `diff_rand` and proves
    /// the difference in range under `bit_randomness`.
    pub fn prove_with(
        actual: u64,
        max: u64,
        diff_rand: &LatticeRandVec,
        bit_randomness: &Vec<LatticeRandVec>,
        matrix: &CommitmentMatrix,
        block_hash: &[u8; 64],
    ) -> (res: Option<Self>)
        requires
            matrix.wf(),
            diff_rand.r.elements.len() == L,
            bit_randomness.len() == BITS,
            forall|i: int| 0 <= i < BITS ==> (#[trigger] bit_randomness[i]).r.elements.len() == L,
        ensures
            res is None <==> actual > max,
            res matches Some(p) ==> p@ == (AmountProofView {
                diff_commitment: commit_spec(max - actual, diff_rand@, matrix@),
                range_proof: range_proof_of(
                    (max - actual) as u64,
                    Seq::new(BITS as nat, |i: int| bit_randomness[i]@),
                    matrix@,
                ),
            }) && amount_proof_accepts(p@, matrix@),
    {
        if actual > max {
            return None;
        }
        let diff: u64 = max - actual;
        let diff_commitment = LatticeCommitment::commit(diff, diff_rand, matrix);
        let range_proof = LatticeRangeProof::prove_with(diff, bit_randomness, matrix, block_hash);
        Some(AmountLeqProof { diff_commitment, range_proof })
    }

    /// Proves `actual <= max` with fresh randomness, or returns nothing
    /// where `actual` exceeds `max`.
    pub fn prove(
        actual: u64,
        max: u64,
        _actual_rand: &LatticeRandVec,
        _actual_commitment: &LatticeCommitment,
        matrix: &CommitmentMatrix,
        rng: &mut rand::rngs::ThreadRng,
        block_hash: &[u8; 64],
    ) -> (res: Option<Self>)
        requires
            matrix.wf(),
        ensures
            res is None <==> actual > max,
            res matches Some(p) ==> {
                &&& amount_proof_accepts(p@, matrix@)
                &&& opens_value(p@.range_proof, (max - actual) as u64)
                &&& exists|r: Seq<Seq<int>>|
                    r.len() == L && p@.diff_commitment == #[trigger] commit_spec(
                        max - actual,
                        r,
                        matrix@,
                    )
            },
    {
        if actual > max {
            return None;
        }
        let diff_rand = LatticeRandVec::random(rng);
        let mut bit_randomness: Vec<LatticeRandVec> = Vec::new();
        let mut i: usize = 0;
        while i < BITS
            invariant
                i <= BITS,
                bit_randomness.len() == i,
                forall|t: int| 0 <= t < i ==> (#[trigger] bit_randomness[t]).r.elements.len() == L,
            decreases BITS - i,
        {
            let r = LatticeRandVec::random(rng);
            bit_randomness.push(r);
            i += 1;
        }
        let res = AmountLeqProof::prove_with(
            actual,
            max,
            &diff_rand,
            &bit_randomness,
            matrix,
            block_hash,
        );
        proof {
            let p = res->Some_0;
            assert(p@.diff_commitment == commit_spec(max - actual, diff_rand@, matrix@));
            assert(diff_rand@.len() == L);
        }
        res
    }

    /// Re-checks the inner range proof.
    pub fn verify(
        &self,
        _actual_commitment: &LatticeCommitment,
        _max: u64,
        matrix: &CommitmentMatrix,
        block_hash: &[u8; 64],
    ) -> (ok: bool)
        requires
            matrix.wf(),
        ensures
            ok == amount_proof_accepts(self@, matrix@),
    {
        self.range_proof.verify(&self.diff_commitment, matrix, block_hash)
    }
}

} // verus!
