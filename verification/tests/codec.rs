use xcqa_chain::error::CryptoError;
use xcqa_chain::lattice::commitment::{CommitmentMatrix, LatticeCommitment, LatticeRandVec};
use xcqa_chain::lattice::range_proof::{BitProof, LatticeRangeProof};
use xcqa_chain::lattice::ring::{RingElement, RingVector};

fn small_proof() -> LatticeRangeProof {
    let mut e = RingElement::zero();
    e.coeffs[0] = 0x01020304;
    e.coeffs[255] = u32::MAX;
    let c = LatticeCommitment { c: RingVector { elements: vec![e.clone()] } };
    let r = LatticeRandVec { r: RingVector { elements: vec![] } };
    LatticeRangeProof {
        bit_commitments: vec![c.clone()],
        bit_proofs: vec![BitProof { commitment: c, response_r: r, response_b: 7 }],
    }
}

fn is_malformed(res: Result<LatticeRangeProof, CryptoError>) -> bool {
    matches!(res, Err(CryptoError::SerializationError(why)) if why == "Malformed range proof")
}

#[test]
fn range_proof_layout() {
    let bytes = small_proof().to_bytes();
    // count, one commitment (count + one element), count, one bit proof
    assert_eq!(bytes.len(), 4 + (4 + 1024) + 4 + (4 + 1024) + 4 + 1);
    assert_eq!(&bytes[..4], &[1, 0, 0, 0]);
    assert_eq!(&bytes[4..8], &[1, 0, 0, 0]);
    assert_eq!(&bytes[8..12], &[4, 3, 2, 1]);
    assert_eq!(&bytes[8 + 1020..8 + 1024], &[0xff; 4]);
    assert_eq!(&bytes[1032..1036], &[1, 0, 0, 0]);
    assert_eq!(bytes[bytes.len() - 5..], [0, 0, 0, 0, 7]);
}

#[test]
fn range_proof_round_trips() {
    let proof = small_proof();
    let back = LatticeRangeProof::from_bytes(&proof.to_bytes()).unwrap();
    assert_eq!(back.bit_commitments.len(), 1);
    assert_eq!(back.bit_commitments[0].c.elements[0].coeffs, proof.bit_commitments[0].c.elements[0].coeffs);
    assert_eq!(back.bit_proofs[0].response_b, 7);
    assert!(back.bit_proofs[0].response_r.r.elements.is_empty());
    assert_eq!(back.to_bytes(), proof.to_bytes());
}

#[test]
fn full_range_proof_round_trips() {
    let mut rng = rand::rng();
    let matrix = CommitmentMatrix::from_genesis(&[0u8; 64]);
    let rand = LatticeRandVec::random(&mut rng);
    let commitment = LatticeCommitment::commit(77, &rand, &matrix);
    let proof = LatticeRangeProof::prove(77, &rand, &commitment, &matrix, &mut rng, &[0u8; 64]);
    assert!(proof.fits_wire());
    let bytes = proof.to_bytes();
    assert_eq!(bytes.len(), 4 + 64 * (4 + 4 * 1024) + 4 + 64 * (2 * (4 + 4 * 1024) + 1));
    let back = LatticeRangeProof::from_bytes(&bytes).unwrap();
    assert_eq!(back.to_bytes(), bytes);
    assert!(back.verify(&commitment, &matrix, &[0u8; 64]));
}

#[test]
fn malformed_range_proofs_are_refused() {
    let bytes = small_proof().to_bytes();
    assert!(is_malformed(LatticeRangeProof::from_bytes(&[])));
    assert!(is_malformed(LatticeRangeProof::from_bytes(&bytes[..bytes.len() - 1])));
    let mut longer = bytes.clone();
    longer.push(0);
    assert!(is_malformed(LatticeRangeProof::from_bytes(&longer)));
    let mut inflated = bytes.clone();
    inflated[..4].copy_from_slice(&u32::MAX.to_le_bytes());
    assert!(is_malformed(LatticeRangeProof::from_bytes(&inflated)));
    assert!(LatticeRangeProof::from_bytes(&[0u8; 8]).is_ok());
}

#[test]
fn compressor_outcomes_map_to_results() {
    assert_eq!(LatticeRangeProof::compressed(Ok(vec![1, 2, 3])).unwrap(), vec![1, 2, 3]);
    assert!(matches!(
        LatticeRangeProof::compressed(Err("full".to_string())),
        Err(CryptoError::CompressionError(why)) if why == "full"
    ));
    let raw = small_proof().to_bytes();
    let back = LatticeRangeProof::decompressed(Ok(raw.clone())).unwrap();
    assert_eq!(back.to_bytes(), raw);
    assert!(is_malformed(LatticeRangeProof::decompressed(Ok(vec![9]))));
    assert!(matches!(
        LatticeRangeProof::decompressed(Err("bad frame".to_string())),
        Err(CryptoError::SerializationError(why)) if why == "bad frame"
    ));
}
