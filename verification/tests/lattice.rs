use xcqa_chain::lattice::commitment::{CommitmentMatrix, LatticeCommitment, LatticeRandVec};
use xcqa_chain::lattice::params::{BITS, K, L, N, Q};
use xcqa_chain::lattice::range_proof::{
    commitments_equal, decompose_bits, AmountLeqProof, BitProof, LatticeRangeProof,
};
use xcqa_chain::lattice::ring::{RingElement, RingVector};
use xcqa_chain::hash::blake3_512;
use xcqa_chain::error::CryptoError;

fn element(seed: u32) -> RingElement {
    let mut e = RingElement::zero();
    let mut x = seed;
    for c in e.coeffs.iter_mut() {
        x = x.wrapping_mul(1664525).wrapping_add(1013904223);
        *c = x % Q;
    }
    e
}

fn one() -> RingElement {
    let mut e = RingElement::zero();
    e.coeffs[0] = 1;
    e
}

fn rand_vec(seed: u32) -> LatticeRandVec {
    let mut elements = Vec::new();
    for j in 0..L {
        let mut e = element(seed + j as u32);
        for c in e.coeffs.iter_mut() {
            *c %= 256;
        }
        elements.push(e);
    }
    LatticeRandVec { r: RingVector { elements } }
}

#[test]
fn test_range_proof_basic() {
    let mut rng = rand::rng();
    let genesis_hash = [0u8; 64];
    let matrix = CommitmentMatrix::from_genesis(&genesis_hash);

    let value = 12345u64;
    let rand = LatticeRandVec::random(&mut rng);
    let commitment = LatticeCommitment::commit(value, &rand, &matrix);

    let block_hash = [1u8; 64];
    let proof = LatticeRangeProof::prove(value, &rand, &commitment, &matrix, &mut rng, &block_hash);

    assert!(proof.verify(&commitment, &matrix, &block_hash));
}

#[test]
fn test_amount_leq_proof() {
    let mut rng = rand::rng();
    let genesis_hash = [0u8; 64];
    let matrix = CommitmentMatrix::from_genesis(&genesis_hash);

    let actual = 100u64;
    let max = 200u64;
    let rand = LatticeRandVec::random(&mut rng);
    let commitment = LatticeCommitment::commit(actual, &rand, &matrix);

    let block_hash = [2u8; 64];
    let proof = AmountLeqProof::prove(actual, max, &rand, &commitment, &matrix, &mut rng, &block_hash);

    assert!(proof.is_some());
    assert!(proof.unwrap().verify(&commitment, max, &matrix, &block_hash));
}

#[test]
fn test_compress_decompress() {
    let mut rng = rand::rng();
    let genesis_hash = [0u8; 64];
    let matrix = CommitmentMatrix::from_genesis(&genesis_hash);

    let value = 12345u64;
    let rand = LatticeRandVec::random(&mut rng);
    let commitment = LatticeCommitment::commit(value, &rand, &matrix);

    let block_hash = [1u8; 64];
    let proof = LatticeRangeProof::prove(value, &rand, &commitment, &matrix, &mut rng, &block_hash);

    let compressed = proof.compress().unwrap();
    let decompressed = LatticeRangeProof::decompress(&compressed).unwrap();

    assert!(decompressed.verify(&commitment, &matrix, &block_hash));
}

#[test]
fn ring_addition_commutes() {
    let a = element(1);
    let b = element(2);
    assert_eq!(a.add(&b).coeffs, b.add(&a).coeffs);
}

#[test]
fn ring_subtraction_undoes_addition() {
    let a = element(3);
    let b = element(4);
    assert_eq!(a.add(&b).sub(&b).coeffs, a.coeffs);
}

#[test]
fn ring_multiplication_by_one() {
    let a = element(5);
    assert_eq!(a.mul(&one()).coeffs, a.coeffs);
    assert_eq!(one().mul(&a).coeffs, a.coeffs);
}

#[test]
fn ring_multiplication_commutes_and_associates() {
    let a = element(6);
    let b = element(7);
    let c = element(8);
    assert_eq!(a.mul(&b).coeffs, b.mul(&a).coeffs);
    assert_eq!(a.mul(&b).mul(&c).coeffs, a.mul(&b.mul(&c)).coeffs);
}

#[test]
fn ring_add_and_sub_wrap_at_the_modulus() {
    let mut a = RingElement::zero();
    let mut b = RingElement::zero();
    a.coeffs[0] = Q - 1;
    b.coeffs[0] = 2;
    a.coeffs[1] = 1;
    b.coeffs[1] = 3;
    let sum = a.add(&b);
    assert_eq!(sum.coeffs[0], 1);
    assert_eq!(sum.coeffs[1], 4);
    let diff = a.sub(&b);
    assert_eq!(diff.coeffs[0], Q - 3);
    assert_eq!(diff.coeffs[1], Q - 2);
}

#[test]
fn ring_scalar_mul_reduces_the_scalar() {
    let mut a = RingElement::zero();
    a.coeffs[0] = 3;
    a.coeffs[7] = Q - 1;
    let scaled = a.scalar_mul(Q as u64 + 2);
    assert_eq!(scaled.coeffs[0], 6);
    assert_eq!(scaled.coeffs[7], Q - 2);
    let big = a.scalar_mul(u64::MAX);
    let s = (u64::MAX % Q as u64) as u128;
    assert_eq!(big.coeffs[0] as u128, (3 * s) % Q as u128);
}

#[test]
fn ring_mul_negacyclic_wraparound() {
    let mut a = RingElement::zero();
    let mut b = RingElement::zero();
    a.coeffs[200] = 5;
    b.coeffs[100] = 7;
    let c = a.mul(&b);
    // X^300 = -X^44
    assert_eq!(c.coeffs[44], Q - 35);
    assert!(c.coeffs.iter().enumerate().all(|(i, &x)| i == 44 || x == 0));
}

#[test]
fn ring_reduced_check() {
    let mut a = RingElement::zero();
    assert!(a.is_reduced());
    a.coeffs[9] = Q;
    assert!(!a.is_reduced());
    let v = RingVector { elements: vec![RingElement::zero(), a] };
    assert!(!v.is_reduced());
}

#[test]
fn ring_vector_add_sub() {
    let a = RingVector { elements: vec![element(1), element(2)] };
    let b = RingVector { elements: vec![element(3), element(4)] };
    let sum = a.add(&b);
    assert_eq!(sum.elements.len(), 2);
    assert_eq!(sum.elements[1].coeffs, element(2).add(&element(4)).coeffs);
    let back = sum.sub(&b);
    assert_eq!(back.elements[0].coeffs, a.elements[0].coeffs);
    assert_eq!(back.elements[1].coeffs, a.elements[1].coeffs);
}

#[test]
fn matrix_follows_the_seed_formula() {
    let seed = blake3_512(b"XCQA-CHAIN-COMMIT-MATRIX-V1");
    let matrix = CommitmentMatrix::from_genesis(&[0u8; 64]);
    assert!(matrix.is_well_formed());
    assert_eq!(matrix.a.len(), K);
    for i in 0..K {
        assert_eq!(matrix.a[i].elements.len(), L);
        for j in 0..L {
            for k in 0..N {
                let idx = (i * L * N + j * N + k) % 64;
                assert_eq!(matrix.a[i].elements[j].coeffs[k], seed[idx] as u32);
            }
        }
    }
}

#[test]
fn matrix_ignores_the_genesis_hash() {
    let a = CommitmentMatrix::from_genesis(&[0u8; 64]);
    let b = CommitmentMatrix::from_genesis(&[9u8; 64]);
    for i in 0..K {
        for j in 0..L {
            assert_eq!(a.a[i].elements[j].coeffs, b.a[i].elements[j].coeffs);
        }
    }
}

#[test]
fn matrix_from_short_seed_reads_cyclically() {
    let matrix = CommitmentMatrix::from_seed(&[1, 2, 3]);
    assert_eq!(matrix.a[0].elements[0].coeffs[0], 1);
    assert_eq!(matrix.a[0].elements[0].coeffs[1], 2);
    assert_eq!(matrix.a[0].elements[0].coeffs[2], 3);
    assert_eq!(matrix.a[0].elements[0].coeffs[3], 1);
    // position 1*4*256 + 2*256 + 5 = 1541, and 1541 mod 3 = 2
    assert_eq!(matrix.a[1].elements[2].coeffs[5], 3);
}

#[test]
fn commit_matches_the_formula() {
    let matrix = CommitmentMatrix::from_genesis(&[0u8; 64]);
    let r = rand_vec(11);
    let value = 3 * Q as u64 + 17;
    let com = LatticeCommitment::commit(value, &r, &matrix);
    assert_eq!(com.c.elements.len(), K);
    for i in 0..K {
        for k in 0..N {
            let mut acc: u64 = 0;
            for j in 0..L {
                acc += matrix.a[i].elements[j].coeffs[k] as u64 * r.r.elements[j].coeffs[0] as u64;
            }
            if i == 0 && k == 0 {
                acc += 17;
            }
            assert_eq!(com.c.elements[i].coeffs[k] as u64, acc % Q as u64);
        }
    }
}

#[test]
fn commitments_are_homomorphic() {
    let matrix = CommitmentMatrix::from_genesis(&[0u8; 64]);
    let r1 = rand_vec(21);
    let r2 = rand_vec(22);
    let v1 = Q as u64 - 5;
    let v2 = 12u64;
    let lhs = LatticeCommitment::commit(v1, &r1, &matrix)
        .add(&LatticeCommitment::commit(v2, &r2, &matrix));
    let r12 = LatticeRandVec { r: r1.r.add(&r2.r) };
    let rhs = LatticeCommitment::commit((v1 + v2) % Q as u64, &r12, &matrix);
    assert!(commitments_equal(&lhs, &rhs));
    let back = lhs.sub(&LatticeCommitment::commit(v2, &r2, &matrix));
    assert!(commitments_equal(&back, &LatticeCommitment::commit(v1, &r1, &matrix)));
}

#[test]
fn committed_bits_open() {
    let matrix = CommitmentMatrix::from_genesis(&[0u8; 64]);
    for bit in 0u8..=1 {
        let r = rand_vec(30 + bit as u32);
        let opening = BitProof {
            commitment: LatticeCommitment::commit(bit as u64, &r, &matrix),
            response_r: r,
            response_b: bit,
        };
        assert!(opening.verify(&matrix));
    }
}

#[test]
fn bit_proof_rejects_wrong_openings() {
    let matrix = CommitmentMatrix::from_genesis(&[0u8; 64]);
    let r = rand_vec(40);
    let good = BitProof {
        commitment: LatticeCommitment::commit(1, &r, &matrix),
        response_r: r.clone(),
        response_b: 1,
    };
    let mut flipped = good.clone();
    flipped.response_b = 0;
    assert!(!flipped.verify(&matrix));
    let mut short = good.clone();
    short.response_r.r.elements.pop();
    assert!(!short.verify(&matrix));
    let mut truncated = good.clone();
    truncated.commitment.c.elements.pop();
    assert!(!truncated.verify(&matrix));
    let mut empty = good.clone();
    empty.commitment.c.elements.clear();
    assert!(!empty.verify(&matrix));
}

#[test]
fn commitments_equal_compares_everything() {
    let matrix = CommitmentMatrix::from_genesis(&[0u8; 64]);
    let a = LatticeCommitment::commit(5, &rand_vec(1), &matrix);
    let mut b = a.clone();
    assert!(commitments_equal(&a, &b));
    b.c.elements[3].coeffs[255] ^= 1;
    assert!(!commitments_equal(&a, &b));
    let mut shorter = a.clone();
    shorter.c.elements.pop();
    assert!(!commitments_equal(&a, &shorter));
    assert!(!commitments_equal(&shorter, &a));
}

#[test]
fn bits_are_little_endian() {
    let bits = decompose_bits(0b1011);
    assert_eq!(&bits[..5], &[1, 1, 0, 1, 0]);
    assert!(bits[5..].iter().all(|&b| b == 0));
    let top = decompose_bits(1u64 << 63);
    assert_eq!(top[63], 1);
    assert!(top[..63].iter().all(|&b| b == 0));
    assert!(decompose_bits(u64::MAX).iter().all(|&b| b == 1));
    assert!(decompose_bits(0).iter().all(|&b| b == 0));
}

#[test]
fn range_proof_positive_and_tampered() {
    let mut rng = rand::rng();
    let matrix = CommitmentMatrix::from_genesis(&[0u8; 64]);
    let value = 12345u64;
    let rand = LatticeRandVec::random(&mut rng);
    let commitment = LatticeCommitment::commit(value, &rand, &matrix);
    let block_hash = [1u8; 64];
    let mut proof =
        LatticeRangeProof::prove(value, &rand, &commitment, &matrix, &mut rng, &block_hash);
    assert!(proof.verify(&commitment, &matrix, &block_hash));
    assert_eq!(proof.bit_commitments.len(), BITS);
    assert_eq!(proof.bit_proofs.len(), BITS);
    for i in 0..BITS {
        assert_eq!(proof.bit_proofs[i].response_b as u64, (value >> i) & 1);
    }
    proof.bit_proofs[0].response_b = 2;
    assert!(!proof.verify(&commitment, &matrix, &block_hash));
}

#[test]
fn range_proof_verifies_at_the_edges() {
    let mut rng = rand::rng();
    let matrix = CommitmentMatrix::from_genesis(&[0u8; 64]);
    let block_hash = [3u8; 64];
    for value in [0u64, 1, u64::MAX, 1u64 << 63] {
        let rand = LatticeRandVec::random(&mut rng);
        let commitment = LatticeCommitment::commit(value, &rand, &matrix);
        let proof =
            LatticeRangeProof::prove(value, &rand, &commitment, &matrix, &mut rng, &block_hash);
        assert!(proof.verify(&commitment, &matrix, &block_hash));
    }
}

#[test]
fn range_proof_needs_exactly_64_entries() {
    let mut rng = rand::rng();
    let matrix = CommitmentMatrix::from_genesis(&[0u8; 64]);
    let block_hash = [1u8; 64];
    let rand = LatticeRandVec::random(&mut rng);
    let commitment = LatticeCommitment::commit(7, &rand, &matrix);
    let proof = LatticeRangeProof::prove(7, &rand, &commitment, &matrix, &mut rng, &block_hash);
    let mut fewer_proofs = proof.clone();
    fewer_proofs.bit_proofs.pop();
    assert!(!fewer_proofs.verify(&commitment, &matrix, &block_hash));
    let mut fewer_commitments = proof.clone();
    fewer_commitments.bit_commitments.pop();
    assert!(!fewer_commitments.verify(&commitment, &matrix, &block_hash));
    let mut more = proof.clone();
    more.bit_proofs.push(proof.bit_proofs[0].clone());
    assert!(!more.verify(&commitment, &matrix, &block_hash));
}

#[test]
fn prove_with_is_determined_by_its_randomness() {
    let matrix = CommitmentMatrix::from_genesis(&[0u8; 64]);
    let rands: Vec<LatticeRandVec> = (0..BITS as u32).map(|i| rand_vec(100 + 7 * i)).collect();
    let block_hash = [4u8; 64];
    let a = LatticeRangeProof::prove_with(0xDEADBEEF, &rands, &matrix, &block_hash);
    let b = LatticeRangeProof::prove_with(0xDEADBEEF, &rands, &matrix, &block_hash);
    assert_eq!(a.to_bytes(), b.to_bytes());
    for i in 0..BITS {
        let bit = (0xDEADBEEFu64 >> i) & 1;
        let expected = LatticeCommitment::commit(bit, &rands[i], &matrix);
        assert!(commitments_equal(&a.bit_commitments[i], &expected));
        assert!(commitments_equal(&a.bit_proofs[i].commitment, &expected));
    }
}

#[test]
fn challenge_hashes_first_elements_and_context() {
    let matrix = CommitmentMatrix::from_genesis(&[0u8; 64]);
    let commitments = vec![
        LatticeCommitment::commit(1, &rand_vec(1), &matrix),
        LatticeCommitment::commit(0, &rand_vec(2), &matrix),
    ];
    let ctx = [5u8; 64];
    let mut input = Vec::new();
    for c in &commitments {
        for coeff in &c.c.elements[0].coeffs {
            input.extend_from_slice(&coeff.to_le_bytes());
        }
    }
    input.extend_from_slice(&ctx);
    assert_eq!(LatticeRangeProof::challenge(&commitments, &ctx), blake3_512(&input));
}

#[test]
fn amount_proof_refuses_excess() {
    let mut rng = rand::rng();
    let matrix = CommitmentMatrix::from_genesis(&[0u8; 64]);
    let rand = LatticeRandVec::random(&mut rng);
    let commitment = LatticeCommitment::commit(300, &rand, &matrix);
    let block_hash = [2u8; 64];
    let none = AmountLeqProof::prove(300, 200, &rand, &commitment, &matrix, &mut rng, &block_hash);
    assert!(none.is_none());
    let equal = AmountLeqProof::prove(200, 200, &rand, &commitment, &matrix, &mut rng, &block_hash);
    assert!(equal.unwrap().verify(&commitment, 200, &matrix, &block_hash));
}

#[test]
fn amount_proof_commits_to_the_difference() {
    let matrix = CommitmentMatrix::from_genesis(&[0u8; 64]);
    let diff_rand = rand_vec(77);
    let rands: Vec<LatticeRandVec> = (0..BITS as u32).map(|i| rand_vec(500 + i)).collect();
    let block_hash = [2u8; 64];
    let proof =
        AmountLeqProof::prove_with(100, 200, &diff_rand, &rands, &matrix, &block_hash).unwrap();
    let expected = LatticeCommitment::commit(100, &diff_rand, &matrix);
    assert!(commitments_equal(&proof.diff_commitment, &expected));
    for i in 0..BITS {
        assert_eq!(proof.range_proof.bit_proofs[i].response_b as u64, (100u64 >> i) & 1);
    }
    assert!(AmountLeqProof::prove_with(201, 200, &diff_rand, &rands, &matrix, &block_hash).is_none());
}

#[test]
fn random_vectors_are_small_and_fresh() {
    let mut rng = rand::rng();
    let a = LatticeRandVec::random(&mut rng);
    let b = LatticeRandVec::random(&mut rng);
    assert_eq!(a.r.elements.len(), L);
    assert!(a.r.elements.iter().all(|e| e.coeffs.iter().all(|&c| c < 256)));
    assert!(a.r.elements.iter().zip(&b.r.elements).any(|(x, y)| x.coeffs != y.coeffs));
}

#[test]
fn compression_round_trip_keeps_the_verdict() {
    let mut rng = rand::rng();
    let matrix = CommitmentMatrix::from_genesis(&[0u8; 64]);
    let block_hash = [1u8; 64];
    let rand = LatticeRandVec::random(&mut rng);
    let commitment = LatticeCommitment::commit(9, &rand, &matrix);
    let mut proof = LatticeRangeProof::prove(9, &rand, &commitment, &matrix, &mut rng, &block_hash);
    let back = LatticeRangeProof::decompress(&proof.compress().unwrap()).unwrap();
    assert_eq!(back.to_bytes(), proof.to_bytes());
    assert!(back.verify(&commitment, &matrix, &block_hash));
    proof.bit_proofs[5].response_b = 2;
    let bad = LatticeRangeProof::decompress(&proof.compress().unwrap()).unwrap();
    assert_eq!(bad.bit_proofs[5].response_b, 2);
    assert!(!bad.verify(&commitment, &matrix, &block_hash));
}

#[test]
fn compressed_bytes_are_a_zstd_frame() {
    let empty = LatticeRangeProof { bit_commitments: vec![], bit_proofs: vec![] };
    let raw = empty.to_bytes();
    assert_eq!(raw, vec![0u8; 8]);
    let compressed = empty.compress().unwrap();
    assert_eq!(&compressed[..4], &[0x28, 0xb5, 0x2f, 0xfd]);
    assert_ne!(compressed, raw);
    let back = LatticeRangeProof::decompress(&compressed).unwrap();
    assert!(back.bit_commitments.is_empty() && back.bit_proofs.is_empty());
}

#[test]
fn decompress_reports_both_stages() {
    let not_zstd = LatticeRangeProof::decompress(b"not a frame");
    assert!(matches!(not_zstd, Err(CryptoError::SerializationError(_))));
    let junk = zstd::encode_all(&b"\x01\x00\x00\x00"[..], 6).unwrap();
    let not_proof = LatticeRangeProof::decompress(&junk);
    assert!(matches!(not_proof, Err(CryptoError::SerializationError(_))));
}
