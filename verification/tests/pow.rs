use xcqa_chain::difficulty::{adjust_difficulty, check_difficulty};
use xcqa_chain::hash::{blake3_512, Hkdf};
use xcqa_chain::pow::{generate_epoch_pk, verify_pow_solution, XcqaPublicKey};

#[test]
fn test_generate_epoch_pk() {
    let prev_hash = [1u8; 64];
    let pk = generate_epoch_pk(&prev_hash, 100, 5, 8);
    assert_eq!(pk.data.len(), 32 * 8);
}

#[test]
fn test_verify_pow_solution() {
    let block_header = b"test block header";
    let xcqa_sig = b"test signature";
    let xcqa_nonce = [0u8; 32];
    let epoch_pk = XcqaPublicKey { data: vec![1u8; 256] };

    let result = verify_pow_solution(block_header, xcqa_sig, &xcqa_nonce, &epoch_pk, 0);
    assert!(result);
}

#[test]
fn epoch_key_is_deterministic() {
    let a = generate_epoch_pk(&[1u8; 64], 100, 5, 8);
    let b = generate_epoch_pk(&[1u8; 64], 100, 5, 8);
    assert_eq!(a.data.len(), 256);
    assert_eq!(a.data, b.data);
}

#[test]
fn epoch_key_depends_on_every_input() {
    let base = generate_epoch_pk(&[1u8; 64], 100, 5, 8).data;
    assert_ne!(generate_epoch_pk(&[2u8; 64], 100, 5, 8).data, base);
    assert_ne!(generate_epoch_pk(&[1u8; 64], 101, 5, 8).data, base);
    assert_ne!(generate_epoch_pk(&[1u8; 64], 100, 6, 8).data, base);
    assert_ne!(&generate_epoch_pk(&[1u8; 64], 100, 5, 9).data[..256], &base[..]);
}

#[test]
fn epoch_key_follows_the_derivation() {
    let prev_hash = [7u8; 64];
    let mut info = Vec::new();
    info.extend_from_slice(b"XCQA-POW-EPOCH-V1");
    info.extend_from_slice(&42u64.to_le_bytes());
    info.push(3);
    info.extend_from_slice(&4u64.to_le_bytes());
    let expected = Hkdf::extract(b"XCQA-POW-SALT", &prev_hash).expand(&info, 128);
    assert_eq!(generate_epoch_pk(&prev_hash, 42, 3, 4).data, expected);
}

#[test]
fn epoch_key_sizes_at_the_limits() {
    assert_eq!(generate_epoch_pk(&[0u8; 64], 0, 0, 0).data.len(), 0);
    assert_eq!(generate_epoch_pk(&[0u8; 64], 0, 0, 255).data.len(), 8160);
}

#[test]
fn difficulty_counts_leading_zero_bytes() {
    let mut d = [0xabu8; 64];
    d[0] = 0;
    d[1] = 0;
    d[2] = 0;
    assert!(check_difficulty(&d, 0));
    assert!(check_difficulty(&d, 3));
    assert!(!check_difficulty(&d, 4));
    // a zero byte behind a non-zero one does not count
    d[4] = 0;
    assert!(!check_difficulty(&d, 4));
    // bytes, not bits
    let mut e = [0xffu8; 64];
    e[0] = 0x01;
    assert!(!check_difficulty(&e, 1));
}

#[test]
fn difficulty_beyond_the_digest() {
    let zeros = [0u8; 64];
    assert!(check_difficulty(&zeros, 64));
    assert!(!check_difficulty(&zeros, 65));
    assert!(!check_difficulty(&zeros, 255));
}

#[test]
fn pow_solution_judged_by_digest() {
    let header = b"header".to_vec();
    let sig = b"sig".to_vec();
    let nonce = [9u8; 32];
    let pk = XcqaPublicKey { data: vec![4u8; 64] };
    let mut input = Vec::new();
    input.extend_from_slice(&header);
    input.extend_from_slice(&sig);
    input.extend_from_slice(&nonce);
    input.extend_from_slice(&pk.data);
    let digest = blake3_512(&input);
    let zeros = digest.iter().take_while(|&&b| b == 0).count() as u8;
    assert!(verify_pow_solution(&header, &sig, &nonce, &pk, zeros));
    assert!(!verify_pow_solution(&header, &sig, &nonce, &pk, zeros + 1));
}

#[test]
fn adjust_difficulty_steps() {
    // fast: under half the target
    assert_eq!(adjust_difficulty(3, 10, 4, 10), (3, 11));
    assert_eq!(adjust_difficulty(3, 255, 4, 10), (4, 0));
    assert_eq!(adjust_difficulty(255, 255, 4, 10), (255, 0));
    // slow: over twice the target
    assert_eq!(adjust_difficulty(3, 10, 21, 10), (3, 9));
    assert_eq!(adjust_difficulty(3, 0, 21, 10), (2, 255));
    assert_eq!(adjust_difficulty(0, 0, 21, 10), (0, 255));
    // in between, the bounds included
    assert_eq!(adjust_difficulty(3, 10, 5, 10), (3, 10));
    assert_eq!(adjust_difficulty(3, 10, 20, 10), (3, 10));
    // a target whose double does not fit 64 bits
    assert_eq!(adjust_difficulty(1, 1, u64::MAX, u64::MAX), (1, 1));
}
