use xcqa_chain::mldsa::{
    mldsa_keygen, mldsa_sign, mldsa_verify, MlDsa65PrivateKey, MlDsa65Signature,
};

#[test]
fn test_mldsa_sign_verify() {
    let mut rng = rand::rng();
    let (pk, sk) = mldsa_keygen(&mut rng);
    let message = b"test message";
    let sig = mldsa_sign(message, &sk);
    assert!(mldsa_verify(message, &sig, &pk));
}

#[test]
fn test_mldsa_invalid_signature() {
    let mut rng = rand::rng();
    let (pk, sk) = mldsa_keygen(&mut rng);
    let message = b"test message";
    let sig = mldsa_sign(message, &sk);
    let wrong_message = b"wrong message";
    assert!(!mldsa_verify(wrong_message, &sig, &pk));
}

#[test]
fn keys_and_signatures_follow_from_the_seed() {
    let a = MlDsa65PrivateKey::from_seed([7u8; 32]);
    let b = MlDsa65PrivateKey::from_seed([7u8; 32]);
    let c = MlDsa65PrivateKey::from_seed([8u8; 32]);
    assert_eq!(a.public_key().0, b.public_key().0);
    assert_ne!(a.public_key().0, c.public_key().0);
    assert_eq!(mldsa_sign(b"m", &a).0, mldsa_sign(b"m", &b).0);
    assert_ne!(mldsa_sign(b"m", &a).0, mldsa_sign(b"n", &a).0);
    // the key is not the seed handed back
    assert_ne!(&a.public_key().0[..32], &[7u8; 32][..]);
}

#[test]
fn keygen_gives_a_matching_pair() {
    let mut rng = rand::rng();
    let (pk, sk) = mldsa_keygen(&mut rng);
    assert_eq!(pk.0, sk.public_key().0);
    let (pk2, _) = mldsa_keygen(&mut rng);
    assert_ne!(pk.0, pk2.0);
}

#[test]
fn verification_is_total_on_malformed_input() {
    let sk = MlDsa65PrivateKey::from_seed([1u8; 32]);
    let pk = sk.public_key();
    assert!(!mldsa_verify(b"m", &MlDsa65Signature([0xffu8; 3309]), &pk));
    assert!(!mldsa_verify(b"m", &MlDsa65Signature([0u8; 3309]), &pk));
    let mut sig = mldsa_sign(b"m", &sk);
    sig.0[10] ^= 0x01;
    assert!(!mldsa_verify(b"m", &sig, &pk));
}

#[test]
fn verification_needs_the_right_key() {
    let sk = MlDsa65PrivateKey::from_seed([1u8; 32]);
    let other = MlDsa65PrivateKey::from_seed([2u8; 32]);
    let sig = mldsa_sign(b"m", &sk);
    assert!(mldsa_verify(b"m", &sig, &sk.public_key()));
    assert!(!mldsa_verify(b"m", &sig, &other.public_key()));
}

#[test]
fn zeroize_clears_the_seed() {
    let mut sk = MlDsa65PrivateKey::from_seed([9u8; 32]);
    let before = sk.public_key().0;
    sk.zeroize();
    let zero = MlDsa65PrivateKey::from_seed([0u8; 32]);
    assert_eq!(sk.public_key().0, zero.public_key().0);
    assert_ne!(sk.public_key().0, before);
}
