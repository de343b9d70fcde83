use xcqa_chain::error::CryptoError;
use xcqa_chain::serialization::CanonicalSerialize;

#[test]
fn test_u64_canonical() {
    let value = 0x0123456789ABCDEFu64;
    let bytes = value.to_canonical_bytes();
    assert_eq!(bytes.len(), 8);
    let decoded = u64::from_canonical_bytes(&bytes).unwrap();
    assert_eq!(decoded, value);
}

#[test]
fn test_array32_canonical() {
    let arr = [42u8; 32];
    let bytes = arr.to_canonical_bytes();
    assert_eq!(bytes.len(), 32);
    let decoded = <[u8; 32]>::from_canonical_bytes(&bytes).unwrap();
    assert_eq!(decoded, arr);
}

#[test]
fn u64_is_little_endian() {
    assert_eq!(
        0x0123456789ABCDEFu64.to_canonical_bytes(),
        vec![0xEF, 0xCD, 0xAB, 0x89, 0x67, 0x45, 0x23, 0x01]
    );
    assert_eq!(u64::from_canonical_bytes(&[1, 0, 0, 0, 0, 0, 0, 0x80]).unwrap(), (1u64 << 63) + 1);
}

#[test]
fn array64_canonical() {
    let mut arr = [0u8; 64];
    for (i, b) in arr.iter_mut().enumerate() {
        *b = i as u8;
    }
    let bytes = arr.to_canonical_bytes();
    assert_eq!(bytes, arr.to_vec());
    assert_eq!(<[u8; 64]>::from_canonical_bytes(&bytes).unwrap(), arr);
}

#[test]
fn wrong_lengths_are_refused() {
    assert!(matches!(
        u64::from_canonical_bytes(&[0u8; 7]),
        Err(CryptoError::InvalidKeyLength { expected: 8, actual: 7 })
    ));
    assert!(matches!(
        u64::from_canonical_bytes(&[0u8; 9]),
        Err(CryptoError::InvalidKeyLength { expected: 8, actual: 9 })
    ));
    assert!(matches!(
        <[u8; 32]>::from_canonical_bytes(&[0u8; 31]),
        Err(CryptoError::InvalidKeyLength { expected: 32, actual: 31 })
    ));
    assert!(matches!(
        <[u8; 32]>::from_canonical_bytes(&[]),
        Err(CryptoError::InvalidKeyLength { expected: 32, actual: 0 })
    ));
    assert!(matches!(
        <[u8; 64]>::from_canonical_bytes(&[0u8; 65]),
        Err(CryptoError::InvalidKeyLength { expected: 64, actual: 65 })
    ));
}

#[test]
fn crypto_errors_pass_into_core_errors() {
    let wrapped = xcqa_chain::error::CoreError::from(CryptoError::InvalidProof);
    assert!(matches!(
        wrapped,
        xcqa_chain::error::CoreError::CryptoError(CryptoError::InvalidProof)
    ));
}
