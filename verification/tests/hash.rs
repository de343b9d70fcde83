use xcqa_chain::hash::{blake3_512, sha512, Hkdf};

fn hex(bytes: &[u8]) -> String {
    let mut out = String::new();
    for b in bytes {
        out.push_str(&format!("{:02x}", b));
    }
    out
}

#[test]
fn test_blake3_512() {
    let data = b"test";
    let hash = blake3_512(data);
    assert_eq!(hash.len(), 64);
}

#[test]
fn test_sha512() {
    let data = b"test";
    let hash = sha512(data);
    assert_eq!(hash.len(), 64);
}

#[test]
fn test_hkdf() {
    let salt = b"salt";
    let ikm = b"input key material";
    let hkdf = Hkdf::extract(salt, ikm);
    let output = hkdf.expand(b"info", 32);
    assert_eq!(output.len(), 32);
}

#[test]
fn blake3_512_starts_with_the_default_digest() {
    let data = b"some input that is not handed back";
    let digest = blake3_512(data);
    assert_eq!(&digest[..32], blake3::hash(data).as_bytes());
    assert_ne!(&digest[..data.len()], &data[..]);
}

#[test]
fn blake3_512_of_empty_input() {
    let digest = blake3_512(b"");
    assert_eq!(
        hex(&digest[..32]),
        "af1349b9f5f9a1a6a0404dea36dcc9499bcb25c9adc112b7cc9a93cae41f3262"
    );
}

#[test]
fn blake3_512_separates_inputs() {
    assert_ne!(blake3_512(b"a"), blake3_512(b"b"));
    assert_eq!(blake3_512(b"a"), blake3_512(b"a"));
}

#[test]
fn sha512_of_abc() {
    let digest = sha512(b"abc");
    assert_eq!(
        hex(&digest),
        "ddaf35a193617abacc417349ae20413112e6fa4e89a97ea20a9eeee64b55d39a\
         2192992a274fc1a836ba3c23a3feebbd454d4423643ce80e2a9ac94fa54ca49f"
    );
}

#[test]
fn hkdf_matches_the_reference_vector() {
    let ikm = [0x0bu8; 22];
    let salt: Vec<u8> = (0x00u8..=0x0c).collect();
    let info: Vec<u8> = (0xf0u8..=0xf9).collect();
    let okm = Hkdf::extract(&salt, &ikm).expand(&info, 42);
    assert_eq!(
        hex(&okm),
        "3cb25f25faacd57a90434f64d0362f2a2d2d0a90cf1a5a4c5db02d56ecc4c5bf\
         34007208d5b887185865"
    );
}

#[test]
fn hkdf_expand_lengths() {
    let hkdf = Hkdf::extract(b"salt", b"ikm");
    assert_eq!(hkdf.expand(b"", 0).len(), 0);
    assert_eq!(hkdf.expand(b"info", 8160).len(), 8160);
    let short = hkdf.expand(b"info", 16);
    let long = hkdf.expand(b"info", 64);
    assert_eq!(&long[..16], &short[..]);
}
