use vstd::prelude::*;

verus! {

/// The first 64 bytes of BLAKE3's extendable output for an input.
pub uninterp spec fn blake3_xof_64(data: Seq<u8>) -> Seq<u8>;

/// The SHA-512 digest of an input.
pub uninterp spec fn sha512_digest(data: Seq<u8>) -> Seq<u8>;

/// The pseudorandom key of HKDF-Extract over HMAC-SHA256.
pub uninterp spec fn hkdf_sha256_prk(salt: Seq<u8>, ikm: Seq<u8>) -> Seq<u8>;

/// The first `len` bytes of output keying material of HKDF-Expand over
/// HMAC-SHA256.
pub uninterp spec fn hkdf_sha256_okm(prk: Seq<u8>, info: Seq<u8>, len: nat) -> Seq<u8>;

/// The most bytes one HKDF-Expand over SHA-256 can emit: 255 blocks of 32.
pub const HKDF_MAX_OUTPUT: usize = 8160;

/// BLAKE3-512: 64 bytes of output in extendable-output mode.
///
/// Feeds `data` to a fresh `blake3::Hasher` with `update`, then reads 64
/// bytes from `finalize_xof` with `OutputReader::fill`. Trusted: the result
/// is a function of the input bytes alone, named `blake3_xof_64`, and fills
/// the whole array.
#[verifier::external_body]
pub fn blake3_512(data: &[u8]) -> (digest: [u8; 64])
    ensures
        digest@ == blake3_xof_64(data@),
        digest@.len() == 64,
{
    let mut hasher = blake3::Hasher::new();
    hasher.update(data);
    let mut digest = [0u8; 64];
    hasher.finalize_xof().fill(&mut digest);
    digest
}

/// SHA-512: 64 bytes of output.
///
/// Calls `sha2::Sha512::digest`. Trusted: the result is a function of the
/// input bytes alone, named `sha512_digest`.
#[verifier::external_body]
pub fn sha512(data: &[u8]) -> (digest: [u8; 64])
    ensures
        digest@ == sha512_digest(data@),
        digest@.len() == 64,
{
    <sha2::Sha512 as sha2::Digest>::digest(data).into()
}

/// HKDF-SHA256 key derivation, holding the pseudorandom key of the extract
/// step.
pub struct Hkdf {
    prk: [u8; 32],
}

impl View for Hkdf {
    type V = Seq<u8>;

    /// The pseudorandom key.
    closed spec fn view(&self) -> Seq<u8> {
        self.prk@
    }
}

impl Hkdf {
    /// HKDF-Extract.
    ///
    /// Calls `hkdf::Hkdf::<Sha256>::extract` with the salt present and keeps
    /// the pseudorandom key it returns. Trusted: the key is a function of
    /// salt and input keying material alone, named `hkdf_sha256_prk`, and is
    /// 32 bytes long (the output size of SHA-256).
    #[verifier::external_body]
    pub fn extract(salt: &[u8], ikm: &[u8]) -> (h: Self)
        ensures
            h@ == hkdf_sha256_prk(salt@, ikm@),
            h@.len() == 32,
    {
        let (prk, _) = hkdf::Hkdf::<sha2::Sha256>::extract(Some(salt), ikm);
        Hkdf { prk: prk.into() }
    }

    /// HKDF-Expand to `length` bytes.
    ///
    /// Calls `hkdf::Hkdf::<Sha256>::from_prk` on the stored key, which is as
    /// long as a SHA-256 digest and so accepted, then `expand` into a buffer
    /// of `length` bytes. `expand` refuses more than 255 blocks of 32 bytes:
    /// such a length is left out. Trusted: the output is a function of key,
    /// info and length alone, named `hkdf_sha256_okm`, and fills the buffer.
    #[verifier::external_body]
    pub fn expand(&self, info: &[u8], length: usize) -> (okm: Vec<u8>)
        requires
            length <= HKDF_MAX_OUTPUT,
        ensures
            okm@ == hkdf_sha256_okm(self@, info@, length as nat),
            okm@.len() == length,
    {
        let hkdf = hkdf::Hkdf::<sha2::Sha256>::from_prk(&self.prk).expect("Invalid PRK");
        let mut okm = vec![0u8; length];
        hkdf.expand(info, &mut okm).expect("HKDF expand failed");
        okm
    }
}

} // verus!
