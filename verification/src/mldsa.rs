//! ML-DSA-65 as a black box with fixed sizes: public key 1952 bytes,
//! signature 3309 bytes, seed 32 bytes.

use vstd::prelude::*;
use crate::entropy::fresh_bytes_32;

verus! {

/// The encoded ML-DSA-65 verifying key that a seed determines.
pub uninterp spec fn mldsa65_public_key(seed: Seq<u8>) -> Seq<u8>;

/// The encoded ML-DSA-65 signature, in the deterministic variant with an
/// empty context, of a message under the key that a seed determines.
pub uninterp spec fn mldsa65_signature(seed: Seq<u8>, message: Seq<u8>) -> Seq<u8>;

/// Whether ML-DSA-65 verification, with an empty context, accepts an encoded
/// signature on a message under an encoded verifying key. False where the
/// signature does not decode.
pub uninterp spec fn mldsa65_accepts(pk: Seq<u8>, message: Seq<u8>, sig: Seq<u8>) -> bool;

/// An encoded ML-DSA-65 verifying key.
#[derive(Debug)]
pub struct MlDsa65PublicKey(pub [u8; 1952]);

impl Clone for MlDsa65PublicKey {
    fn clone(&self) -> (copy: Self)
        ensures
            copy == *self,
    {
        MlDsa65PublicKey(self.0)
    }
}

/// An ML-DSA-65 private key, held as its 32-byte seed only.
pub struct MlDsa65PrivateKey([u8; 32]);

impl View for MlDsa65PrivateKey {
    type V = Seq<u8>;

    /// The seed.
    closed spec fn view(&self) -> Seq<u8> {
        self.0@
    }
}

impl Clone for MlDsa65PrivateKey {
    fn clone(&self) -> (copy: Self)
        ensures
            copy@ == self@,
    {
        MlDsa65PrivateKey(self.0)
    }
}

/// An encoded ML-DSA-65 signature.
#[derive(Debug)]
pub struct MlDsa65Signature(pub [u8; 3309]);

impl Clone for MlDsa65Signature {
    fn clone(&self) -> (copy: Self)
        ensures
            copy == *self,
    {
        MlDsa65Signature(self.0)
    }
}

/// The verifying key of a seed.
///
/// Calls `ml_dsa::SigningKey::<MlDsa65>::from_seed`, then `verifying_key`
/// and `encode`. Trusted: the encoded key is a function of the seed alone,
/// named `mldsa65_public_key`.
#[verifier::external_body]
fn derive_public_key(seed: &[u8; 32]) -> (pk: [u8; 1952])
    ensures
        pk@ == mldsa65_public_key(seed@),
{
    let signing_key = ml_dsa::SigningKey::<ml_dsa::MlDsa65>::from_seed(&(*seed).into());
    let encoded = ml_dsa::signature::Keypair::verifying_key(&signing_key).encode();
    let mut pk = [0u8; 1952];
    pk.copy_from_slice(encoded.as_ref());
    pk
}

/// The signature of a message under the key of a seed.
///
/// Calls `ml_dsa::SigningKey::<MlDsa65>::from_seed`, then
/// `signature::Signer::sign`, which for this key is the deterministic
/// variant with an empty context and cannot fail, then `encode`. Trusted:
/// the encoded signature is a function of seed and message alone, named
/// `mldsa65_signature`.
#[verifier::external_body]
fn sign_with_seed(message: &[u8], seed: &[u8; 32]) -> (sig: [u8; 3309])
    ensures
        sig@ == mldsa65_signature(seed@, message@),
{
    let signing_key = ml_dsa::SigningKey::<ml_dsa::MlDsa65>::from_seed(&(*seed).into());
    let encoded = ml_dsa::signature::Signer::sign(&signing_key, message).encode();
    let mut sig = [0u8; 3309];
    sig.copy_from_slice(encoded.as_ref());
    sig
}

/// The verdict of ML-DSA-65 on an encoded signature.
///
/// Calls `ml_dsa::VerifyingKey::<MlDsa65>::decode` and
/// `ml_dsa::Signature::<MlDsa65>::decode`; where the signature decodes,
/// `signature::Verifier::verify` decides, and where it does not the verdict
/// is false. Trusted: the verdict is a function of key, message and
/// signature bytes alone, named `mldsa65_accepts`.
#[verifier::external_body]
fn verify_encoded(message: &[u8], sig: &[u8; 3309], pk: &[u8; 1952]) -> (ok: bool)
    ensures
        ok == mldsa65_accepts(pk@, message@, sig@),
{
    let vk = ml_dsa::VerifyingKey::<ml_dsa::MlDsa65>::decode(&(*pk).into());
    match ml_dsa::Signature::<ml_dsa::MlDsa65>::decode(&(*sig).into()) {
        Some(s) => ml_dsa::signature::Verifier::verify(&vk, message, &s).is_ok(),
        None => false,
    }
}

/// Overwrites a seed with zeros.
///
/// Calls `zeroize::Zeroize::zeroize` on the array. Trusted: every byte is
/// zero afterwards, and the call neither panics nor touches anything else.
#[verifier::external_body]
fn wipe(seed: &mut [u8; 32])
    ensures
        forall|i: int| 0 <= i < 32 ==> #[trigger] final(seed)[i] == 0,
    opens_invariants none
    no_unwind
{
    zeroize::Zeroize::zeroize(seed);
}

impl Drop for MlDsa65PrivateKey {
    /// Clears the seed when the key goes out of use.
    fn drop(&mut self)
        opens_invariants none
        no_unwind
    {
        wipe(&mut self.0);
    }
}

impl MlDsa65PrivateKey {
    /// The private key that a seed stands for.
    pub fn from_seed(seed: [u8; 32]) -> (sk: Self)
        ensures
            sk@ == seed@,
    {
        MlDsa65PrivateKey(seed)
    }

    /// The verifying key that belongs to this private key.
    pub fn public_key(&self) -> (pk: MlDsa65PublicKey)
        ensures
            pk.0@ == mldsa65_public_key(self@),
    {
        MlDsa65PublicKey(derive_public_key(&self.0))
    }

    /// Clears the seed from memory.
    pub fn zeroize(&mut self)
        ensures
            final(self)@ == Seq::new(32, |i: int| 0u8),
    {
        wipe(&mut self.0);
        assert(self.0@ =~= Seq::new(32, |i: int| 0u8));
    }
}

/// Generates a key pair from 32 fresh bytes of the generator.
pub fn mldsa_keygen(rng: &mut rand::rngs::ThreadRng) -> (pair: (MlDsa65PublicKey, MlDsa65PrivateKey))
    ensures
        pair.0.0@ == mldsa65_public_key(pair.1@),
{
    let seed_bytes = fresh_bytes_32(rng);
    let sk = MlDsa65PrivateKey::from_seed(seed_bytes);
    let pk = sk.public_key();
    (pk, sk)
}

/// Signs a message.
pub fn mldsa_sign(message: &[u8], sk: &MlDsa65PrivateKey) -> (sig: MlDsa65Signature)
    ensures
        sig.0@ == mldsa65_signature(sk@, message@),
{
    MlDsa65Signature(sign_with_seed(message, &sk.0))
}

/// Verifies a signature. Total: a malformed signature is rejected, never a
/// panic.
pub fn mldsa_verify(message: &[u8], signature: &MlDsa65Signature, pk: &MlDsa65PublicKey) -> (ok: bool)
    ensures
        ok == mldsa65_accepts(pk.0@, message@, signature.0@),
{
    verify_encoded(message, &signature.0, &pk.0)
}

} // verus!
