use vstd::prelude::*;
use vstd::string::StringSliceAdditionalSpecFns;
use crate::difficulty::{check_difficulty, meets_difficulty};
use crate::hash::{blake3_512, blake3_xof_64, hkdf_sha256_okm, hkdf_sha256_prk, Hkdf};
use crate::wire::{le64, put_bytes, put_u64};

verus! {

/// The most layers an epoch key can have: HKDF emits at most 255 blocks of
/// 32 bytes.
pub const MAX_LAYERS: usize = 255;

/// A verification key of the layered signature, as raw bytes.
#[derive(Debug)]
pub struct XcqaPublicKey {
    pub data: Vec<u8>,
}

impl Clone for XcqaPublicKey {
    fn clone(&self) -> (copy: Self)
        ensures
            copy.data@ == self.data@,
    {
        XcqaPublicKey { data: self.data.clone() }
    }
}

/// The salt of the epoch-key extraction.
pub open spec fn epoch_salt() -> Seq<u8> {
    "XCQA-POW-SALT".spec_bytes()
}

/// The info string of the epoch-key expansion: the label, the height in
/// eight little-endian bytes, the tier, and the layer count in eight
/// little-endian bytes.
pub open spec fn epoch_info(height: u64, tier: u8, layers: u64) -> Seq<u8> {
    "XCQA-POW-EPOCH-V1".spec_bytes() + le64(height) + seq![tier] + le64(layers)
}

/// The epoch key: HKDF-Expand, under the key extracted from the previous
/// block hash, of the info string, to 32 bytes per layer.
pub open spec fn epoch_key(prev_hash: Seq<u8>, height: u64, tier: u8, layers: nat) -> Seq<u8> {
    hkdf_sha256_okm(
        hkdf_sha256_prk(epoch_salt(), prev_hash),
        epoch_info(height, tier, layers as u64),
        32 * layers,
    )
}

/// Derives the proof-of-work verification key of a block slot from the
/// previous block hash.
pub fn generate_epoch_pk(
    prev_block_hash: &[u8; 64],
    block_height: u64,
    difficulty_tier: u8,
    layer_count: usize,
) -> (pk: XcqaPublicKey)
    requires
        layer_count <= MAX_LAYERS,
    ensures
        pk.data@ == epoch_key(prev_block_hash@, block_height, difficulty_tier, layer_count as nat),
        pk.data@.len() == 32 * layer_count,
{
    let hkdf = Hkdf::extract("XCQA-POW-SALT".as_bytes(), prev_block_hash.as_slice());
    let mut info: Vec<u8> = Vec::new();
    put_bytes(&mut info, "XCQA-POW-EPOCH-V1".as_bytes());
    put_u64(&mut info, block_height);
    info.push(difficulty_tier);
    put_u64(&mut info, layer_count as u64);
    assert(info@ =~= epoch_info(block_height, difficulty_tier, layer_count as u64));
    let key_material = hkdf.expand(info.as_slice(), 32 * layer_count);
    XcqaPublicKey { data: key_material }
}

/// Equal inputs give equal epoch keys, byte for byte.
pub proof fn lemma_epoch_key_deterministic(
    prev_hash_a: Seq<u8>,
    height_a: u64,
    tier_a: u8,
    layers_a: nat,
    prev_hash_b: Seq<u8>,
    height_b: u64,
    tier_b: u8,
    layers_b: nat,
)
    requires
        prev_hash_a == prev_hash_b,
        height_a == height_b,
        tier_a == tier_b,
        layers_a == layers_b,
    ensures
        epoch_key(prev_hash_a, height_a, tier_a, layers_a) == epoch_key(
            prev_hash_b,
            height_b,
            tier_b,
            layers_b,
        ),
{
}

/// The bytes whose digest a proof-of-work solution is judged by: header,
/// signature, nonce and epoch key, one after the other.
pub open spec fn solution_preimage(
    header: Seq<u8>,
    sig: Seq<u8>,
    nonce: Seq<u8>,
    epoch_pk: Seq<u8>,
) -> Seq<u8> {
    header + sig + nonce + epoch_pk
}

/// Tells whether the BLAKE3-512 digest of header, signature, nonce and
/// epoch key meets the fine difficulty.
pub fn verify_pow_solution(
    block_header: &[u8],
    xcqa_sig: &[u8],
    xcqa_nonce: &[u8; 32],
    epoch_pk: &XcqaPublicKey,
    fine_difficulty: u8,
) -> (ok: bool)
    ensures
        ok == meets_difficulty(
            blake3_xof_64(solution_preimage(block_header@, xcqa_sig@, xcqa_nonce@, epoch_pk.data@)),
            fine_difficulty as int,
        ),
{
    let mut hash_input: Vec<u8> = Vec::new();
    put_bytes(&mut hash_input, block_header);
    put_bytes(&mut hash_input, xcqa_sig);
    put_bytes(&mut hash_input, xcqa_nonce.as_slice());
    put_bytes(&mut hash_input, epoch_pk.data.as_slice());
    assert(hash_input@ =~= solution_preimage(
        block_header@,
        xcqa_sig@,
        xcqa_nonce@,
        epoch_pk.data@,
    ));
    let hash = blake3_512(hash_input.as_slice());
    check_difficulty(&hash, fine_difficulty)
}

} // verus!
