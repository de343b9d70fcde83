use vstd::prelude::*;
use vstd::bytes::{
    lemma_auto_spec_u64_to_from_le_bytes,
    spec_u64_from_le_bytes,
    spec_u64_to_le_bytes,
    u64_from_le_bytes,
    u64_to_le_bytes,
};
use crate::error::CryptoError;

verus! {

/// Values with one canonical byte string each.
pub trait CanonicalSerialize: Sized {
    /// The canonical byte string of a value.
    spec fn canonical_bytes(&self) -> Seq<u8>;

    /// Distinct values have distinct canonical byte strings.
    proof fn lemma_canonical_injective(a: Self, b: Self)
        requires
            a.canonical_bytes() == b.canonical_bytes(),
        ensures
            a == b,
    ;

    fn to_canonical_bytes(&self) -> (bytes: Vec<u8>)
        ensures
            bytes@ == self.canonical_bytes(),
    ;

    /// Decodes a value: succeeds exactly on the canonical byte string of
    /// some value, and returns that value.
    fn from_canonical_bytes(bytes: &[u8]) -> (res: Result<Self, CryptoError>)
        ensures
            res matches Ok(v) ==> v.canonical_bytes() == bytes@,
            res is Err ==> forall|v: Self| #[trigger] v.canonical_bytes() != bytes@,
    ;
}

impl CanonicalSerialize for u64 {
    /// Eight bytes, little-endian.
    open spec fn canonical_bytes(&self) -> Seq<u8> {
        spec_u64_to_le_bytes(*self)
    }

    proof fn lemma_canonical_injective(a: Self, b: Self) {
        lemma_auto_spec_u64_to_from_le_bytes();
        assert(spec_u64_from_le_bytes(spec_u64_to_le_bytes(a)) == a);
        assert(spec_u64_from_le_bytes(spec_u64_to_le_bytes(b)) == b);
    }

    fn to_canonical_bytes(&self) -> (bytes: Vec<u8>) {
        u64_to_le_bytes(*self)
    }

    fn from_canonical_bytes(bytes: &[u8]) -> (res: Result<Self, CryptoError>)
        ensures
            bytes@.len() != 8 ==> res == Err::<Self, CryptoError>(
                CryptoError::InvalidKeyLength { expected: 8, actual: bytes@.len() as usize },
            ),
            bytes@.len() == 8 ==> res == Ok::<Self, CryptoError>(spec_u64_from_le_bytes(bytes@)),
    {
        proof {
            lemma_auto_spec_u64_to_from_le_bytes();
        }
        if bytes.len() != 8 {
            assert forall|v: Self| #[trigger] v.canonical_bytes() != bytes@ by {
                assert(spec_u64_to_le_bytes(v).len() == 8);
            }
            return Err(CryptoError::InvalidKeyLength { expected: 8, actual: bytes.len() });
        }
        let value = u64_from_le_bytes(bytes);
        assert(spec_u64_to_le_bytes(spec_u64_from_le_bytes(bytes@)) == bytes@);
        Ok(value)
    }
}

impl CanonicalSerialize for [u8; 32] {
    /// The 32 bytes as they stand.
    open spec fn canonical_bytes(&self) -> Seq<u8> {
        self@
    }

    proof fn lemma_canonical_injective(a: Self, b: Self) {
        assert(a =~= b);
    }

    fn to_canonical_bytes(&self) -> (bytes: Vec<u8>) {
        let mut bytes: Vec<u8> = Vec::new();
        bytes.extend_from_slice(self.as_slice());
        assert(bytes@ =~= self@);
        bytes
    }

    fn from_canonical_bytes(bytes: &[u8]) -> (res: Result<Self, CryptoError>)
        ensures
            bytes@.len() != 32 ==> res == Err::<Self, CryptoError>(
                CryptoError::InvalidKeyLength { expected: 32, actual: bytes@.len() as usize },
            ),
            bytes@.len() == 32 ==> res is Ok,
    {
        if bytes.len() != 32 {
            assert forall|v: Self| #[trigger] v.canonical_bytes() != bytes@ by {
                assert(v@.len() == 32);
            }
            return Err(CryptoError::InvalidKeyLength { expected: 32, actual: bytes.len() });
        }
        let mut arr = [0u8; 32];
        let mut i: usize = 0;
        while i < 32
            invariant
                i <= 32,
                bytes@.len() == 32,
                forall|k: int| 0 <= k < i ==> #[trigger] arr[k] == bytes[k],
            decreases 32 - i,
        {
            arr[i] = bytes[i];
            i += 1;
        }
        assert(arr@ =~= bytes@);
        Ok(arr)
    }
}

impl CanonicalSerialize for [u8; 64] {
    /// The 64 bytes as they stand.
    open spec fn canonical_bytes(&self) -> Seq<u8> {
        self@
    }

    proof fn lemma_canonical_injective(a: Self, b: Self) {
        assert(a =~= b);
    }

    fn to_canonical_bytes(&self) -> (bytes: Vec<u8>) {
        let mut bytes: Vec<u8> = Vec::new();
        bytes.extend_from_slice(self.as_slice());
        assert(bytes@ =~= self@);
        bytes
    }

    fn from_canonical_bytes(bytes: &[u8]) -> (res: Result<Self, CryptoError>)
        ensures
            bytes@.len() != 64 ==> res == Err::<Self, CryptoError>(
                CryptoError::InvalidKeyLength { expected: 64, actual: bytes@.len() as usize },
            ),
            bytes@.len() == 64 ==> res is Ok,
    {
        if bytes.len() != 64 {
            assert forall|v: Self| #[trigger] v.canonical_bytes() != bytes@ by {
                assert(v@.len() == 64);
            }
            return Err(CryptoError::InvalidKeyLength { expected: 64, actual: bytes.len() });
        }
        let mut arr = [0u8; 64];
        let mut i: usize = 0;
        while i < 64
            invariant
                i <= 64,
                bytes@.len() == 64,
                forall|k: int| 0 <= k < i ==> #[trigger] arr[k] == bytes[k],
            decreases 64 - i,
        {
            arr[i] = bytes[i];
            i += 1;
        }
        assert(arr@ =~= bytes@);
        Ok(arr)
    }
}

} // verus!
