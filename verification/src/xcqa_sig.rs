//! The layered signature as it appears on the wire: two byte strings.

use vstd::prelude::*;
use vstd::std_specs::cmp::PartialEqSpecImpl;
use crate::codec::{get_u32, lemma_u32_canonical, lemma_u32_round_trip, parse_u32};
use crate::wire::{bytes_equal, le32, put_bytes, put_u32};

verus! {

/// The mathematical content of an `XcqaSignature`.
pub struct XcqaSignatureView {
    pub commitment: Seq<u8>,
    pub response: Seq<u8>,
}

/// A layered signature: its two public components.
#[derive(Debug)]
pub struct XcqaSignature {
    pub commitment: Vec<u8>,
    pub response: Vec<u8>,
}

impl View for XcqaSignature {
    type V = XcqaSignatureView;

    open spec fn view(&self) -> XcqaSignatureView {
        XcqaSignatureView { commitment: self.commitment@, response: self.response@ }
    }
}

impl Clone for XcqaSignature {
    fn clone(&self) -> (copy: Self)
        ensures
            copy@ == self@,
    {
        XcqaSignature { commitment: self.commitment.clone(), response: self.response.clone() }
    }
}

impl PartialEq for XcqaSignature {
    /// Two signatures are equal when both components are.
    fn eq(&self, other: &Self) -> (same: bool) {
        bytes_equal(self.commitment.as_slice(), other.commitment.as_slice()) && bytes_equal(
            self.response.as_slice(),
            other.response.as_slice(),
        )
    }
}

impl PartialEqSpecImpl for XcqaSignature {
    open spec fn obeys_eq_spec() -> bool {
        true
    }

    open spec fn eq_spec(&self, other: &Self) -> bool {
        self@ == other@
    }
}

/// A byte string on the wire: its length, then the bytes.
pub open spec fn enc_byte_vec(b: Seq<u8>) -> Seq<u8> {
    le32(b.len() as int) + b
}

/// Reads a byte string.
pub open spec fn parse_byte_vec(s: Seq<u8>) -> Option<(Seq<u8>, Seq<u8>)> {
    match parse_u32(s) {
        Some((n, rest)) => if rest.len() >= n {
            Some((rest.take(n), rest.skip(n)))
        } else {
            None
        },
        None => None,
    }
}

/// A byte string is read back from the front of its encoding.
pub proof fn lemma_byte_vec_round_trip(b: Seq<u8>, rest: Seq<u8>)
    requires
        b.len() <= u32::MAX,
    ensures
        parse_byte_vec(enc_byte_vec(b) + rest) == Some((b, rest)),
{
    let body = b + rest;
    assert(enc_byte_vec(b) + rest =~= le32(b.len() as int) + body);
    lemma_u32_round_trip(b.len() as int, body);
    assert(body.take(b.len() as int) =~= b);
    assert(body.skip(b.len() as int) =~= rest);
}

/// A signature on the wire: commitment, then response.
pub open spec fn enc_signature(sig: XcqaSignatureView) -> Seq<u8> {
    enc_byte_vec(sig.commitment) + enc_byte_vec(sig.response)
}

/// Reads a signature.
pub open spec fn parse_signature(s: Seq<u8>) -> Option<(XcqaSignatureView, Seq<u8>)> {
    match parse_byte_vec(s) {
        Some((commitment, s1)) => match parse_byte_vec(s1) {
            Some((response, s2)) => Some((XcqaSignatureView { commitment, response }, s2)),
            None => None,
        },
        None => None,
    }
}

/// A signature whose components fit their length prefixes.
pub open spec fn signature_fits(sig: XcqaSignatureView) -> bool {
    sig.commitment.len() <= u32::MAX && sig.response.len() <= u32::MAX
}

/// A signature is read back from the front of its encoding.
pub proof fn lemma_signature_round_trip(sig: XcqaSignatureView, rest: Seq<u8>)
    requires
        signature_fits(sig),
    ensures
        parse_signature(enc_signature(sig) + rest) == Some((sig, rest)),
{
    let s1 = enc_byte_vec(sig.response) + rest;
    assert(enc_signature(sig) + rest =~= enc_byte_vec(sig.commitment) + s1);
    lemma_byte_vec_round_trip(sig.commitment, s1);
    lemma_byte_vec_round_trip(sig.response, rest);
}

/// Appends a byte string with its length prefix.
pub fn put_byte_vec(out: &mut Vec<u8>, b: &Vec<u8>)
    requires
        b@.len() <= u32::MAX,
    ensures
        final(out)@ == old(out)@ + enc_byte_vec(b@),
{
    let ghost start = out@;
    put_u32(out, b.len() as u32);
    put_bytes(out, b.as_slice());
    assert(out@ =~= start + enc_byte_vec(b@));
}

impl XcqaSignature {
    /// Tells whether both components fit their 32-bit length prefixes.
    pub fn fits_wire(&self) -> (ok: bool)
        ensures
            ok == signature_fits(self@),
    {
        self.commitment.len() <= u32::MAX as usize && self.response.len() <= u32::MAX as usize
    }

    /// The canonical bytes of the signature.
    pub fn to_bytes(&self) -> (bytes: Vec<u8>)
        requires
            signature_fits(self@),
        ensures
            bytes@ == enc_signature(self@),
    {
        let mut bytes: Vec<u8> = Vec::new();
        put_byte_vec(&mut bytes, &self.commitment);
        put_byte_vec(&mut bytes, &self.response);
        assert(bytes@ =~= enc_signature(self@));
        bytes
    }
}

/// Reads a byte string at `pos`. The announced length is held against the
/// bytes that are there before anything is allocated.
pub fn get_byte_vec(bytes: &[u8], pos: usize) -> (res: Option<(Vec<u8>, usize)>)
    requires
        pos <= bytes@.len(),
    ensures
        match parse_byte_vec(bytes@.skip(pos as int)) {
            Some((b, rest)) => {
                &&& res matches Some((v, end))
                &&& v@ == b
                &&& pos <= end <= bytes@.len()
                &&& rest == bytes@.skip(end as int)
            },
            None => res is None,
        },
{
    let head = get_u32(bytes, pos);
    if head.is_none() {
        return None;
    }
    let (count, start) = head.unwrap();
    let n: usize = count as usize;
    let len = bytes.len();
    if len - start < n {
        return None;
    }
    let mut v: Vec<u8> = Vec::new();
    let mut i: usize = 0;
    while i < n
        invariant
            i <= n,
            len == bytes@.len(),
            start + n <= len,
            v@.len() == i,
            forall|k: int| 0 <= k < i ==> #[trigger] v@[k] == bytes[start + k],
        decreases n - i,
    {
        v.push(bytes[start + i]);
        i += 1;
    }
    proof {
        let rest = bytes@.skip(start as int);
        assert(v@ =~= rest.take(n as int));
        assert(rest.skip(n as int) =~= bytes@.skip(start + n));
    }
    Some((v, start + n))
}

/// Reads a signature at `pos`.
pub fn get_signature(bytes: &[u8], pos: usize) -> (res: Option<(XcqaSignature, usize)>)
    requires
        pos <= bytes@.len(),
    ensures
        match parse_signature(bytes@.skip(pos as int)) {
            Some((v, rest)) => {
                &&& res matches Some((sig, end))
                &&& sig@ == v
                &&& pos <= end <= bytes@.len()
                &&& rest == bytes@.skip(end as int)
            },
            None => res is None,
        },
{
    let a = get_byte_vec(bytes, pos);
    if a.is_none() {
        return None;
    }
    let (commitment, p1) = a.unwrap();
    let b = get_byte_vec(bytes, p1);
    if b.is_none() {
        return None;
    }
    let (response, p2) = b.unwrap();
    Some((XcqaSignature { commitment, response }, p2))
}

/// What reads as a byte string starts with that byte string's encoding.
pub proof fn lemma_byte_vec_canonical(s: Seq<u8>)
    ensures
        parse_byte_vec(s) matches Some((b, r)) ==> s == enc_byte_vec(b) + r && b.len() <= u32::MAX,
{
    lemma_u32_canonical(s);
    match parse_u32(s) {
        Some((n, rest)) => {
            if rest.len() >= n {
                assert(rest =~= rest.take(n) + rest.skip(n));
                assert(s =~= enc_byte_vec(rest.take(n)) + rest.skip(n));
            }
        },
        None => {},
    }
}

/// What reads as a signature starts with that signature's encoding.
pub proof fn lemma_signature_canonical(s: Seq<u8>)
    ensures
        parse_signature(s) matches Some((sig, r)) ==> s == enc_signature(sig) + r && signature_fits(
            sig,
        ),
{
    lemma_byte_vec_canonical(s);
    match parse_byte_vec(s) {
        Some((commitment, s1)) => {
            lemma_byte_vec_canonical(s1);
            match parse_byte_vec(s1) {
                Some((response, s2)) => {
                    let sig = XcqaSignatureView { commitment, response };
                    assert(s =~= enc_signature(sig) + s2);
                },
                None => {},
            }
        },
        None => {},
    }
}

} // verus!
