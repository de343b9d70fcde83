//! The canonical layout: fields in declaration order, fixed-size arrays
//! inline, vectors as a little-endian 32-bit count followed by the items.
//! Each layout is given as an encoder on mathematical values together with
//! the parser that reads it back from the front of a byte string.

use vstd::prelude::*;
use vstd::bytes::{
    lemma_auto_spec_u32_to_from_le_bytes,
    spec_u32_from_le_bytes,
    spec_u32_to_le_bytes,
    u32_from_le_bytes,
};
use vstd::slice::slice_subrange;
use crate::lattice::commitment::{LatticeCommitment, LatticeRandVec};
use crate::lattice::params::N;
use crate::lattice::range_proof::{BitProof, BitProofView, LatticeRangeProof, RangeProofView};
use crate::lattice::ring::{RingElement, RingVector};
use crate::wire::{le32, put_u32};

verus! {

/// The items' encodings, one after the other.
pub open spec fn enc_items<T>(items: Seq<T>, enc: spec_fn(T) -> Seq<u8>) -> Seq<u8>
    decreases items.len(),
{
    if items.len() == 0 {
        Seq::empty()
    } else {
        enc(items[0]) + enc_items(items.skip(1), enc)
    }
}

/// Reads `n` items from the front of `s`, one after the other; gives the
/// items and what is left of `s`, or nothing where an item fails to parse.
pub open spec fn parse_items<T>(
    s: Seq<u8>,
    n: nat,
    parse: spec_fn(Seq<u8>) -> Option<(T, Seq<u8>)>,
) -> Option<(Seq<T>, Seq<u8>)>
    decreases n,
{
    if n == 0 {
        Some((Seq::empty(), s))
    } else {
        match parse(s) {
            Some((x, rest)) => match parse_items(rest, (n - 1) as nat, parse) {
                Some((xs, tail)) => Some((seq![x] + xs, tail)),
                None => None,
            },
            None => None,
        }
    }
}

/// Encoding one more item appends its bytes.
pub proof fn lemma_enc_items_push<T>(items: Seq<T>, x: T, enc: spec_fn(T) -> Seq<u8>)
    ensures
        enc_items(items.push(x), enc) == enc_items(items, enc) + enc(x),
    decreases items.len(),
{
    let more = items.push(x);
    if items.len() == 0 {
        assert(more.skip(1) =~= Seq::<T>::empty());
        assert(enc_items(more.skip(1), enc) =~= Seq::<u8>::empty());
        assert(enc_items(more, enc) =~= enc(x));
        assert(enc_items(items, enc) + enc(x) =~= enc(x));
    } else {
        lemma_enc_items_push(items.skip(1), x, enc);
        assert(more.skip(1) =~= items.skip(1).push(x));
        assert(more[0] == items[0]);
        assert(enc_items(more, enc) =~= enc_items(items, enc) + enc(x));
    }
}

/// Where every item is read back from the front of its own encoding,
/// whatever follows, the items are read back from the front of theirs.
pub proof fn lemma_items_round_trip<T>(
    items: Seq<T>,
    rest: Seq<u8>,
    enc: spec_fn(T) -> Seq<u8>,
    parse: spec_fn(Seq<u8>) -> Option<(T, Seq<u8>)>,
)
    requires
        forall|i: int, r: Seq<u8>|
            0 <= i < items.len() ==> #[trigger] parse(enc(items[i]) + r) == Some((items[i], r)),
    ensures
        parse_items(enc_items(items, enc) + rest, items.len(), parse) == Some((items, rest)),
    decreases items.len(),
{
    if items.len() == 0 {
        assert(enc_items(items, enc) + rest =~= rest);
        assert(items =~= Seq::<T>::empty());
    } else {
        let tail = items.skip(1);
        let after = enc_items(tail, enc) + rest;
        assert(enc_items(items, enc) + rest =~= enc(items[0]) + after);
        assert(parse(enc(items[0]) + after) == Some((items[0], after)));
        assert forall|i: int, r: Seq<u8>| 0 <= i < tail.len() implies #[trigger] parse(
            enc(tail[i]) + r,
        ) == Some((tail[i], r)) by {
            assert(tail[i] == items[i + 1]);
            assert(parse(enc(items[i + 1]) + r) == Some((items[i + 1], r)));
        }
        lemma_items_round_trip(tail, rest, enc, parse);
        assert(seq![items[0]] + tail =~= items);
    }
}

/// Reads a little-endian 32-bit integer from the front of `s`.
pub open spec fn parse_u32(s: Seq<u8>) -> Option<(int, Seq<u8>)> {
    if s.len() >= 4 {
        Some((spec_u32_from_le_bytes(s.subrange(0, 4)) as int, s.skip(4)))
    } else {
        None
    }
}

/// An integer that fits 32 bits.
pub open spec fn is_word(x: int) -> bool {
    0 <= x <= u32::MAX
}

/// A 32-bit integer is read back from the front of its encoding.
pub proof fn lemma_u32_round_trip(x: int, rest: Seq<u8>)
    requires
        is_word(x),
    ensures
        le32(x).len() == 4,
        parse_u32(le32(x) + rest) == Some((x, rest)),
{
    lemma_auto_spec_u32_to_from_le_bytes();
    let s = le32(x) + rest;
    assert(s.subrange(0, 4) =~= le32(x));
    assert(s.skip(4) =~= rest);
}

/// The encoder of one coefficient.
pub open spec fn word_enc() -> spec_fn(int) -> Seq<u8> {
    |x: int| le32(x)
}

/// The parser of one coefficient.
pub open spec fn word_parse() -> spec_fn(Seq<u8>) -> Option<(int, Seq<u8>)> {
    |s: Seq<u8>| parse_u32(s)
}

/// A polynomial on the wire: its coefficients, four bytes each.
pub open spec fn enc_poly(p: Seq<int>) -> Seq<u8> {
    enc_items(p, word_enc())
}

/// Reads the `N` coefficients of a polynomial.
pub open spec fn parse_poly(s: Seq<u8>) -> Option<(Seq<int>, Seq<u8>)> {
    parse_items(s, N as nat, word_parse())
}

/// `N` coefficients that each fit 32 bits.
pub open spec fn poly_fits(p: Seq<int>) -> bool {
    &&& p.len() == N
    &&& forall|i: int| 0 <= i < N ==> is_word(#[trigger] p[i])
}

/// A polynomial is read back from the front of its encoding.
pub proof fn lemma_poly_round_trip(p: Seq<int>, rest: Seq<u8>)
    requires
        poly_fits(p),
    ensures
        parse_poly(enc_poly(p) + rest) == Some((p, rest)),
{
    assert forall|i: int, r: Seq<u8>| 0 <= i < p.len() implies #[trigger] word_parse()(
        word_enc()(p[i]) + r,
    ) == Some((p[i], r)) by {
        lemma_u32_round_trip(p[i], r);
    }
    lemma_items_round_trip(p, rest, word_enc(), word_parse());
}

/// The encoder of one polynomial.
pub open spec fn poly_enc() -> spec_fn(Seq<int>) -> Seq<u8> {
    |p: Seq<int>| enc_poly(p)
}

/// The parser of one polynomial.
pub open spec fn poly_parse() -> spec_fn(Seq<u8>) -> Option<(Seq<int>, Seq<u8>)> {
    |s: Seq<u8>| parse_poly(s)
}

/// A vector of polynomials on the wire: the count, then the polynomials.
pub open spec fn enc_poly_vec(v: Seq<Seq<int>>) -> Seq<u8> {
    le32(v.len() as int) + enc_items(v, poly_enc())
}

/// Reads a vector of polynomials.
pub open spec fn parse_poly_vec(s: Seq<u8>) -> Option<(Seq<Seq<int>>, Seq<u8>)> {
    match parse_u32(s) {
        Some((n, rest)) => parse_items(rest, n as nat, poly_parse()),
        None => None,
    }
}

/// A vector short enough for its count to fit 32 bits, of polynomials whose
/// coefficients fit 32 bits.
pub open spec fn poly_vec_fits(v: Seq<Seq<int>>) -> bool {
    &&& v.len() <= u32::MAX
    &&& forall|i: int| 0 <= i < v.len() ==> poly_fits(#[trigger] v[i])
}

/// A vector of polynomials is read back from the front of its encoding.
pub proof fn lemma_poly_vec_round_trip(v: Seq<Seq<int>>, rest: Seq<u8>)
    requires
        poly_vec_fits(v),
    ensures
        parse_poly_vec(enc_poly_vec(v) + rest) == Some((v, rest)),
{
    let body = enc_items(v, poly_enc()) + rest;
    assert(enc_poly_vec(v) + rest =~= le32(v.len() as int) + body);
    lemma_u32_round_trip(v.len() as int, body);
    assert forall|i: int, r: Seq<u8>| 0 <= i < v.len() implies #[trigger] poly_parse()(
        poly_enc()(v[i]) + r,
    ) == Some((v[i], r)) by {
        lemma_poly_round_trip(v[i], r);
    }
    lemma_items_round_trip(v, rest, poly_enc(), poly_parse());
}

/// Appends the encoding of a ring element.
pub fn put_ring_element(out: &mut Vec<u8>, e: &RingElement)
    ensures
        final(out)@ == old(out)@ + enc_poly(e@),
        poly_fits(e@),
{
    let ghost start = out@;
    let mut k: usize = 0;
    assert(e@.take(0) =~= Seq::<int>::empty());
    while k < N
        invariant
            k <= N,
            out@ == start + enc_items(e@.take(k as int), word_enc()),
        decreases N - k,
    {
        put_u32(out, e.coeffs[k]);
        proof {
            assert(e@[k as int] == e.coeffs[k as int]);
            lemma_enc_items_push(e@.take(k as int), e@[k as int], word_enc());
            assert(e@.take(k as int).push(e@[k as int]) =~= e@.take(k + 1));
            assert(out@ =~= start + enc_items(e@.take(k + 1), word_enc()));
        }
        k += 1;
    }
    assert(e@.take(N as int) =~= e@);
}

/// Appends the encoding of a ring vector.
pub fn put_ring_vector(out: &mut Vec<u8>, v: &RingVector)
    requires
        v.elements.len() <= u32::MAX,
    ensures
        final(out)@ == old(out)@ + enc_poly_vec(v@),
        poly_vec_fits(v@),
{
    let ghost start = out@;
    put_u32(out, v.elements.len() as u32);
    let ghost head = out@;
    let mut i: usize = 0;
    assert(v@.take(0) =~= Seq::<Seq<int>>::empty());
    while i < v.elements.len()
        invariant
            i <= v.elements.len(),
            head == start + le32(v@.len() as int),
            out@ == head + enc_items(v@.take(i as int), poly_enc()),
            forall|t: int| 0 <= t < i ==> poly_fits(#[trigger] v@[t]),
        decreases v.elements.len() - i,
    {
        put_ring_element(out, &v.elements[i]);
        proof {
            assert(v@[i as int] == v.elements[i as int]@);
            lemma_enc_items_push(v@.take(i as int), v@[i as int], poly_enc());
            assert(v@.take(i as int).push(v@[i as int]) =~= v@.take(i + 1));
            assert(out@ =~= head + enc_items(v@.take(i + 1), poly_enc()));
        }
        i += 1;
    }
    assert(v@.take(v@.len() as int) =~= v@);
    assert(out@ =~= start + enc_poly_vec(v@));
}

/// What a parse of the remaining items comes to, given the items already
/// read.
pub open spec fn resume<T>(done: Seq<T>, remaining: Option<(Seq<T>, Seq<u8>)>) -> Option<
    (Seq<T>, Seq<u8>),
> {
    match remaining {
        Some((xs, tail)) => Some((done + xs, tail)),
        None => None,
    }
}

/// One step of reading items: where the next item parses, reading goes on
/// behind it with one item more in hand; where it does not, reading fails.
pub proof fn lemma_parse_items_step<T>(
    done: Seq<T>,
    s: Seq<u8>,
    n: nat,
    parse: spec_fn(Seq<u8>) -> Option<(T, Seq<u8>)>,
)
    requires
        n > 0,
    ensures
        parse(s) matches Some((x, rest)) ==> resume(done, parse_items(s, n, parse)) == resume(
            done.push(x),
            parse_items(rest, (n - 1) as nat, parse),
        ),
        parse(s) is None ==> parse_items(s, n, parse) is None,
{
    match parse(s) {
        Some((x, rest)) => {
            match parse_items(rest, (n - 1) as nat, parse) {
                Some((xs, tail)) => {
                    assert(done + (seq![x] + xs) =~= done.push(x) + xs);
                },
                None => {},
            }
        },
        None => {},
    }
}

/// With nothing in hand, reading gives what the parse gives.
pub proof fn lemma_resume_nothing<T>(remaining: Option<(Seq<T>, Seq<u8>)>)
    ensures
        resume(Seq::<T>::empty(), remaining) == remaining,
{
    match remaining {
        Some((xs, tail)) => {
            assert(Seq::<T>::empty() + xs =~= xs);
        },
        None => {},
    }
}

/// Reading no items leaves what is in hand.
pub proof fn lemma_parse_items_done<T>(
    done: Seq<T>,
    s: Seq<u8>,
    parse: spec_fn(Seq<u8>) -> Option<(T, Seq<u8>)>,
)
    ensures
        resume(done, parse_items(s, 0, parse)) == Some((done, s)),
{
    assert(done + Seq::<T>::empty() =~= done);
}

/// Reads a little-endian 32-bit integer at `pos`; gives the integer and the
/// position behind it.
pub fn get_u32(bytes: &[u8], pos: usize) -> (res: Option<(u32, usize)>)
    requires
        pos <= bytes@.len(),
    ensures
        match parse_u32(bytes@.skip(pos as int)) {
            Some((x, rest)) => {
                &&& res matches Some((word, end))
                &&& word as int == x
                &&& end == pos + 4
                &&& end <= bytes@.len()
                &&& rest == bytes@.skip(end as int)
            },
            None => res is None,
        },
{
    if bytes.len() - pos < 4 {
        return None;
    }
    let word = slice_subrange(bytes, pos, pos + 4);
    let x = u32_from_le_bytes(word);
    proof {
        assert(bytes@.skip(pos as int).subrange(0, 4) =~= bytes@.subrange(pos as int, pos + 4));
        assert(bytes@.skip(pos as int).skip(4) =~= bytes@.skip(pos + 4));
    }
    Some((x, pos + 4))
}

/// Reads a ring element at `pos`; gives the element and the position behind
/// it.
pub fn get_ring_element(bytes: &[u8], pos: usize) -> (res: Option<(RingElement, usize)>)
    requires
        pos <= bytes@.len(),
    ensures
        match parse_poly(bytes@.skip(pos as int)) {
            Some((p, rest)) => {
                &&& res matches Some((e, end))
                &&& e@ == p
                &&& pos <= end <= bytes@.len()
                &&& rest == bytes@.skip(end as int)
            },
            None => res is None,
        },
{
    let ghost whole = parse_poly(bytes@.skip(pos as int));
    let mut coeffs = [0u32; 256];
    let mut cur: usize = pos;
    let mut k: usize = 0;
    proof {
        assert(Seq::new(0, |i: int| coeffs[i] as int) =~= Seq::<int>::empty());
        lemma_resume_nothing(parse_items(bytes@.skip(cur as int), N as nat, word_parse()));
    }
    while k < N
        invariant
            k <= N,
            pos <= cur <= bytes@.len(),
            whole == parse_poly(bytes@.skip(pos as int)),
            whole == resume(
                Seq::new(k as nat, |i: int| coeffs[i] as int),
                parse_items(bytes@.skip(cur as int), (N - k) as nat, word_parse()),
            ),
        decreases N - k,
    {
        let ghost done = Seq::new(k as nat, |i: int| coeffs[i] as int);
        proof {
            lemma_parse_items_step(done, bytes@.skip(cur as int), (N - k) as nat, word_parse());
        }
        match get_u32(bytes, cur) {
            None => {
                return None;
            },
            Some((x, next)) => {
                coeffs[k] = x;
                proof {
                    let s = bytes@.skip(cur as int);
                    assert(word_parse()(s) == Some((x as int, bytes@.skip(next as int))));
                    assert(Seq::new((k + 1) as nat, |i: int| coeffs[i] as int) =~= done.push(
                        x as int,
                    ));
                }
                cur = next;
                k += 1;
            },
        }
    }
    let e = RingElement { coeffs };
    proof {
        lemma_parse_items_done(e@, bytes@.skip(cur as int), word_parse());
        assert(Seq::new(N as nat, |i: int| coeffs[i] as int) =~= e@);
    }
    Some((e, cur))
}

/// Reads a ring vector at `pos`; gives the vector and the position behind
/// it. Nothing is allocated for items that the bytes do not hold.
pub fn get_ring_vector(bytes: &[u8], pos: usize) -> (res: Option<(RingVector, usize)>)
    requires
        pos <= bytes@.len(),
    ensures
        match parse_poly_vec(bytes@.skip(pos as int)) {
            Some((v, rest)) => {
                &&& res matches Some((rv, end))
                &&& rv@ == v
                &&& pos <= end <= bytes@.len()
                &&& rest == bytes@.skip(end as int)
            },
            None => res is None,
        },
{
    let ghost whole = parse_poly_vec(bytes@.skip(pos as int));
    let header = get_u32(bytes, pos);
    if header.is_none() {
        return None;
    }
    let (count, start) = header.unwrap();
    let n: usize = count as usize;
    assert(parse_u32(bytes@.skip(pos as int)) == Some((n as int, bytes@.skip(start as int))));
    let mut elements: Vec<RingElement> = Vec::new();
    let mut cur: usize = start;
    let mut i: usize = 0;
    proof {
        assert(Seq::new(0, |t: int| elements[t]@) =~= Seq::<Seq<int>>::empty());
        lemma_resume_nothing(parse_items(bytes@.skip(cur as int), n as nat, poly_parse()));
    }
    while i < n
        invariant
            i <= n,
            elements.len() == i,
            pos <= cur <= bytes@.len(),
            whole == parse_poly_vec(bytes@.skip(pos as int)),
            whole == resume(
                Seq::new(i as nat, |t: int| elements[t]@),
                parse_items(bytes@.skip(cur as int), (n - i) as nat, poly_parse()),
            ),
        decreases n - i,
    {
        let ghost done = Seq::new(i as nat, |t: int| elements[t]@);
        proof {
            lemma_parse_items_step(done, bytes@.skip(cur as int), (n - i) as nat, poly_parse());
        }
        match get_ring_element(bytes, cur) {
            None => {
                return None;
            },
            Some((e, next)) => {
                elements.push(e);
                proof {
                    let s = bytes@.skip(cur as int);
                    assert(poly_parse()(s) == Some((e@, bytes@.skip(next as int))));
                    assert(Seq::new((i + 1) as nat, |t: int| elements[t]@) =~= done.push(e@));
                }
                cur = next;
                i += 1;
            },
        }
    }
    let rv = RingVector { elements };
    proof {
        lemma_parse_items_done(rv@, bytes@.skip(cur as int), poly_parse());
        assert(Seq::new(n as nat, |t: int| rv.elements[t]@) =~= rv@);
    }
    Some((rv, cur))
}

/// The encoder of one vector of polynomials.
pub open spec fn poly_vec_enc() -> spec_fn(Seq<Seq<int>>) -> Seq<u8> {
    |v: Seq<Seq<int>>| enc_poly_vec(v)
}

/// The parser of one vector of polynomials.
pub open spec fn poly_vec_parse() -> spec_fn(Seq<u8>) -> Option<(Seq<Seq<int>>, Seq<u8>)> {
    |s: Seq<u8>| parse_poly_vec(s)
}

/// A bit proof on the wire: commitment, randomness, then the bit as one
/// byte.
pub open spec fn enc_bit_proof(p: BitProofView) -> Seq<u8> {
    enc_poly_vec(p.commitment) + enc_poly_vec(p.response_r) + seq![p.response_b as u8]
}

/// Reads a bit proof.
pub open spec fn parse_bit_proof(s: Seq<u8>) -> Option<(BitProofView, Seq<u8>)> {
    match parse_poly_vec(s) {
        Some((commitment, s1)) => match parse_poly_vec(s1) {
            Some((response_r, s2)) => if s2.len() >= 1 {
                Some(
                    (
                        BitProofView { commitment, response_r, response_b: s2[0] as int },
                        s2.skip(1),
                    ),
                )
            } else {
                None
            },
            None => None,
        },
        None => None,
    }
}

/// A bit proof whose parts fit their fields on the wire.
pub open spec fn bit_proof_fits(p: BitProofView) -> bool {
    &&& poly_vec_fits(p.commitment)
    &&& poly_vec_fits(p.response_r)
    &&& 0 <= p.response_b <= u8::MAX
}

/// A bit proof is read back from the front of its encoding.
pub proof fn lemma_bit_proof_round_trip(p: BitProofView, rest: Seq<u8>)
    requires
        bit_proof_fits(p),
    ensures
        parse_bit_proof(enc_bit_proof(p) + rest) == Some((p, rest)),
{
    let s2 = seq![p.response_b as u8] + rest;
    let s1 = enc_poly_vec(p.response_r) + s2;
    assert(enc_bit_proof(p) + rest =~= enc_poly_vec(p.commitment) + s1);
    lemma_poly_vec_round_trip(p.commitment, s1);
    lemma_poly_vec_round_trip(p.response_r, s2);
    assert(s2[0] as int == p.response_b);
    assert(s2.skip(1) =~= rest);
}

/// The encoder of one bit proof.
pub open spec fn bit_proof_enc() -> spec_fn(BitProofView) -> Seq<u8> {
    |p: BitProofView| enc_bit_proof(p)
}

/// The parser of one bit proof.
pub open spec fn bit_proof_parse() -> spec_fn(Seq<u8>) -> Option<(BitProofView, Seq<u8>)> {
    |s: Seq<u8>| parse_bit_proof(s)
}

/// A range proof on the wire: the bit commitments as a vector, then the bit
/// proofs as a vector.
pub open spec fn enc_range_proof(p: RangeProofView) -> Seq<u8> {
    le32(p.bit_commitments.len() as int) + enc_items(p.bit_commitments, poly_vec_enc()) + le32(
        p.bit_proofs.len() as int,
    ) + enc_items(p.bit_proofs, bit_proof_enc())
}

/// Reads a range proof.
pub open spec fn parse_range_proof(s: Seq<u8>) -> Option<(RangeProofView, Seq<u8>)> {
    match parse_u32(s) {
        Some((n, s1)) => match parse_items(s1, n as nat, poly_vec_parse()) {
            Some((bit_commitments, s2)) => match parse_u32(s2) {
                Some((m, s3)) => match parse_items(s3, m as nat, bit_proof_parse()) {
                    Some((bit_proofs, s4)) => Some(
                        (RangeProofView { bit_commitments, bit_proofs }, s4),
                    ),
                    None => None,
                },
                None => None,
            },
            None => None,
        },
        None => None,
    }
}

/// A range proof whose parts fit their fields on the wire.
pub open spec fn range_proof_fits(p: RangeProofView) -> bool {
    &&& p.bit_commitments.len() <= u32::MAX
    &&& forall|i: int| 0 <= i < p.bit_commitments.len() ==> poly_vec_fits(#[trigger] p.bit_commitments[i])
    &&& p.bit_proofs.len() <= u32::MAX
    &&& forall|i: int| 0 <= i < p.bit_proofs.len() ==> bit_proof_fits(#[trigger] p.bit_proofs[i])
}

/// A range proof is read back from the front of its encoding.
pub proof fn lemma_range_proof_round_trip(p: RangeProofView, rest: Seq<u8>)
    requires
        range_proof_fits(p),
    ensures
        parse_range_proof(enc_range_proof(p) + rest) == Some((p, rest)),
{
    let s4 = rest;
    let s3 = enc_items(p.bit_proofs, bit_proof_enc()) + s4;
    let s2 = le32(p.bit_proofs.len() as int) + s3;
    let s1 = enc_items(p.bit_commitments, poly_vec_enc()) + s2;
    assert(enc_range_proof(p) + rest =~= le32(p.bit_commitments.len() as int) + s1);
    lemma_u32_round_trip(p.bit_commitments.len() as int, s1);
    assert forall|i: int, r: Seq<u8>| 0 <= i < p.bit_commitments.len() implies #[trigger] poly_vec_parse()(
        poly_vec_enc()(p.bit_commitments[i]) + r,
    ) == Some((p.bit_commitments[i], r)) by {
        lemma_poly_vec_round_trip(p.bit_commitments[i], r);
    }
    lemma_items_round_trip(p.bit_commitments, s2, poly_vec_enc(), poly_vec_parse());
    lemma_u32_round_trip(p.bit_proofs.len() as int, s3);
    assert forall|i: int, r: Seq<u8>| 0 <= i < p.bit_proofs.len() implies #[trigger] bit_proof_parse()(
        bit_proof_enc()(p.bit_proofs[i]) + r,
    ) == Some((p.bit_proofs[i], r)) by {
        lemma_bit_proof_round_trip(p.bit_proofs[i], r);
    }
    lemma_items_round_trip(p.bit_proofs, s4, bit_proof_enc(), bit_proof_parse());
}

/// The value that a whole byte string stands for: what parses from its
/// front, where nothing is left behind.
pub open spec fn decode_range_proof(s: Seq<u8>) -> Option<RangeProofView> {
    match parse_range_proof(s) {
        Some((p, rest)) => if rest.len() == 0 {
            Some(p)
        } else {
            None
        },
        None => None,
    }
}

/// Decoding the encoding of a range proof gives the range proof back.
pub proof fn lemma_range_proof_decodes(p: RangeProofView)
    requires
        range_proof_fits(p),
    ensures
        decode_range_proof(enc_range_proof(p)) == Some(p),
{
    lemma_range_proof_round_trip(p, Seq::empty());
    assert(enc_range_proof(p) + Seq::<u8>::empty() =~= enc_range_proof(p));
}

/// Appends the encoding of a bit proof.
pub fn put_bit_proof(out: &mut Vec<u8>, p: &BitProof)
    requires
        bit_proof_fits(p@),
    ensures
        final(out)@ == old(out)@ + enc_bit_proof(p@),
{
    let ghost start = out@;
    put_ring_vector(out, &p.commitment.c);
    put_ring_vector(out, &p.response_r.r);
    out.push(p.response_b);
    assert(out@ =~= start + enc_bit_proof(p@));
}

/// Appends the encoding of a range proof.
pub fn put_range_proof(out: &mut Vec<u8>, p: &LatticeRangeProof)
    requires
        range_proof_fits(p@),
    ensures
        final(out)@ == old(out)@ + enc_range_proof(p@),
{
    let ghost start = out@;
    let ghost view = p@;
    put_u32(out, p.bit_commitments.len() as u32);
    let ghost a0 = out@;
    let mut i: usize = 0;
    assert(view.bit_commitments.take(0) =~= Seq::<Seq<Seq<int>>>::empty());
    while i < p.bit_commitments.len()
        invariant
            i <= p.bit_commitments.len(),
            view == p@,
            range_proof_fits(view),
            out@ == a0 + enc_items(view.bit_commitments.take(i as int), poly_vec_enc()),
        decreases p.bit_commitments.len() - i,
    {
        proof {
            assert(view.bit_commitments[i as int] == p.bit_commitments[i as int]@);
            assert(poly_vec_fits(view.bit_commitments[i as int]));
        }
        put_ring_vector(out, &p.bit_commitments[i].c);
        proof {
            lemma_enc_items_push(
                view.bit_commitments.take(i as int),
                view.bit_commitments[i as int],
                poly_vec_enc(),
            );
            assert(view.bit_commitments.take(i as int).push(view.bit_commitments[i as int])
                =~= view.bit_commitments.take(i + 1));
            assert(out@ =~= a0 + enc_items(view.bit_commitments.take(i + 1), poly_vec_enc()));
        }
        i += 1;
    }
    assert(view.bit_commitments.take(view.bit_commitments.len() as int) =~= view.bit_commitments);
    let ghost a1 = out@;
    put_u32(out, p.bit_proofs.len() as u32);
    let ghost a2 = out@;
    let mut j: usize = 0;
    assert(view.bit_proofs.take(0) =~= Seq::<BitProofView>::empty());
    while j < p.bit_proofs.len()
        invariant
            j <= p.bit_proofs.len(),
            view == p@,
            range_proof_fits(view),
            out@ == a2 + enc_items(view.bit_proofs.take(j as int), bit_proof_enc()),
        decreases p.bit_proofs.len() - j,
    {
        proof {
            assert(view.bit_proofs[j as int] == p.bit_proofs[j as int]@);
            assert(bit_proof_fits(view.bit_proofs[j as int]));
        }
        put_bit_proof(out, &p.bit_proofs[j]);
        proof {
            lemma_enc_items_push(
                view.bit_proofs.take(j as int),
                view.bit_proofs[j as int],
                bit_proof_enc(),
            );
            assert(view.bit_proofs.take(j as int).push(view.bit_proofs[j as int])
                =~= view.bit_proofs.take(j + 1));
            assert(out@ =~= a2 + enc_items(view.bit_proofs.take(j + 1), bit_proof_enc()));
        }
        j += 1;
    }
    assert(view.bit_proofs.take(view.bit_proofs.len() as int) =~= view.bit_proofs);
    assert(out@ =~= start + enc_range_proof(view));
}

/// Reads a bit proof at `pos`; gives the proof and the position behind it.
pub fn get_bit_proof(bytes: &[u8], pos: usize) -> (res: Option<(BitProof, usize)>)
    requires
        pos <= bytes@.len(),
    ensures
        match parse_bit_proof(bytes@.skip(pos as int)) {
            Some((p, rest)) => {
                &&& res matches Some((bp, end))
                &&& bp@ == p
                &&& pos <= end <= bytes@.len()
                &&& rest == bytes@.skip(end as int)
            },
            None => res is None,
        },
{
    let first = get_ring_vector(bytes, pos);
    if first.is_none() {
        return None;
    }
    let (c, p1) = first.unwrap();
    let second = get_ring_vector(bytes, p1);
    if second.is_none() {
        return None;
    }
    let (r, p2) = second.unwrap();
    if bytes.len() - p2 < 1 {
        return None;
    }
    let b = bytes[p2];
    proof {
        assert(bytes@.skip(p2 as int)[0] == bytes@[p2 as int]);
        assert(bytes@.skip(p2 as int).skip(1) =~= bytes@.skip(p2 + 1));
    }
    let bp = BitProof {
        commitment: LatticeCommitment { c },
        response_r: LatticeRandVec { r },
        response_b: b,
    };
    Some((bp, p2 + 1))
}

/// Reads a range proof at `pos`; gives the proof and the position behind
/// it. Nothing is allocated for items that the bytes do not hold.
pub fn get_range_proof(bytes: &[u8], pos: usize) -> (res: Option<(LatticeRangeProof, usize)>)
    requires
        pos <= bytes@.len(),
    ensures
        match parse_range_proof(bytes@.skip(pos as int)) {
            Some((p, rest)) => {
                &&& res matches Some((rp, end))
                &&& rp@ == p
                &&& pos <= end <= bytes@.len()
                &&& rest == bytes@.skip(end as int)
            },
            None => res is None,
        },
{
    let ghost whole = parse_range_proof(bytes@.skip(pos as int));
    let head = get_u32(bytes, pos);
    if head.is_none() {
        return None;
    }
    let (count, start) = head.unwrap();
    let n: usize = count as usize;
    let mut bit_commitments: Vec<LatticeCommitment> = Vec::new();
    let mut cur: usize = start;
    let mut i: usize = 0;
    let ghost first = parse_items(bytes@.skip(start as int), n as nat, poly_vec_parse());
    proof {
        assert(Seq::new(0, |t: int| bit_commitments[t]@) =~= Seq::<Seq<Seq<int>>>::empty());
        lemma_resume_nothing(first);
    }
    while i < n
        invariant
            i <= n,
            bit_commitments.len() == i,
            pos <= cur <= bytes@.len(),
            first == resume(
                Seq::new(i as nat, |t: int| bit_commitments[t]@),
                parse_items(bytes@.skip(cur as int), (n - i) as nat, poly_vec_parse()),
            ),
            whole == parse_range_proof(bytes@.skip(pos as int)),
            first is None ==> whole is None,
        decreases n - i,
    {
        let ghost done = Seq::new(i as nat, |t: int| bit_commitments[t]@);
        proof {
            lemma_parse_items_step(done, bytes@.skip(cur as int), (n - i) as nat, poly_vec_parse());
        }
        match get_ring_vector(bytes, cur) {
            None => {
                return None;
            },
            Some((c, next)) => {
                bit_commitments.push(LatticeCommitment { c });
                proof {
                    let s = bytes@.skip(cur as int);
                    assert(poly_vec_parse()(s) == Some((c@, bytes@.skip(next as int))));
                    assert(Seq::new((i + 1) as nat, |t: int| bit_commitments[t]@) =~= done.push(
                        c@,
                    ));
                }
                cur = next;
                i += 1;
            },
        }
    }
    let ghost cs = Seq::new(n as nat, |t: int| bit_commitments[t]@);
    proof {
        lemma_parse_items_done(cs, bytes@.skip(cur as int), poly_vec_parse());
        assert(first == Some((cs, bytes@.skip(cur as int))));
    }
    let mid = get_u32(bytes, cur);
    if mid.is_none() {
        return None;
    }
    let (count2, start2) = mid.unwrap();
    let m: usize = count2 as usize;
    let mut bit_proofs: Vec<BitProof> = Vec::new();
    let mut cur2: usize = start2;
    let mut j: usize = 0;
    let ghost second = parse_items(bytes@.skip(start2 as int), m as nat, bit_proof_parse());
    proof {
        assert(Seq::new(0, |t: int| bit_proofs[t]@) =~= Seq::<BitProofView>::empty());
        lemma_resume_nothing(second);
    }
    while j < m
        invariant
            j <= m,
            bit_proofs.len() == j,
            pos <= cur2 <= bytes@.len(),
            second == resume(
                Seq::new(j as nat, |t: int| bit_proofs[t]@),
                parse_items(bytes@.skip(cur2 as int), (m - j) as nat, bit_proof_parse()),
            ),
            whole == parse_range_proof(bytes@.skip(pos as int)),
            second is None ==> whole is None,
        decreases m - j,
    {
        let ghost done = Seq::new(j as nat, |t: int| bit_proofs[t]@);
        proof {
            lemma_parse_items_step(
                done,
                bytes@.skip(cur2 as int),
                (m - j) as nat,
                bit_proof_parse(),
            );
        }
        match get_bit_proof(bytes, cur2) {
            None => {
                return None;
            },
            Some((bp, next)) => {
                bit_proofs.push(bp);
                proof {
                    let s = bytes@.skip(cur2 as int);
                    assert(bit_proof_parse()(s) == Some((bp@, bytes@.skip(next as int))));
                    assert(Seq::new((j + 1) as nat, |t: int| bit_proofs[t]@) =~= done.push(bp@));
                }
                cur2 = next;
                j += 1;
            },
        }
    }
    let ghost ps = Seq::new(m as nat, |t: int| bit_proofs[t]@);
    proof {
        lemma_parse_items_done(ps, bytes@.skip(cur2 as int), bit_proof_parse());
        assert(second == Some((ps, bytes@.skip(cur2 as int))));
    }
    let rp = LatticeRangeProof { bit_commitments, bit_proofs };
    proof {
        assert(rp@.bit_commitments =~= cs);
        assert(rp@.bit_proofs =~= ps);
    }
    Some((rp, cur2))
}

/// Where an item parser reads nothing but encodings of fitting items, so
/// does the reading of `n` items: what it consumed is the encoding of what
/// it gives.
pub proof fn lemma_items_canonical<T>(
    s: Seq<u8>,
    n: nat,
    enc: spec_fn(T) -> Seq<u8>,
    parse: spec_fn(Seq<u8>) -> Option<(T, Seq<u8>)>,
    fits: spec_fn(T) -> bool,
)
    requires
        forall|t: Seq<u8>|
            (#[trigger] parse(t)) matches Some((x, r)) ==> t == enc(x) + r && fits(x),
    ensures
        parse_items(s, n, parse) matches Some((xs, rest)) ==> {
            &&& xs.len() == n
            &&& s == enc_items(xs, enc) + rest
            &&& forall|i: int| 0 <= i < xs.len() ==> fits(#[trigger] xs[i])
        },
    decreases n,
{
    if n == 0 {
        assert(s =~= enc_items(Seq::<T>::empty(), enc) + s);
    } else {
        match parse(s) {
            Some((x, r)) => {
                lemma_items_canonical(r, (n - 1) as nat, enc, parse, fits);
                match parse_items(r, (n - 1) as nat, parse) {
                    Some((xs, rest)) => {
                        let all = seq![x] + xs;
                        assert(all[0] == x);
                        assert(all.skip(1) =~= xs);
                        assert(s =~= enc_items(all, enc) + rest);
                        assert forall|i: int| 0 <= i < all.len() implies fits(#[trigger] all[i]) by {
                            if i > 0 {
                                assert(all[i] == xs[i - 1]);
                            }
                        }
                    },
                    None => {},
                }
            },
            None => {},
        }
    }
}

/// What reads as a 32-bit integer starts with that integer's encoding.
pub proof fn lemma_u32_canonical(s: Seq<u8>)
    ensures
        parse_u32(s) matches Some((x, r)) ==> s == le32(x) + r && is_word(x),
{
    lemma_auto_spec_u32_to_from_le_bytes();
    if s.len() >= 4 {
        let head = s.subrange(0, 4);
        assert(spec_u32_to_le_bytes(spec_u32_from_le_bytes(head)) == head);
        assert(s =~= head + s.skip(4));
    }
}

/// Whether a coefficient fits 32 bits, as a predicate on items.
pub open spec fn word_fits() -> spec_fn(int) -> bool {
    |x: int| is_word(x)
}

/// What reads as a polynomial starts with that polynomial's encoding.
pub proof fn lemma_poly_canonical(s: Seq<u8>)
    ensures
        parse_poly(s) matches Some((p, r)) ==> s == enc_poly(p) + r && poly_fits(p),
{
    assert forall|t: Seq<u8>|
        ((#[trigger] word_parse()(t)) matches Some((x, r)) ==> t == word_enc()(x) + r
            && word_fits()(x)) by {
        lemma_u32_canonical(t);
    }
    lemma_items_canonical(s, N as nat, word_enc(), word_parse(), word_fits());
    match parse_poly(s) {
        Some((p, r)) => {
            assert forall|i: int| 0 <= i < N implies is_word(#[trigger] p[i]) by {
                assert(word_fits()(p[i]));
            }
        },
        None => {},
    }
}

/// Whether a polynomial fits the wire, as a predicate on items.
pub open spec fn poly_fits_fn() -> spec_fn(Seq<int>) -> bool {
    |p: Seq<int>| poly_fits(p)
}

/// What reads as a vector of polynomials starts with that vector's
/// encoding.
pub proof fn lemma_poly_vec_canonical(s: Seq<u8>)
    ensures
        parse_poly_vec(s) matches Some((v, r)) ==> s == enc_poly_vec(v) + r && poly_vec_fits(v),
{
    lemma_u32_canonical(s);
    match parse_u32(s) {
        Some((n, s1)) => {
            assert forall|t: Seq<u8>|
                ((#[trigger] poly_parse()(t)) matches Some((x, r)) ==> t == poly_enc()(x) + r
                    && poly_fits_fn()(x)) by {
                lemma_poly_canonical(t);
            }
            lemma_items_canonical(s1, n as nat, poly_enc(), poly_parse(), poly_fits_fn());
            match parse_items(s1, n as nat, poly_parse()) {
                Some((v, r)) => {
                    assert(s =~= enc_poly_vec(v) + r);
                    assert forall|i: int| 0 <= i < v.len() implies poly_fits(#[trigger] v[i]) by {
                        assert(poly_fits_fn()(v[i]));
                    }
                },
                None => {},
            }
        },
        None => {},
    }
}

/// What reads as a bit proof starts with that bit proof's encoding.
pub proof fn lemma_bit_proof_canonical(s: Seq<u8>)
    ensures
        parse_bit_proof(s) matches Some((p, r)) ==> s == enc_bit_proof(p) + r && bit_proof_fits(p),
{
    lemma_poly_vec_canonical(s);
    match parse_poly_vec(s) {
        Some((c, s1)) => {
            lemma_poly_vec_canonical(s1);
            match parse_poly_vec(s1) {
                Some((rr, s2)) => {
                    if s2.len() >= 1 {
                        assert(s2 =~= seq![s2[0]] + s2.skip(1));
                        let p = BitProofView {
                            commitment: c,
                            response_r: rr,
                            response_b: s2[0] as int,
                        };
                        assert((p.response_b as u8) == s2[0]);
                        assert(s =~= enc_bit_proof(p) + s2.skip(1));
                    }
                },
                None => {},
            }
        },
        None => {},
    }
}

/// Whether a vector of polynomials fits the wire, as a predicate on items.
pub open spec fn poly_vec_fits_fn() -> spec_fn(Seq<Seq<int>>) -> bool {
    |v: Seq<Seq<int>>| poly_vec_fits(v)
}

/// Whether a bit proof fits the wire, as a predicate on items.
pub open spec fn bit_proof_fits_fn() -> spec_fn(BitProofView) -> bool {
    |p: BitProofView| bit_proof_fits(p)
}

/// What reads as a range proof starts with that range proof's encoding.
pub proof fn lemma_range_proof_canonical(s: Seq<u8>)
    ensures
        parse_range_proof(s) matches Some((p, r)) ==> s == enc_range_proof(p) + r
            && range_proof_fits(p),
{
    lemma_u32_canonical(s);
    match parse_u32(s) {
        Some((n, s1)) => {
            assert forall|t: Seq<u8>|
                ((#[trigger] poly_vec_parse()(t)) matches Some((x, r)) ==> t == poly_vec_enc()(x)
                    + r && poly_vec_fits_fn()(x)) by {
                lemma_poly_vec_canonical(t);
            }
            lemma_items_canonical(
                s1,
                n as nat,
                poly_vec_enc(),
                poly_vec_parse(),
                poly_vec_fits_fn(),
            );
            match parse_items(s1, n as nat, poly_vec_parse()) {
                Some((cs, s2)) => {
                    lemma_u32_canonical(s2);
                    match parse_u32(s2) {
                        Some((m, s3)) => {
                            assert forall|t: Seq<u8>|
                                ((#[trigger] bit_proof_parse()(t)) matches Some((x, r)) ==> t
                                    == bit_proof_enc()(x) + r && bit_proof_fits_fn()(x)) by {
                                lemma_bit_proof_canonical(t);
                            }
                            lemma_items_canonical(
                                s3,
                                m as nat,
                                bit_proof_enc(),
                                bit_proof_parse(),
                                bit_proof_fits_fn(),
                            );
                            match parse_items(s3, m as nat, bit_proof_parse()) {
                                Some((ps, s4)) => {
                                    let p = RangeProofView { bit_commitments: cs, bit_proofs: ps };
                                    assert(s =~= enc_range_proof(p) + s4);
                                    assert forall|i: int|
                                        0 <= i < cs.len() implies poly_vec_fits(#[trigger] cs[i]) by {
                                        assert(poly_vec_fits_fn()(cs[i]));
                                    }
                                    assert forall|i: int|
                                        0 <= i < ps.len() implies bit_proof_fits(#[trigger] ps[i]) by {
                                        assert(bit_proof_fits_fn()(ps[i]));
                                    }
                                },
                                None => {},
                            }
                        },
                        None => {},
                    }
                },
                None => {},
            }
        },
        None => {},
    }
}

/// Only the encoding of a range proof decodes to it: decoding accepts
/// canonical bytes alone.
pub proof fn lemma_range_proof_decoded_is_canonical(s: Seq<u8>)
    ensures
        decode_range_proof(s) matches Some(p) ==> s == enc_range_proof(p) && range_proof_fits(p),
{
    lemma_range_proof_canonical(s);
    match parse_range_proof(s) {
        Some((p, rest)) => {
            if rest.len() == 0 {
                assert(enc_range_proof(p) + rest =~= enc_range_proof(p));
            }
        },
        None => {},
    }
}

} // verus!
