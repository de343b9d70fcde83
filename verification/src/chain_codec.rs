//! The canonical layout of transactions, headers and blocks.

use vstd::prelude::*;
use vstd::array::array_fill_for_copy_types;
use vstd::bytes::{
    lemma_auto_spec_u64_to_from_le_bytes,
    spec_u64_from_le_bytes,
    spec_u64_to_le_bytes,
    u64_from_le_bytes,
};
use vstd::slice::slice_subrange;
use crate::block::{Block, BlockHeader, BlockHeaderView, BlockView};
use crate::codec::{
    enc_items,
    enc_poly_vec,
    enc_range_proof,
    get_range_proof,
    get_ring_vector,
    get_u32,
    lemma_enc_items_push,
    lemma_items_round_trip,
    lemma_items_canonical,
    lemma_parse_items_done,
    lemma_parse_items_step,
    lemma_poly_vec_canonical,
    lemma_poly_vec_round_trip,
    lemma_range_proof_canonical,
    lemma_range_proof_round_trip,
    lemma_resume_nothing,
    lemma_u32_canonical,
    lemma_u32_round_trip,
    parse_items,
    parse_poly_vec,
    parse_range_proof,
    parse_u32,
    put_range_proof,
    put_ring_vector,
    resume,
};
use crate::lattice::commitment::LatticeCommitment;
use crate::mldsa::MlDsa65Signature;
use crate::transaction::{tx_fits, tx_preimage, Transaction, TransactionView};
use crate::wire::{le32, le64, put_bytes, put_u32, put_u64};
use crate::block::enc_header;
use crate::xcqa_sig::{
    enc_signature,
    get_signature,
    lemma_signature_canonical,
    lemma_signature_round_trip,
    parse_signature,
    signature_fits,
};

verus! {

/// Reads `n` bytes as they stand.
pub open spec fn parse_fixed(s: Seq<u8>, n: nat) -> Option<(Seq<u8>, Seq<u8>)> {
    if s.len() >= n {
        Some((s.take(n as int), s.skip(n as int)))
    } else {
        None
    }
}

/// A run of bytes is read back from the front of itself.
pub proof fn lemma_fixed_round_trip(b: Seq<u8>, rest: Seq<u8>)
    ensures
        parse_fixed(b + rest, b.len()) == Some((b, rest)),
{
    assert((b + rest).take(b.len() as int) =~= b);
    assert((b + rest).skip(b.len() as int) =~= rest);
}

/// Reads a little-endian 64-bit integer.
pub open spec fn parse_u64(s: Seq<u8>) -> Option<(u64, Seq<u8>)> {
    if s.len() >= 8 {
        Some((spec_u64_from_le_bytes(s.subrange(0, 8)), s.skip(8)))
    } else {
        None
    }
}

/// A 64-bit integer is read back from the front of its encoding.
pub proof fn lemma_u64_round_trip(x: u64, rest: Seq<u8>)
    ensures
        le64(x).len() == 8,
        parse_u64(le64(x) + rest) == Some((x, rest)),
{
    lemma_auto_spec_u64_to_from_le_bytes();
    let s = le64(x) + rest;
    assert(s.subrange(0, 8) =~= le64(x));
    assert(s.skip(8) =~= rest);
}

/// Reads a little-endian 64-bit integer at `pos`.
pub fn get_u64(bytes: &[u8], pos: usize) -> (res: Option<(u64, usize)>)
    requires
        pos <= bytes@.len(),
    ensures
        match parse_u64(bytes@.skip(pos as int)) {
            Some((x, rest)) => {
                &&& res matches Some((word, end))
                &&& word == x
                &&& end == pos + 8
                &&& end <= bytes@.len()
                &&& rest == bytes@.skip(end as int)
            },
            None => res is None,
        },
{
    if bytes.len() - pos < 8 {
        return None;
    }
    let word = slice_subrange(bytes, pos, pos + 8);
    let x = u64_from_le_bytes(word);
    proof {
        assert(bytes@.skip(pos as int).subrange(0, 8) =~= bytes@.subrange(pos as int, pos + 8));
        assert(bytes@.skip(pos as int).skip(8) =~= bytes@.skip(pos + 8));
    }
    Some((x, pos + 8))
}

/// Reads `N` bytes at `pos` into an array.
pub fn get_array<const N: usize>(bytes: &[u8], pos: usize) -> (res: Option<([u8; N], usize)>)
    requires
        pos <= bytes@.len(),
    ensures
        match parse_fixed(bytes@.skip(pos as int), N as nat) {
            Some((run, rest)) => {
                &&& res matches Some((arr, end))
                &&& arr@ == run
                &&& end == pos + N
                &&& end <= bytes@.len()
                &&& rest == bytes@.skip(end as int)
            },
            None => res is None,
        },
{
    let len = bytes.len();
    if len - pos < N {
        return None;
    }
    let mut arr: [u8; N] = array_fill_for_copy_types(0u8);
    let mut i: usize = 0;
    while i < N
        invariant
            i <= N,
            len == bytes@.len(),
            pos + N <= len,
            forall|k: int| 0 <= k < i ==> #[trigger] arr[k] == bytes[pos + k],
        decreases N - i,
    {
        arr[i] = bytes[pos + i];
        i += 1;
    }
    proof {
        assert(arr@ =~= bytes@.skip(pos as int).take(N as int));
        assert(bytes@.skip(pos as int).skip(N as int) =~= bytes@.skip(pos + N));
    }
    Some((arr, pos + N))
}

/// A transaction on the wire: the bytes its signature covers, then the
/// signature.
pub open spec fn enc_tx(tx: TransactionView) -> Seq<u8> {
    tx_preimage(tx) + tx.signature
}

/// Reads a transaction.
pub open spec fn parse_tx(s: Seq<u8>) -> Option<(TransactionView, Seq<u8>)> {
    match parse_fixed(s, 32) {
        Some((sender, s1)) => match parse_fixed(s1, 32) {
            Some((recipient, s2)) => match parse_poly_vec(s2) {
                Some((amount_commitment, s3)) => match parse_range_proof(s3) {
                    Some((range_proof, s4)) => match parse_u64(s4) {
                        Some((nonce, s5)) => match parse_fixed(s5, 3309) {
                            Some((signature, s6)) => Some(
                                (
                                    TransactionView {
                                        sender,
                                        recipient,
                                        amount_commitment,
                                        range_proof,
                                        nonce,
                                        signature,
                                    },
                                    s6,
                                ),
                            ),
                            None => None,
                        },
                        None => None,
                    },
                    None => None,
                },
                None => None,
            },
            None => None,
        },
        None => None,
    }
}

/// A transaction whose fields have their sizes and whose counts fit their
/// prefixes.
pub open spec fn tx_wire_ok(tx: TransactionView) -> bool {
    &&& tx.sender.len() == 32
    &&& tx.recipient.len() == 32
    &&& tx.signature.len() == 3309
    &&& tx_fits(tx)
}

/// A transaction is read back from the front of its encoding.
pub proof fn lemma_tx_round_trip(tx: TransactionView, rest: Seq<u8>)
    requires
        tx_wire_ok(tx),
    ensures
        parse_tx(enc_tx(tx) + rest) == Some((tx, rest)),
{
    let s6 = rest;
    let s5 = tx.signature + s6;
    let s4 = le64(tx.nonce) + s5;
    let s3 = enc_range_proof(tx.range_proof) + s4;
    let s2 = enc_poly_vec(tx.amount_commitment) + s3;
    let s1 = tx.recipient + s2;
    assert(enc_tx(tx) + rest =~= tx.sender + s1);
    lemma_fixed_round_trip(tx.sender, s1);
    lemma_fixed_round_trip(tx.recipient, s2);
    lemma_poly_vec_round_trip(tx.amount_commitment, s3);
    lemma_range_proof_round_trip(tx.range_proof, s4);
    lemma_u64_round_trip(tx.nonce, s5);
    lemma_fixed_round_trip(tx.signature, s6);
}

/// Appends the encoding of a transaction.
pub fn put_transaction(out: &mut Vec<u8>, tx: &Transaction)
    requires
        tx_fits(tx@),
    ensures
        final(out)@ == old(out)@ + enc_tx(tx@),
        tx_wire_ok(tx@),
{
    let ghost start = out@;
    put_bytes(out, tx.sender.as_slice());
    put_bytes(out, tx.recipient.as_slice());
    put_ring_vector(out, &tx.amount_commitment.c);
    put_range_proof(out, &tx.range_proof);
    put_u64(out, tx.nonce);
    put_bytes(out, tx.signature.0.as_slice());
    assert(out@ =~= start + enc_tx(tx@));
}

/// Reads a transaction at `pos`.
pub fn get_transaction(bytes: &[u8], pos: usize) -> (res: Option<(Transaction, usize)>)
    requires
        pos <= bytes@.len(),
    ensures
        match parse_tx(bytes@.skip(pos as int)) {
            Some((v, rest)) => {
                &&& res matches Some((tx, end))
                &&& tx@ == v
                &&& pos <= end <= bytes@.len()
                &&& rest == bytes@.skip(end as int)
            },
            None => res is None,
        },
{
    let a = get_array::<32>(bytes, pos);
    if a.is_none() {
        return None;
    }
    let (sender, p1) = a.unwrap();
    let b = get_array::<32>(bytes, p1);
    if b.is_none() {
        return None;
    }
    let (recipient, p2) = b.unwrap();
    let c = get_ring_vector(bytes, p2);
    if c.is_none() {
        return None;
    }
    let (amount, p3) = c.unwrap();
    let d = get_range_proof(bytes, p3);
    if d.is_none() {
        return None;
    }
    let (range_proof, p4) = d.unwrap();
    let e = get_u64(bytes, p4);
    if e.is_none() {
        return None;
    }
    let (nonce, p5) = e.unwrap();
    let f = get_array::<3309>(bytes, p5);
    if f.is_none() {
        return None;
    }
    let (signature, p6) = f.unwrap();
    let tx = Transaction {
        sender,
        recipient,
        amount_commitment: LatticeCommitment { c: amount },
        range_proof,
        nonce,
        signature: MlDsa65Signature(signature),
    };
    Some((tx, p6))
}

/// Reads a header.
pub open spec fn parse_header(s: Seq<u8>) -> Option<(BlockHeaderView, Seq<u8>)> {
    match parse_u64(s) {
        Some((height, s1)) => match parse_fixed(s1, 64) {
            Some((prev_hash, s2)) => match parse_u64(s2) {
                Some((timestamp, s3)) => if s3.len() >= 2 {
                    Some(
                        (
                            BlockHeaderView {
                                height,
                                prev_hash,
                                timestamp,
                                difficulty_tier: s3[0],
                                fine_difficulty: s3[1],
                            },
                            s3.skip(2),
                        ),
                    )
                } else {
                    None
                },
                None => None,
            },
            None => None,
        },
        None => None,
    }
}

/// A header whose previous hash has its size.
pub open spec fn header_wire_ok(h: BlockHeaderView) -> bool {
    h.prev_hash.len() == 64
}

/// A header is read back from the front of its encoding.
pub proof fn lemma_header_round_trip(h: BlockHeaderView, rest: Seq<u8>)
    requires
        header_wire_ok(h),
    ensures
        parse_header(enc_header(h) + rest) == Some((h, rest)),
{
    let s3 = seq![h.difficulty_tier] + seq![h.fine_difficulty] + rest;
    let s2 = le64(h.timestamp) + s3;
    let s1 = h.prev_hash + s2;
    assert(enc_header(h) + rest =~= le64(h.height) + s1);
    lemma_u64_round_trip(h.height, s1);
    lemma_fixed_round_trip(h.prev_hash, s2);
    lemma_u64_round_trip(h.timestamp, s3);
    assert(s3[0] == h.difficulty_tier);
    assert(s3[1] == h.fine_difficulty);
    assert(s3.skip(2) =~= rest);
}

/// Appends the encoding of a header.
pub fn put_header(out: &mut Vec<u8>, h: &BlockHeader)
    ensures
        final(out)@ == old(out)@ + enc_header(h@),
        header_wire_ok(h@),
{
    let ghost start = out@;
    put_u64(out, h.height);
    put_bytes(out, h.prev_hash.as_slice());
    put_u64(out, h.timestamp);
    out.push(h.difficulty_tier);
    out.push(h.fine_difficulty);
    assert(out@ =~= start + enc_header(h@));
}

/// Reads a header at `pos`.
pub fn get_header(bytes: &[u8], pos: usize) -> (res: Option<(BlockHeader, usize)>)
    requires
        pos <= bytes@.len(),
    ensures
        match parse_header(bytes@.skip(pos as int)) {
            Some((v, rest)) => {
                &&& res matches Some((h, end))
                &&& h@ == v
                &&& pos <= end <= bytes@.len()
                &&& rest == bytes@.skip(end as int)
            },
            None => res is None,
        },
{
    let a = get_u64(bytes, pos);
    if a.is_none() {
        return None;
    }
    let (height, p1) = a.unwrap();
    let b = get_array::<64>(bytes, p1);
    if b.is_none() {
        return None;
    }
    let (prev_hash, p2) = b.unwrap();
    let c = get_u64(bytes, p2);
    if c.is_none() {
        return None;
    }
    let (timestamp, p3) = c.unwrap();
    let len = bytes.len();
    if len - p3 < 2 {
        return None;
    }
    let difficulty_tier = bytes[p3];
    let fine_difficulty = bytes[p3 + 1];
    proof {
        let s3 = bytes@.skip(p3 as int);
        assert(s3[0] == bytes@[p3 as int]);
        assert(s3[1] == bytes@[p3 + 1]);
        assert(s3.skip(2) =~= bytes@.skip(p3 + 2));
    }
    Some((BlockHeader { height, prev_hash, timestamp, difficulty_tier, fine_difficulty }, p3 + 2))
}

/// The encoder of one transaction.
pub open spec fn tx_enc() -> spec_fn(TransactionView) -> Seq<u8> {
    |tx: TransactionView| enc_tx(tx)
}

/// The parser of one transaction.
pub open spec fn tx_parse() -> spec_fn(Seq<u8>) -> Option<(TransactionView, Seq<u8>)> {
    |s: Seq<u8>| parse_tx(s)
}

/// A block on the wire: header, the transactions as a vector, the
/// proof-of-work signature, the nonce.
pub open spec fn enc_block(b: BlockView) -> Seq<u8> {
    enc_header(b.header) + le32(b.transactions.len() as int) + enc_items(b.transactions, tx_enc())
        + enc_signature(b.xcqa_sig) + b.xcqa_nonce
}

/// Reads a block.
pub open spec fn parse_block(s: Seq<u8>) -> Option<(BlockView, Seq<u8>)> {
    match parse_header(s) {
        Some((header, s1)) => match parse_u32(s1) {
            Some((n, s2)) => match parse_items(s2, n as nat, tx_parse()) {
                Some((transactions, s3)) => match parse_signature(s3) {
                    Some((xcqa_sig, s4)) => match parse_fixed(s4, 32) {
                        Some((xcqa_nonce, s5)) => Some(
                            (BlockView { header, transactions, xcqa_sig, xcqa_nonce }, s5),
                        ),
                        None => None,
                    },
                    None => None,
                },
                None => None,
            },
            None => None,
        },
        None => None,
    }
}

/// A block whose fields have their sizes and whose counts fit their
/// prefixes.
pub open spec fn block_wire_ok(b: BlockView) -> bool {
    &&& header_wire_ok(b.header)
    &&& b.transactions.len() <= u32::MAX
    &&& forall|i: int| 0 <= i < b.transactions.len() ==> tx_wire_ok(#[trigger] b.transactions[i])
    &&& signature_fits(b.xcqa_sig)
    &&& b.xcqa_nonce.len() == 32
}

/// A block is read back from the front of its encoding.
pub proof fn lemma_block_round_trip(b: BlockView, rest: Seq<u8>)
    requires
        block_wire_ok(b),
    ensures
        parse_block(enc_block(b) + rest) == Some((b, rest)),
{
    let s5 = rest;
    let s4 = b.xcqa_nonce + s5;
    let s3 = enc_signature(b.xcqa_sig) + s4;
    let s2 = enc_items(b.transactions, tx_enc()) + s3;
    let s1 = le32(b.transactions.len() as int) + s2;
    assert(enc_block(b) + rest =~= enc_header(b.header) + s1);
    lemma_header_round_trip(b.header, s1);
    lemma_u32_round_trip(b.transactions.len() as int, s2);
    assert forall|i: int, r: Seq<u8>| 0 <= i < b.transactions.len() implies #[trigger] tx_parse()(
        tx_enc()(b.transactions[i]) + r,
    ) == Some((b.transactions[i], r)) by {
        lemma_tx_round_trip(b.transactions[i], r);
    }
    lemma_items_round_trip(b.transactions, s3, tx_enc(), tx_parse());
    lemma_signature_round_trip(b.xcqa_sig, s4);
    lemma_fixed_round_trip(b.xcqa_nonce, s5);
}

/// Every count in the block fits its 32-bit prefix on the wire.
pub open spec fn block_fits(b: BlockView) -> bool {
    &&& b.transactions.len() <= u32::MAX
    &&& forall|i: int| 0 <= i < b.transactions.len() ==> tx_fits(#[trigger] b.transactions[i])
    &&& signature_fits(b.xcqa_sig)
}

/// Appends the encoding of a block.
pub fn put_block(out: &mut Vec<u8>, b: &Block)
    requires
        block_fits(b@),
    ensures
        final(out)@ == old(out)@ + enc_block(b@),
        block_wire_ok(b@),
{
    let ghost start = out@;
    let ghost view = b@;
    put_header(out, &b.header);
    put_u32(out, b.transactions.len() as u32);
    let ghost a0 = out@;
    let mut i: usize = 0;
    assert(view.transactions.take(0) =~= Seq::<TransactionView>::empty());
    while i < b.transactions.len()
        invariant
            i <= b.transactions.len(),
            view == b@,
            block_fits(view),
            out@ == a0 + enc_items(view.transactions.take(i as int), tx_enc()),
            forall|t: int| 0 <= t < i ==> tx_wire_ok(#[trigger] view.transactions[t]),
        decreases b.transactions.len() - i,
    {
        proof {
            assert(view.transactions[i as int] == b.transactions[i as int]@);
            assert(tx_fits(view.transactions[i as int]));
        }
        put_transaction(out, &b.transactions[i]);
        proof {
            lemma_enc_items_push(
                view.transactions.take(i as int),
                view.transactions[i as int],
                tx_enc(),
            );
            assert(view.transactions.take(i as int).push(view.transactions[i as int])
                =~= view.transactions.take(i + 1));
            assert(out@ =~= a0 + enc_items(view.transactions.take(i + 1), tx_enc()));
        }
        i += 1;
    }
    assert(view.transactions.take(view.transactions.len() as int) =~= view.transactions);
    let sig_bytes = b.xcqa_sig.to_bytes();
    put_bytes(out, sig_bytes.as_slice());
    put_bytes(out, b.xcqa_nonce.as_slice());
    assert(out@ =~= start + enc_block(view));
}

/// Reads a block at `pos`. Nothing is allocated for items that the bytes
/// do not hold.
pub fn get_block(bytes: &[u8], pos: usize) -> (res: Option<(Block, usize)>)
    requires
        pos <= bytes@.len(),
    ensures
        match parse_block(bytes@.skip(pos as int)) {
            Some((v, rest)) => {
                &&& res matches Some((b, end))
                &&& b@ == v
                &&& pos <= end <= bytes@.len()
                &&& rest == bytes@.skip(end as int)
            },
            None => res is None,
        },
{
    let ghost whole = parse_block(bytes@.skip(pos as int));
    let a = get_header(bytes, pos);
    if a.is_none() {
        return None;
    }
    let (header, p1) = a.unwrap();
    let head = get_u32(bytes, p1);
    if head.is_none() {
        return None;
    }
    let (count, start) = head.unwrap();
    let n: usize = count as usize;
    let mut transactions: Vec<Transaction> = Vec::new();
    let mut cur: usize = start;
    let mut i: usize = 0;
    let ghost items = parse_items(bytes@.skip(start as int), n as nat, tx_parse());
    proof {
        assert(Seq::new(0, |t: int| transactions[t]@) =~= Seq::<TransactionView>::empty());
        lemma_resume_nothing(items);
    }
    while i < n
        invariant
            i <= n,
            transactions.len() == i,
            pos <= cur <= bytes@.len(),
            items == resume(
                Seq::new(i as nat, |t: int| transactions[t]@),
                parse_items(bytes@.skip(cur as int), (n - i) as nat, tx_parse()),
            ),
            whole == parse_block(bytes@.skip(pos as int)),
            items is None ==> whole is None,
        decreases n - i,
    {
        let ghost done = Seq::new(i as nat, |t: int| transactions[t]@);
        proof {
            lemma_parse_items_step(done, bytes@.skip(cur as int), (n - i) as nat, tx_parse());
        }
        match get_transaction(bytes, cur) {
            None => {
                return None;
            },
            Some((tx, next)) => {
                transactions.push(tx);
                proof {
                    let s = bytes@.skip(cur as int);
                    assert(tx_parse()(s) == Some((tx@, bytes@.skip(next as int))));
                    assert(Seq::new((i + 1) as nat, |t: int| transactions[t]@) =~= done.push(tx@));
                }
                cur = next;
                i += 1;
            },
        }
    }
    let ghost txs = Seq::new(n as nat, |t: int| transactions[t]@);
    proof {
        lemma_parse_items_done(txs, bytes@.skip(cur as int), tx_parse());
        assert(items == Some((txs, bytes@.skip(cur as int))));
    }
    let c = get_signature(bytes, cur);
    if c.is_none() {
        return None;
    }
    let (xcqa_sig, p4) = c.unwrap();
    let d = get_array::<32>(bytes, p4);
    if d.is_none() {
        return None;
    }
    let (xcqa_nonce, p5) = d.unwrap();
    let b = Block { header, transactions, xcqa_sig, xcqa_nonce };
    proof {
        assert(b@.transactions =~= txs);
    }
    Some((b, p5))
}

impl Block {
    /// Tells whether every count in the block fits its 32-bit prefix on the
    /// wire.
    pub fn fits_wire(&self) -> (ok: bool)
        ensures
            ok == block_fits(self@),
    {
        if self.transactions.len() > u32::MAX as usize || !self.xcqa_sig.fits_wire() {
            return false;
        }
        let mut i: usize = 0;
        while i < self.transactions.len()
            invariant
                i <= self.transactions.len(),
                forall|t: int| 0 <= t < i ==> tx_fits(#[trigger] self@.transactions[t]),
            decreases self.transactions.len() - i,
        {
            assert(self@.transactions[i as int] == self.transactions[i as int]@);
            if !self.transactions[i].fits_wire() {
                return false;
            }
            i += 1;
        }
        true
    }

    /// The canonical bytes of the block.
    pub fn to_bytes(&self) -> (bytes: Vec<u8>)
        requires
            block_fits(self@),
        ensures
            bytes@ == enc_block(self@),
    {
        let mut bytes: Vec<u8> = Vec::new();
        put_block(&mut bytes, self);
        assert(bytes@ =~= enc_block(self@));
        bytes
    }
}

impl Transaction {
    /// The canonical bytes of the transaction.
    pub fn to_bytes(&self) -> (bytes: Vec<u8>)
        requires
            tx_fits(self@),
        ensures
            bytes@ == enc_tx(self@),
    {
        let mut bytes: Vec<u8> = Vec::new();
        put_transaction(&mut bytes, self);
        assert(bytes@ =~= enc_tx(self@));
        bytes
    }
}

/// What reads as a run of `n` bytes starts with that run.
pub proof fn lemma_fixed_canonical(s: Seq<u8>, n: nat)
    ensures
        parse_fixed(s, n) matches Some((b, r)) ==> s == b + r && b.len() == n,
{
    if s.len() >= n {
        assert(s =~= s.take(n as int) + s.skip(n as int));
    }
}

/// What reads as a 64-bit integer starts with that integer's encoding.
pub proof fn lemma_u64_canonical(s: Seq<u8>)
    ensures
        parse_u64(s) matches Some((x, r)) ==> s == le64(x) + r,
{
    lemma_auto_spec_u64_to_from_le_bytes();
    if s.len() >= 8 {
        let head = s.subrange(0, 8);
        assert(spec_u64_to_le_bytes(spec_u64_from_le_bytes(head)) == head);
        assert(s =~= head + s.skip(8));
    }
}

/// What reads as a transaction starts with that transaction's encoding.
pub proof fn lemma_tx_canonical(s: Seq<u8>)
    ensures
        parse_tx(s) matches Some((tx, r)) ==> s == enc_tx(tx) + r && tx_wire_ok(tx),
{
    lemma_fixed_canonical(s, 32);
    match parse_fixed(s, 32) {
        Some((sender, s1)) => {
            lemma_fixed_canonical(s1, 32);
            match parse_fixed(s1, 32) {
                Some((recipient, s2)) => {
                    lemma_poly_vec_canonical(s2);
                    match parse_poly_vec(s2) {
                        Some((amount_commitment, s3)) => {
                            lemma_range_proof_canonical(s3);
                            match parse_range_proof(s3) {
                                Some((range_proof, s4)) => {
                                    lemma_u64_canonical(s4);
                                    match parse_u64(s4) {
                                        Some((nonce, s5)) => {
                                            lemma_fixed_canonical(s5, 3309);
                                            match parse_fixed(s5, 3309) {
                                                Some((signature, s6)) => {
                                                    let tx = TransactionView {
                                                        sender,
                                                        recipient,
                                                        amount_commitment,
                                                        range_proof,
                                                        nonce,
                                                        signature,
                                                    };
                                                    assert(s =~= enc_tx(tx) + s6);
                                                },
                                                None => {},
                                            }
                                        },
                                        None => {},
                                    }
                                },
                                None => {},
                            }
                        },
                        None => {},
                    }
                },
                None => {},
            }
        },
        None => {},
    }
}

/// What reads as a header starts with that header's encoding.
pub proof fn lemma_header_canonical(s: Seq<u8>)
    ensures
        parse_header(s) matches Some((h, r)) ==> s == enc_header(h) + r && header_wire_ok(h),
{
    lemma_u64_canonical(s);
    match parse_u64(s) {
        Some((height, s1)) => {
            lemma_fixed_canonical(s1, 64);
            match parse_fixed(s1, 64) {
                Some((prev_hash, s2)) => {
                    lemma_u64_canonical(s2);
                    match parse_u64(s2) {
                        Some((timestamp, s3)) => {
                            if s3.len() >= 2 {
                                let h = BlockHeaderView {
                                    height,
                                    prev_hash,
                                    timestamp,
                                    difficulty_tier: s3[0],
                                    fine_difficulty: s3[1],
                                };
                                assert(s3 =~= seq![s3[0]] + seq![s3[1]] + s3.skip(2));
                                assert(s =~= enc_header(h) + s3.skip(2));
                            }
                        },
                        None => {},
                    }
                },
                None => {},
            }
        },
        None => {},
    }
}

/// Whether a transaction fits the wire, as a predicate on items.
pub open spec fn tx_wire_ok_fn() -> spec_fn(TransactionView) -> bool {
    |tx: TransactionView| tx_wire_ok(tx)
}

/// What reads as a block starts with that block's encoding.
pub proof fn lemma_block_canonical(s: Seq<u8>)
    ensures
        parse_block(s) matches Some((b, r)) ==> s == enc_block(b) + r && block_wire_ok(b),
{
    lemma_header_canonical(s);
    match parse_header(s) {
        Some((header, s1)) => {
            lemma_u32_canonical(s1);
            match parse_u32(s1) {
                Some((n, s2)) => {
                    assert forall|t: Seq<u8>|
                        ((#[trigger] tx_parse()(t)) matches Some((x, r)) ==> t == tx_enc()(x) + r
                            && tx_wire_ok_fn()(x)) by {
                        lemma_tx_canonical(t);
                    }
                    lemma_items_canonical(s2, n as nat, tx_enc(), tx_parse(), tx_wire_ok_fn());
                    match parse_items(s2, n as nat, tx_parse()) {
                        Some((transactions, s3)) => {
                            lemma_signature_canonical(s3);
                            match parse_signature(s3) {
                                Some((xcqa_sig, s4)) => {
                                    lemma_fixed_canonical(s4, 32);
                                    match parse_fixed(s4, 32) {
                                        Some((xcqa_nonce, s5)) => {
                                            let b = BlockView {
                                                header,
                                                transactions,
                                                xcqa_sig,
                                                xcqa_nonce,
                                            };
                                            assert(s =~= enc_block(b) + s5);
                                            assert forall|i: int|
                                                0 <= i < transactions.len() implies tx_wire_ok(
                                                #[trigger] transactions[i]) by {
                                                assert(tx_wire_ok_fn()(transactions[i]));
                                            }
                                        },
                                        None => {},
                                    }
                                },
                                None => {},
                            }
                        },
                        None => {},
                    }
                },
                None => {},
            }
        },
        None => {},
    }
}

} // verus!
