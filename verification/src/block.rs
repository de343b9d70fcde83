use vstd::prelude::*;
use crate::error::CoreError;
use crate::hash::{blake3_512, blake3_xof_64};
use crate::lattice::commitment::CommitmentMatrix;
use crate::mldsa::MlDsa65PublicKey;
use crate::transaction::{is_tx_result, tx_fits, tx_rejection_of, Transaction, TransactionView};
use crate::wire::{le64, put_bytes, put_u64};
use crate::xcqa_sig::{XcqaSignature, XcqaSignatureView};

verus! {

/// What a block says of itself: its place in the chain, its time, and the
/// difficulty it was mined at.
#[derive(Debug)]
pub struct BlockHeader {
    pub height: u64,
    pub prev_hash: [u8; 64],
    pub timestamp: u64,
    pub difficulty_tier: u8,
    pub fine_difficulty: u8,
}

impl Clone for BlockHeader {
    fn clone(&self) -> (copy: Self)
        ensures
            copy == *self,
    {
        BlockHeader {
            height: self.height,
            prev_hash: self.prev_hash,
            timestamp: self.timestamp,
            difficulty_tier: self.difficulty_tier,
            fine_difficulty: self.fine_difficulty,
        }
    }
}

/// A block: header, transactions, and the layered signature with its nonce
/// that serves as proof of work.
#[derive(Debug)]
pub struct Block {
    pub header: BlockHeader,
    pub transactions: Vec<Transaction>,
    pub xcqa_sig: XcqaSignature,
    pub xcqa_nonce: [u8; 32],
}

impl Clone for Block {
    fn clone(&self) -> (copy: Self)
        ensures
            copy@ == self@,
            copy.header == self.header,
    {
        let mut transactions: Vec<Transaction> = Vec::new();
        let mut i: usize = 0;
        while i < self.transactions.len()
            invariant
                i <= self.transactions.len(),
                transactions.len() == i,
                forall|t: int| 0 <= t < i ==> (#[trigger] transactions[t])@ == self.transactions[t]@,
            decreases self.transactions.len() - i,
        {
            transactions.push(self.transactions[i].clone());
            i += 1;
        }
        let copy = Block {
            header: self.header.clone(),
            transactions,
            xcqa_sig: self.xcqa_sig.clone(),
            xcqa_nonce: self.xcqa_nonce,
        };
        assert(copy@.transactions =~= self@.transactions);
        copy
    }
}

/// The mathematical content of a `BlockHeader`.
pub struct BlockHeaderView {
    pub height: u64,
    pub prev_hash: Seq<u8>,
    pub timestamp: u64,
    pub difficulty_tier: u8,
    pub fine_difficulty: u8,
}

impl View for BlockHeader {
    type V = BlockHeaderView;

    open spec fn view(&self) -> BlockHeaderView {
        BlockHeaderView {
            height: self.height,
            prev_hash: self.prev_hash@,
            timestamp: self.timestamp,
            difficulty_tier: self.difficulty_tier,
            fine_difficulty: self.fine_difficulty,
        }
    }
}

/// The mathematical content of a `Block`.
pub struct BlockView {
    pub header: BlockHeaderView,
    pub transactions: Seq<TransactionView>,
    pub xcqa_sig: XcqaSignatureView,
    pub xcqa_nonce: Seq<u8>,
}

impl View for Block {
    type V = BlockView;

    open spec fn view(&self) -> BlockView {
        BlockView {
            header: self.header@,
            transactions: Seq::new(self.transactions@.len(), |i: int| self.transactions[i]@),
            xcqa_sig: self.xcqa_sig@,
            xcqa_nonce: self.xcqa_nonce@,
        }
    }
}

/// A header on the wire: height in eight little-endian bytes, previous
/// hash, timestamp in eight little-endian bytes, tier, fine difficulty.
pub open spec fn enc_header(h: BlockHeaderView) -> Seq<u8> {
    le64(h.height) + h.prev_hash + le64(h.timestamp) + seq![h.difficulty_tier] + seq![
        h.fine_difficulty,
    ]
}

/// The canonical bytes of a header.
pub open spec fn header_bytes(h: BlockHeader) -> Seq<u8> {
    enc_header(h@)
}

/// The hash of a block: the BLAKE3-512 digest of its header's canonical
/// bytes.
pub open spec fn block_digest(h: BlockHeader) -> Seq<u8> {
    blake3_xof_64(header_bytes(h))
}

/// The message that a block's proof-of-work signature covers: the block
/// hash, then the nonce.
pub open spec fn pow_message(h: BlockHeader, nonce: Seq<u8>) -> Seq<u8> {
    block_digest(h) + nonce
}

/// The first rejection among the first `n` transactions, each checked
/// against the key at its own position.
pub open spec fn first_rejection(
    txs: Seq<TransactionView>,
    pks: Seq<Seq<u8>>,
    a: Seq<Seq<Seq<int>>>,
    n: int,
) -> Option<Seq<char>>
    decreases n,
{
    if n <= 0 {
        None
    } else {
        match first_rejection(txs, pks, a, n - 1) {
            Some(reason) => Some(reason),
            None => tx_rejection_of(txs[n - 1], pks[n - 1], a),
        }
    }
}

impl BlockHeader {
    /// The canonical bytes of the header.
    pub fn to_bytes(&self) -> (bytes: Vec<u8>)
        ensures
            bytes@ == header_bytes(*self),
    {
        let mut bytes: Vec<u8> = Vec::new();
        put_u64(&mut bytes, self.height);
        put_bytes(&mut bytes, self.prev_hash.as_slice());
        put_u64(&mut bytes, self.timestamp);
        bytes.push(self.difficulty_tier);
        bytes.push(self.fine_difficulty);
        assert(bytes@ =~= header_bytes(*self));
        bytes
    }
}

impl Block {
    /// The block hash.
    pub fn hash(&self) -> (digest: [u8; 64])
        ensures
            digest@ == block_digest(self.header),
    {
        let bytes = self.header.to_bytes();
        blake3_512(bytes.as_slice())
    }

    /// The message that the proof-of-work signature is checked against.
    pub fn pow_message(&self) -> (msg: Vec<u8>)
        ensures
            msg@ == pow_message(self.header, self.xcqa_nonce@),
    {
        let block_hash = self.hash();
        let mut msg: Vec<u8> = Vec::new();
        put_bytes(&mut msg, block_hash.as_slice());
        put_bytes(&mut msg, self.xcqa_nonce.as_slice());
        assert(msg@ =~= pow_message(self.header, self.xcqa_nonce@));
        msg
    }

    /// The result of the proof-of-work check, given what the layered
    /// signature's verification found.
    pub fn pow_verdict(signature_valid: bool) -> (res: Result<(), CoreError>)
        ensures
            signature_valid ==> res is Ok,
            !signature_valid ==> (res matches Err(CoreError::InvalidBlock(msg)) && msg@
                == "Invalid PoW signature"@),
    {
        if !signature_valid {
            return Err(CoreError::InvalidBlock("Invalid PoW signature".to_string()));
        }
        Ok(())
    }

    /// Validates every transaction against the sender key at its position:
    /// a key count that differs from the transaction count is refused, and
    /// otherwise the first rejected transaction decides.
    pub fn verify_transactions(
        &self,
        sender_pks: &[MlDsa65PublicKey],
        matrix: &CommitmentMatrix,
    ) -> (res: Result<(), CoreError>)
        requires
            matrix.wf(),
            forall|i: int| 0 <= i < self.transactions@.len() ==> tx_fits((#[trigger] self.transactions[i])@),
        ensures
            sender_pks@.len() != self.transactions@.len() ==> (res matches Err(
                CoreError::InvalidBlock(msg),
            ) && msg@ == "Mismatched public keys count"@),
            sender_pks@.len() == self.transactions@.len() ==> is_tx_result(
                res,
                first_rejection(
                    Seq::new(self.transactions@.len(), |i: int| self.transactions[i]@),
                    Seq::new(sender_pks@.len(), |i: int| sender_pks[i].0@),
                    matrix@,
                    self.transactions@.len() as int,
                ),
            ),
    {
        let block_hash = self.hash();
        if sender_pks.len() != self.transactions.len() {
            return Err(CoreError::InvalidBlock("Mismatched public keys count".to_string()));
        }
        let ghost txs = Seq::new(self.transactions@.len(), |i: int| self.transactions[i]@);
        let ghost pks = Seq::new(sender_pks@.len(), |i: int| sender_pks[i].0@);
        let mut i: usize = 0;
        while i < self.transactions.len()
            invariant
                i <= self.transactions.len(),
                sender_pks@.len() == self.transactions@.len(),
                matrix.wf(),
                forall|t: int|
                    0 <= t < self.transactions@.len() ==> tx_fits((#[trigger] self.transactions[t])@),
                txs == Seq::new(self.transactions@.len(), |t: int| self.transactions[t]@),
                pks == Seq::new(sender_pks@.len(), |t: int| sender_pks[t].0@),
                first_rejection(txs, pks, matrix@, i as int) is None,
            decreases self.transactions.len() - i,
        {
            assert(tx_fits(self.transactions[i as int]@));
            let checked = self.transactions[i].verify(&sender_pks[i], matrix, &block_hash);
            proof {
                assert(txs[i as int] == self.transactions[i as int]@);
                assert(pks[i as int] == sender_pks[i as int].0@);
            }
            if checked.is_err() {
                proof {
                    assert(first_rejection(txs, pks, matrix@, i + 1) == tx_rejection_of(
                        txs[i as int],
                        pks[i as int],
                        matrix@,
                    ));
                    lemma_first_rejection_stays(
                        txs,
                        pks,
                        matrix@,
                        i + 1,
                        self.transactions@.len() as int,
                    );
                }
                return checked;
            }
            i += 1;
        }
        Ok(())
    }
}

/// Once a transaction is rejected, later ones do not change the outcome.
pub proof fn lemma_first_rejection_stays(
    txs: Seq<TransactionView>,
    pks: Seq<Seq<u8>>,
    a: Seq<Seq<Seq<int>>>,
    n: int,
    m: int,
)
    requires
        n <= m,
        first_rejection(txs, pks, a, n) is Some,
    ensures
        first_rejection(txs, pks, a, m) == first_rejection(txs, pks, a, n),
    decreases m - n,
{
    if n < m {
        lemma_first_rejection_stays(txs, pks, a, n, m - 1);
    }
}

} // verus!
