use vstd::prelude::*;
use crate::codec::{
    enc_poly_vec,
    enc_range_proof,
    poly_vec_fits,
    put_range_proof,
    put_ring_vector,
    range_proof_fits,
};
use crate::error::CoreError;
use crate::hash::{blake3_512, blake3_xof_64};
use crate::lattice::commitment::{CommitmentMatrix, LatticeCommitment};
use crate::lattice::range_proof::{range_proof_accepts, LatticeRangeProof, RangeProofView};
use crate::mldsa::{mldsa65_accepts, mldsa_verify, MlDsa65PublicKey, MlDsa65Signature};
use crate::wire::{le64, put_bytes, put_u64};

verus! {

/// The mathematical content of a `Transaction`.
pub struct TransactionView {
    pub sender: Seq<u8>,
    pub recipient: Seq<u8>,
    pub amount_commitment: Seq<Seq<int>>,
    pub range_proof: RangeProofView,
    pub nonce: u64,
    pub signature: Seq<u8>,
}

/// A confidential transfer: the amount is hidden in a commitment and proved
/// in range; the whole is signed by the sender.
#[derive(Debug)]
pub struct Transaction {
    pub sender: [u8; 32],
    pub recipient: [u8; 32],
    pub amount_commitment: LatticeCommitment,
    pub range_proof: LatticeRangeProof,
    pub nonce: u64,
    pub signature: MlDsa65Signature,
}

impl View for Transaction {
    type V = TransactionView;

    open spec fn view(&self) -> TransactionView {
        TransactionView {
            sender: self.sender@,
            recipient: self.recipient@,
            amount_commitment: self.amount_commitment@,
            range_proof: self.range_proof@,
            nonce: self.nonce,
            signature: self.signature.0@,
        }
    }
}

impl Clone for Transaction {
    fn clone(&self) -> (copy: Self)
        ensures
            copy@ == self@,
    {
        Transaction {
            sender: self.sender,
            recipient: self.recipient,
            amount_commitment: self.amount_commitment.clone(),
            range_proof: self.range_proof.clone(),
            nonce: self.nonce,
            signature: self.signature.clone(),
        }
    }
}

/// The bytes that a transaction's signature covers: sender, recipient, the
/// canonical bytes of the commitment and of the range proof, and the nonce
/// in eight little-endian bytes.
pub open spec fn tx_preimage(tx: TransactionView) -> Seq<u8> {
    tx.sender + tx.recipient + enc_poly_vec(tx.amount_commitment) + enc_range_proof(
        tx.range_proof,
    ) + le64(tx.nonce)
}

/// The message a transaction is signed over: the BLAKE3-512 digest of its
/// preimage.
pub open spec fn tx_digest(tx: TransactionView) -> Seq<u8> {
    blake3_xof_64(tx_preimage(tx))
}

/// Every count in the transaction fits its 32-bit prefix on the wire.
pub open spec fn tx_fits(tx: TransactionView) -> bool {
    poly_vec_fits(tx.amount_commitment) && range_proof_fits(tx.range_proof)
}

/// Why a transaction is rejected, if it is: a signature that does not
/// verify comes first, then a range proof that does not.
pub open spec fn tx_rejection(signature_ok: bool, proof_ok: bool) -> Option<Seq<char>> {
    if !signature_ok {
        Some("Invalid signature"@)
    } else if !proof_ok {
        Some("Invalid range proof"@)
    } else {
        None
    }
}

/// Why this transaction is rejected under a sender key and a matrix, if it
/// is.
pub open spec fn tx_rejection_of(
    tx: TransactionView,
    sender_pk: Seq<u8>,
    a: Seq<Seq<Seq<int>>>,
) -> Option<Seq<char>> {
    tx_rejection(
        mldsa65_accepts(sender_pk, tx_digest(tx), tx.signature),
        range_proof_accepts(tx.range_proof, a),
    )
}

/// The result that goes with a rejection: success where there is none, an
/// invalid-transaction error carrying the reason where there is one.
pub open spec fn is_tx_result(res: Result<(), CoreError>, rejection: Option<Seq<char>>) -> bool {
    match rejection {
        None => res is Ok,
        Some(reason) => res matches Err(CoreError::InvalidTransaction(msg)) && msg@ == reason,
    }
}

impl Transaction {
    /// Tells whether every count in the transaction fits its 32-bit prefix
    /// on the wire.
    pub fn fits_wire(&self) -> (ok: bool)
        ensures
            ok == tx_fits(self@),
    {
        self.amount_commitment.c.elements.len() <= u32::MAX as usize && self.range_proof.fits_wire()
    }

    /// The BLAKE3-512 digest of the transaction's preimage.
    pub fn hash(&self) -> (digest: [u8; 64])
        requires
            tx_fits(self@),
        ensures
            digest@ == tx_digest(self@),
    {
        let mut bytes: Vec<u8> = Vec::new();
        put_bytes(&mut bytes, self.sender.as_slice());
        put_bytes(&mut bytes, self.recipient.as_slice());
        put_ring_vector(&mut bytes, &self.amount_commitment.c);
        put_range_proof(&mut bytes, &self.range_proof);
        put_u64(&mut bytes, self.nonce);
        assert(bytes@ =~= tx_preimage(self@));
        blake3_512(bytes.as_slice())
    }

    /// The result of validation, given what the two checks found.
    pub fn verdict(signature_ok: bool, proof_ok: bool) -> (res: Result<(), CoreError>)
        ensures
            is_tx_result(res, tx_rejection(signature_ok, proof_ok)),
    {
        if !signature_ok {
            return Err(CoreError::InvalidTransaction("Invalid signature".to_string()));
        }
        if !proof_ok {
            return Err(CoreError::InvalidTransaction("Invalid range proof".to_string()));
        }
        Ok(())
    }

    /// Validates the transaction: the sender's signature over its digest,
    /// then its range proof.
    pub fn verify(
        &self,
        sender_pk: &MlDsa65PublicKey,
        matrix: &CommitmentMatrix,
        block_hash: &[u8; 64],
    ) -> (res: Result<(), CoreError>)
        requires
            matrix.wf(),
            tx_fits(self@),
        ensures
            is_tx_result(res, tx_rejection_of(self@, sender_pk.0@, matrix@)),
    {
        let msg = self.hash();
        if !mldsa_verify(msg.as_slice(), &self.signature, sender_pk) {
            return Transaction::verdict(false, true);
        }
        let proof_ok = self.range_proof.verify(&self.amount_commitment, matrix, block_hash);
        Transaction::verdict(true, proof_ok)
    }
}

} // verus!
