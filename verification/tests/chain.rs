use xcqa_chain::block::{Block, BlockHeader};
use xcqa_chain::blockchain::{retarget, Blockchain};
use xcqa_chain::error::CoreError;
use xcqa_chain::hash::blake3_512;
use xcqa_chain::lattice::commitment::{CommitmentMatrix, LatticeCommitment, LatticeRandVec};
use xcqa_chain::lattice::range_proof::LatticeRangeProof;
use xcqa_chain::mldsa::{mldsa_sign, MlDsa65PrivateKey, MlDsa65PublicKey, MlDsa65Signature};
use xcqa_chain::transaction::Transaction;
use xcqa_chain::xcqa_sig::XcqaSignature;

fn empty_sig() -> XcqaSignature {
    XcqaSignature { commitment: vec![], response: vec![] }
}

fn child(chain: &Blockchain, timestamp: u64, tier: u8, fine: u8) -> Block {
    Block {
        header: BlockHeader {
            height: chain.height() + 1,
            prev_hash: chain.latest_block().hash(),
            timestamp,
            difficulty_tier: tier,
            fine_difficulty: fine,
        },
        transactions: vec![],
        xcqa_sig: empty_sig(),
        xcqa_nonce: [0u8; 32],
    }
}

fn chain_with(blocks: usize, spacing: u64, tier: u8, fine: u8) -> Blockchain {
    let mut chain = Blockchain::new(Blockchain::genesis());
    for i in 1..=blocks {
        let block = child(&chain, spacing * i as u64, tier, fine);
        chain.add_block(block).unwrap();
    }
    chain
}

fn signed_transaction(sk: &MlDsa65PrivateKey, matrix: &CommitmentMatrix, amount: u64) -> Transaction {
    let mut rng = rand::rng();
    let rand = LatticeRandVec::random(&mut rng);
    let amount_commitment = LatticeCommitment::commit(amount, &rand, matrix);
    let range_proof =
        LatticeRangeProof::prove(amount, &rand, &amount_commitment, matrix, &mut rng, &[0u8; 64]);
    let mut tx = Transaction {
        sender: [1u8; 32],
        recipient: [2u8; 32],
        amount_commitment,
        range_proof,
        nonce: 7,
        signature: MlDsa65Signature([0u8; 3309]),
    };
    tx.signature = mldsa_sign(&tx.hash(), sk);
    tx
}

fn reason(res: Result<(), CoreError>) -> String {
    match res {
        Err(CoreError::InvalidBlock(why)) => format!("block: {}", why),
        Err(CoreError::InvalidTransaction(why)) => format!("transaction: {}", why),
        Err(CoreError::CryptoError(_)) => "crypto".to_string(),
        Ok(()) => "ok".to_string(),
    }
}

#[test]
fn genesis_block() {
    let genesis = Blockchain::genesis();
    assert_eq!(genesis.header.height, 0);
    assert_eq!(genesis.header.prev_hash, [0u8; 64]);
    assert_eq!(genesis.header.timestamp, 0);
    assert_eq!(genesis.header.difficulty_tier, 0);
    assert_eq!(genesis.header.fine_difficulty, 1);
    assert!(genesis.transactions.is_empty());
    assert!(genesis.xcqa_sig.commitment.is_empty());
    assert!(genesis.xcqa_sig.response.is_empty());
    assert_eq!(genesis.xcqa_nonce, [0u8; 32]);
    let chain = Blockchain::new(genesis);
    assert_eq!(chain.height(), 0);
    assert_eq!(chain.latest_block().header.height, 0);
}

#[test]
fn valid_append() {
    let mut chain = Blockchain::new(Blockchain::genesis());
    let b1 = child(&chain, 10, 0, 1);
    assert_eq!(b1.header.height, 1);
    assert_eq!(b1.header.prev_hash, Blockchain::genesis().hash());
    assert!(chain.add_block(b1).is_ok());
    assert_eq!(chain.height(), 1);
    assert_eq!(chain.latest_block().header.timestamp, 10);
}

#[test]
fn wrong_height_is_refused() {
    let mut chain = Blockchain::new(Blockchain::genesis());
    let mut b1 = child(&chain, 10, 0, 1);
    b1.header.height = 2;
    assert_eq!(reason(chain.add_block(b1)), "block: Invalid height");
    assert_eq!(chain.height(), 0);
    let mut b0 = child(&chain, 10, 0, 1);
    b0.header.height = 0;
    assert_eq!(reason(chain.add_block(b0)), "block: Invalid height");
    assert_eq!(chain.height(), 0);
}

#[test]
fn wrong_previous_hash_is_refused() {
    let mut chain = Blockchain::new(Blockchain::genesis());
    let mut b1 = child(&chain, 10, 0, 1);
    b1.header.prev_hash[0] ^= 1;
    assert_eq!(reason(chain.add_block(b1)), "block: Invalid previous hash");
    assert_eq!(chain.height(), 0);
    assert_eq!(chain.latest_block().header.height, 0);
}

#[test]
fn unfunded_senders_are_refused() {
    let matrix = CommitmentMatrix::from_genesis(&[0u8; 64]);
    let sk = MlDsa65PrivateKey::from_seed([3u8; 32]);
    let mut chain = Blockchain::new(Blockchain::genesis());
    assert_eq!(chain.balance_of(&[1u8; 32]), 0);
    let mut b1 = child(&chain, 10, 0, 1);
    b1.transactions.push(signed_transaction(&sk, &matrix, 5));
    assert_eq!(reason(chain.add_block(b1)), "transaction: Insufficient balance");
    assert_eq!(chain.height(), 0);
}

#[test]
fn heights_stay_contiguous() {
    let mut chain = chain_with(3, 10, 0, 1);
    assert_eq!(chain.height(), 3);
    // a block that was valid one step earlier is no longer
    let mut stale = child(&chain, 40, 0, 1);
    stale.header.height = 3;
    assert_eq!(reason(chain.add_block(stale)), "block: Invalid height");
    let next = child(&chain, 40, 0, 1);
    assert!(chain.add_block(next).is_ok());
    assert_eq!(chain.height(), 4);
}

#[test]
fn block_hash_covers_the_header_layout() {
    let header = BlockHeader {
        height: 0x0102030405060708,
        prev_hash: [0xaa; 64],
        timestamp: 99,
        difficulty_tier: 3,
        fine_difficulty: 4,
    };
    let mut bytes = Vec::new();
    bytes.extend_from_slice(&0x0102030405060708u64.to_le_bytes());
    bytes.extend_from_slice(&[0xaa; 64]);
    bytes.extend_from_slice(&99u64.to_le_bytes());
    bytes.push(3);
    bytes.push(4);
    assert_eq!(header.to_bytes(), bytes);
    let block =
        Block { header, transactions: vec![], xcqa_sig: empty_sig(), xcqa_nonce: [5u8; 32] };
    assert_eq!(block.hash(), blake3_512(&bytes));
    let mut msg = blake3_512(&bytes).to_vec();
    msg.extend_from_slice(&[5u8; 32]);
    assert_eq!(block.pow_message(), msg);
}

#[test]
fn block_hash_ignores_the_body() {
    let mut block = Blockchain::genesis();
    let before = block.hash();
    block.xcqa_nonce = [1u8; 32];
    block.xcqa_sig.commitment.push(1);
    assert_eq!(block.hash(), before);
    block.header.fine_difficulty = 2;
    assert_ne!(block.hash(), before);
}

#[test]
fn pow_verdict_follows_the_signature() {
    assert!(Block::pow_verdict(true).is_ok());
    assert_eq!(reason(Block::pow_verdict(false)), "block: Invalid PoW signature");
}

#[test]
fn difficulty_starts_at_zero_one() {
    assert_eq!(chain_with(0, 10, 4, 4).calculate_next_difficulty(), (0, 1));
    assert_eq!(chain_with(1, 10, 4, 4).calculate_next_difficulty(), (0, 1));
}

#[test]
fn retargeting_down() {
    // ten blocks 15 s apart: the window spans 135 s over 9 gaps, average 15
    assert_eq!(chain_with(10, 15, 2, 5).calculate_next_difficulty(), (2, 4));
    assert_eq!(chain_with(10, 15, 2, 1).calculate_next_difficulty(), (1, 8));
    assert_eq!(chain_with(10, 15, 0, 1).calculate_next_difficulty(), (0, 1));
}

#[test]
fn retargeting_up_and_steady() {
    // 5 s apart: average 5 < 8
    assert_eq!(chain_with(10, 5, 2, 5).calculate_next_difficulty(), (2, 6));
    assert_eq!(chain_with(10, 5, 2, 7).calculate_next_difficulty(), (3, 1));
    // 10 s apart: unchanged
    assert_eq!(chain_with(10, 10, 2, 5).calculate_next_difficulty(), (2, 5));
}

#[test]
fn retargeting_window_is_the_last_ten() {
    // early blocks are slow, the last ten fast
    let mut chain = chain_with(5, 1000, 1, 3);
    for i in 1..=10u64 {
        let block = child(&chain, 5000 + 2 * i, 1, 3);
        chain.add_block(block).unwrap();
    }
    assert_eq!(chain.calculate_next_difficulty(), (1, 4));
    // a short chain uses what it has: two blocks, one gap of 20 s
    assert_eq!(chain_with(2, 20, 1, 3).calculate_next_difficulty(), (1, 2));
}

#[test]
fn retargeting_tolerates_a_clock_that_runs_back() {
    let mut chain = chain_with(2, 100, 1, 3);
    let block = child(&chain, 0, 1, 3);
    chain.add_block(block).unwrap();
    // no time elapsed counts as fast
    assert_eq!(chain.calculate_next_difficulty(), (1, 4));
}

#[test]
fn retarget_is_a_pure_step() {
    assert_eq!(retarget(7, 0, 1), (0, 2));
    assert_eq!(retarget(8, 0, 1), (0, 1));
    assert_eq!(retarget(12, 0, 1), (0, 1));
    assert_eq!(retarget(13, 0, 2), (0, 1));
    assert_eq!(retarget(7, 9, 7), (10, 1));
    assert_eq!(retarget(7, 9, 8), (10, 1));
    assert_eq!(retarget(7, 255, 7), (255, 1));
    assert_eq!(retarget(13, 9, 1), (8, 8));
}

#[test]
fn retarget_keeps_fine_in_range() {
    for avg in [0u64, 7, 8, 10, 12, 13, u64::MAX] {
        for tier in [0u8, 1, 200, 255] {
            for fine in 1u8..=8 {
                let (_, next_fine) = retarget(avg, tier, fine);
                assert!((1..=8).contains(&next_fine));
            }
        }
    }
}

#[test]
fn next_header_continues_the_chain() {
    let mut chain = chain_with(10, 15, 2, 5);
    let header = chain.next_header(1234);
    assert_eq!(header.height, 11);
    assert_eq!(header.prev_hash, chain.latest_block().hash());
    assert_eq!(header.timestamp, 1234);
    assert_eq!((header.difficulty_tier, header.fine_difficulty), (2, 4));
    let block = Block { header, transactions: vec![], xcqa_sig: empty_sig(), xcqa_nonce: [0; 32] };
    assert!(chain.add_block(block).is_ok());
    assert_eq!(chain.height(), 11);
}

#[test]
fn transaction_digest_covers_the_layout() {
    let matrix = CommitmentMatrix::from_genesis(&[0u8; 64]);
    let sk = MlDsa65PrivateKey::from_seed([3u8; 32]);
    let tx = signed_transaction(&sk, &matrix, 42);
    let mut bytes = Vec::new();
    bytes.extend_from_slice(&[1u8; 32]);
    bytes.extend_from_slice(&[2u8; 32]);
    bytes.extend_from_slice(&4u32.to_le_bytes());
    for e in &tx.amount_commitment.c.elements {
        for c in &e.coeffs {
            bytes.extend_from_slice(&c.to_le_bytes());
        }
    }
    bytes.extend_from_slice(&tx.range_proof.to_bytes());
    bytes.extend_from_slice(&7u64.to_le_bytes());
    assert_eq!(tx.hash(), blake3_512(&bytes));
}

#[test]
fn transaction_verification() {
    let matrix = CommitmentMatrix::from_genesis(&[0u8; 64]);
    let sk = MlDsa65PrivateKey::from_seed([3u8; 32]);
    let pk = sk.public_key();
    let block_hash = [0u8; 64];
    let tx = signed_transaction(&sk, &matrix, 42);
    assert!(tx.fits_wire());
    assert!(tx.verify(&pk, &matrix, &block_hash).is_ok());

    let other = MlDsa65PrivateKey::from_seed([4u8; 32]).public_key();
    assert_eq!(reason(tx.verify(&other, &matrix, &block_hash)), "transaction: Invalid signature");

    let mut altered = tx.clone();
    altered.nonce += 1;
    assert_eq!(reason(altered.verify(&pk, &matrix, &block_hash)), "transaction: Invalid signature");

    let mut bad_proof = tx.clone();
    bad_proof.range_proof.bit_proofs[0].response_b = 2;
    bad_proof.signature = mldsa_sign(&bad_proof.hash(), &sk);
    assert_eq!(
        reason(bad_proof.verify(&pk, &matrix, &block_hash)),
        "transaction: Invalid range proof"
    );

    // the signature is looked at first
    assert_eq!(
        reason(bad_proof.verify(&other, &matrix, &block_hash)),
        "transaction: Invalid signature"
    );
}

#[test]
fn transaction_verdicts() {
    assert!(Transaction::verdict(true, true).is_ok());
    assert_eq!(reason(Transaction::verdict(false, true)), "transaction: Invalid signature");
    assert_eq!(reason(Transaction::verdict(false, false)), "transaction: Invalid signature");
    assert_eq!(reason(Transaction::verdict(true, false)), "transaction: Invalid range proof");
}

#[test]
fn block_transactions_are_checked_in_order() {
    let matrix = CommitmentMatrix::from_genesis(&[0u8; 64]);
    let sk = MlDsa65PrivateKey::from_seed([3u8; 32]);
    let pk = sk.public_key();
    let good = signed_transaction(&sk, &matrix, 1);
    let mut bad_proof = signed_transaction(&sk, &matrix, 2);
    bad_proof.range_proof.bit_proofs[3].response_b = 5;
    bad_proof.signature = mldsa_sign(&bad_proof.hash(), &sk);
    let mut unsigned = signed_transaction(&sk, &matrix, 3);
    unsigned.signature = MlDsa65Signature([0u8; 3309]);

    let mut block = Blockchain::genesis();
    let keys: Vec<MlDsa65PublicKey> = vec![pk.clone(), pk.clone(), pk.clone()];
    assert!(block.verify_transactions(&[], &matrix).is_ok());
    assert_eq!(
        reason(block.verify_transactions(&keys[..1], &matrix)),
        "block: Mismatched public keys count"
    );

    block.transactions = vec![good.clone(), good.clone()];
    assert!(block.verify_transactions(&keys[..2], &matrix).is_ok());
    assert_eq!(
        reason(block.verify_transactions(&keys, &matrix)),
        "block: Mismatched public keys count"
    );

    block.transactions = vec![good.clone(), bad_proof.clone(), unsigned.clone()];
    assert_eq!(
        reason(block.verify_transactions(&keys, &matrix)),
        "transaction: Invalid range proof"
    );
    block.transactions = vec![good.clone(), unsigned, bad_proof];
    assert_eq!(reason(block.verify_transactions(&keys, &matrix)), "transaction: Invalid signature");
}
