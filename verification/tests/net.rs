use xcqa_chain::block::{Block, BlockHeader};
use xcqa_chain::blockchain::Blockchain;
use xcqa_chain::error::NetError;
use xcqa_chain::lattice::commitment::{CommitmentMatrix, LatticeCommitment, LatticeRandVec};
use xcqa_chain::lattice::range_proof::LatticeRangeProof;
use xcqa_chain::message::Message;
use xcqa_chain::mldsa::MlDsa65Signature;
use xcqa_chain::net::{frame, frame_length, Peer};
use xcqa_chain::transaction::Transaction;
use xcqa_chain::xcqa_sig::XcqaSignature;

fn transaction(nonce: u64) -> Transaction {
    let mut rng = rand::rng();
    let matrix = CommitmentMatrix::from_genesis(&[0u8; 64]);
    let rand = LatticeRandVec::random(&mut rng);
    let amount_commitment = LatticeCommitment::commit(5, &rand, &matrix);
    let range_proof =
        LatticeRangeProof::prove(5, &rand, &amount_commitment, &matrix, &mut rng, &[0u8; 64]);
    let mut signature = MlDsa65Signature([0u8; 3309]);
    signature.0[3308] = 0x5a;
    Transaction {
        sender: [1u8; 32],
        recipient: [2u8; 32],
        amount_commitment,
        range_proof,
        nonce,
        signature,
    }
}

fn is_malformed(res: Result<Message, NetError>) -> bool {
    matches!(res, Err(NetError::Serialization(why)) if why == "Malformed message")
}

#[test]
fn peer_keeps_its_address() {
    let peer = Peer::new("127.0.0.1:8333".to_string());
    assert_eq!(peer.addr(), "127.0.0.1:8333");
}

#[test]
fn frames_are_length_prefixed() {
    assert_eq!(frame(b"abc").unwrap(), vec![3, 0, 0, 0, b'a', b'b', b'c']);
    assert_eq!(frame(b"").unwrap(), vec![0, 0, 0, 0]);
    assert_eq!(frame_length(&[3, 0, 0, 0]), 3);
    assert_eq!(frame_length(&[0x78, 0x56, 0x34, 0x12]), 0x12345678);
}

#[test]
fn small_messages_have_fixed_layouts() {
    assert_eq!(Message::Ping.encode(), vec![4]);
    assert_eq!(Message::Pong.encode(), vec![5]);
    let mut handshake = vec![0, 1, 0, 0, 0];
    handshake.extend_from_slice(&[7u8; 32]);
    assert_eq!(Message::Handshake { version: 1, peer_id: [7u8; 32] }.encode(), handshake);
    assert_eq!(
        Message::GetBlocks { start_height: 2, count: 3 }.encode(),
        vec![3, 2, 0, 0, 0, 0, 0, 0, 0, 3, 0, 0, 0]
    );
}

#[test]
fn small_messages_round_trip() {
    assert!(matches!(Message::decode(&[4]), Ok(Message::Ping)));
    assert!(matches!(Message::decode(&[5]), Ok(Message::Pong)));
    let bytes = Message::Handshake { version: 9, peer_id: [3u8; 32] }.encode();
    assert!(matches!(
        Message::decode(&bytes),
        Ok(Message::Handshake { version: 9, peer_id }) if peer_id == [3u8; 32]
    ));
    let bytes = Message::GetBlocks { start_height: u64::MAX, count: 17 }.encode();
    assert!(matches!(
        Message::decode(&bytes),
        Ok(Message::GetBlocks { start_height: u64::MAX, count: 17 })
    ));
}

#[test]
fn transaction_message_round_trips() {
    let tx = transaction(11);
    let bytes = Message::Transaction(tx.clone()).encode();
    match Message::decode(&bytes) {
        Ok(Message::Transaction(back)) => {
            assert_eq!(back.sender, tx.sender);
            assert_eq!(back.recipient, tx.recipient);
            assert_eq!(back.nonce, 11);
            assert_eq!(back.signature.0, tx.signature.0);
            assert_eq!(back.hash(), tx.hash());
            assert_eq!(Message::Transaction(back).encode(), bytes);
        }
        _ => panic!("a transaction did not come back"),
    }
}

#[test]
fn block_message_round_trips() {
    let block = Block {
        header: BlockHeader {
            height: 5,
            prev_hash: [9u8; 64],
            timestamp: 77,
            difficulty_tier: 1,
            fine_difficulty: 2,
        },
        transactions: vec![transaction(1), transaction(2)],
        xcqa_sig: XcqaSignature { commitment: vec![1, 2, 3], response: vec![4, 5] },
        xcqa_nonce: [6u8; 32],
    };
    let bytes = Message::Block(block.clone()).encode();
    match Message::decode(&bytes) {
        Ok(Message::Block(back)) => {
            assert_eq!(back.hash(), block.hash());
            assert_eq!(back.header.height, 5);
            assert_eq!(back.transactions.len(), 2);
            assert_eq!(back.transactions[1].nonce, 2);
            assert_eq!(back.transactions[0].hash(), block.transactions[0].hash());
            assert_eq!(back.xcqa_sig.commitment, vec![1, 2, 3]);
            assert_eq!(back.xcqa_sig.response, vec![4, 5]);
            assert_eq!(back.xcqa_nonce, [6u8; 32]);
            assert_eq!(Message::Block(back).encode(), bytes);
        }
        _ => panic!("a block did not come back"),
    }
    let genesis = Message::Block(Blockchain::genesis()).encode();
    assert_eq!(genesis.len(), 1 + 82 + 4 + 8 + 32);
    assert!(matches!(Message::decode(&genesis), Ok(Message::Block(_))));
}

#[test]
fn malformed_messages_are_refused() {
    assert!(is_malformed(Message::decode(&[])));
    assert!(is_malformed(Message::decode(&[6])));
    assert!(is_malformed(Message::decode(&[255])));
    // trailing bytes
    assert!(is_malformed(Message::decode(&[4, 0])));
    // truncated fields
    assert!(is_malformed(Message::decode(&[0, 1, 0, 0])));
    assert!(is_malformed(Message::decode(&[3, 2, 0, 0, 0, 0, 0, 0, 0, 3, 0, 0])));
    let tx = Message::Transaction(transaction(1)).encode();
    assert!(is_malformed(Message::decode(&tx[..tx.len() - 1])));
    let mut longer = tx.clone();
    longer.push(0);
    assert!(is_malformed(Message::decode(&longer)));
}

#[test]
fn announced_lengths_are_held_against_the_bytes() {
    // a block that announces four billion transactions and holds none
    let mut bytes = Message::Block(Blockchain::genesis()).encode();
    let count_at = 1 + 82;
    bytes[count_at..count_at + 4].copy_from_slice(&u32::MAX.to_le_bytes());
    assert!(is_malformed(Message::decode(&bytes)));
    // a signature component that announces more bytes than follow
    let mut bytes = Message::Block(Blockchain::genesis()).encode();
    let sig_at = 1 + 82 + 4;
    bytes[sig_at..sig_at + 4].copy_from_slice(&u32::MAX.to_le_bytes());
    assert!(is_malformed(Message::decode(&bytes)));
}
