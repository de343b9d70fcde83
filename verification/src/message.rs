//! The wire message set and its canonical layout: one tag byte, then the
//! fields of the variant.

use vstd::prelude::*;
use crate::block::{Block, BlockView};
use crate::chain_codec::{
    block_fits,
    block_wire_ok,
    enc_block,
    enc_tx,
    get_array,
    get_block,
    get_transaction,
    get_u64,
    lemma_block_canonical,
    lemma_block_round_trip,
    lemma_fixed_canonical,
    lemma_fixed_round_trip,
    lemma_tx_canonical,
    lemma_tx_round_trip,
    lemma_u64_canonical,
    lemma_u64_round_trip,
    parse_block,
    parse_fixed,
    parse_tx,
    parse_u64,
    put_block,
    put_transaction,
    tx_wire_ok,
};
use crate::codec::{get_u32, lemma_u32_canonical, lemma_u32_round_trip, parse_u32};
use crate::error::NetError;
use crate::transaction::{tx_fits, Transaction, TransactionView};
use crate::wire::{le32, le64, put_bytes, put_u32, put_u64};

verus! {

/// The mathematical content of a `Message`.
pub enum MessageView {
    Handshake { version: u32, peer_id: Seq<u8> },
    Block(BlockView),
    Transaction(TransactionView),
    GetBlocks { start_height: u64, count: u32 },
    Ping,
    Pong,
}

/// A message between peers.
#[derive(Debug)]
pub enum Message {
    Handshake { version: u32, peer_id: [u8; 32] },
    Block(Block),
    Transaction(Transaction),
    GetBlocks { start_height: u64, count: u32 },
    Ping,
    Pong,
}

impl View for Message {
    type V = MessageView;

    open spec fn view(&self) -> MessageView {
        match self {
            Message::Handshake { version, peer_id } => MessageView::Handshake {
                version: *version,
                peer_id: peer_id@,
            },
            Message::Block(b) => MessageView::Block(b@),
            Message::Transaction(tx) => MessageView::Transaction(tx@),
            Message::GetBlocks { start_height, count } => MessageView::GetBlocks {
                start_height: *start_height,
                count: *count,
            },
            Message::Ping => MessageView::Ping,
            Message::Pong => MessageView::Pong,
        }
    }
}

impl Clone for Message {
    fn clone(&self) -> (copy: Self)
        ensures
            copy@ == self@,
    {
        match self {
            Message::Handshake { version, peer_id } => Message::Handshake {
                version: *version,
                peer_id: *peer_id,
            },
            Message::Block(b) => Message::Block(b.clone()),
            Message::Transaction(tx) => Message::Transaction(tx.clone()),
            Message::GetBlocks { start_height, count } => Message::GetBlocks {
                start_height: *start_height,
                count: *count,
            },
            Message::Ping => Message::Ping,
            Message::Pong => Message::Pong,
        }
    }
}

/// The tag byte of a handshake. Tags follow the declaration order of the
/// variants.
pub const TAG_HANDSHAKE: u8 = 0;

/// The tag byte of a block.
pub const TAG_BLOCK: u8 = 1;

/// The tag byte of a transaction.
pub const TAG_TRANSACTION: u8 = 2;

/// The tag byte of a request for blocks.
pub const TAG_GET_BLOCKS: u8 = 3;

/// The tag byte of a ping.
pub const TAG_PING: u8 = 4;

/// The tag byte of a pong.
pub const TAG_PONG: u8 = 5;

/// A message on the wire.
pub open spec fn enc_message(m: MessageView) -> Seq<u8> {
    match m {
        MessageView::Handshake { version, peer_id } => seq![TAG_HANDSHAKE] + le32(version as int)
            + peer_id,
        MessageView::Block(b) => seq![TAG_BLOCK] + enc_block(b),
        MessageView::Transaction(tx) => seq![TAG_TRANSACTION] + enc_tx(tx),
        MessageView::GetBlocks { start_height, count } => seq![TAG_GET_BLOCKS] + le64(start_height)
            + le32(count as int),
        MessageView::Ping => seq![TAG_PING],
        MessageView::Pong => seq![TAG_PONG],
    }
}

/// Reads the fields of a handshake.
pub open spec fn parse_handshake(s: Seq<u8>) -> Option<(MessageView, Seq<u8>)> {
    match parse_u32(s) {
        Some((version, s1)) => match parse_fixed(s1, 32) {
            Some((peer_id, s2)) => Some(
                (MessageView::Handshake { version: version as u32, peer_id }, s2),
            ),
            None => None,
        },
        None => None,
    }
}

/// Reads the fields of a request for blocks.
pub open spec fn parse_get_blocks(s: Seq<u8>) -> Option<(MessageView, Seq<u8>)> {
    match parse_u64(s) {
        Some((start_height, s1)) => match parse_u32(s1) {
            Some((count, s2)) => Some(
                (MessageView::GetBlocks { start_height, count: count as u32 }, s2),
            ),
            None => None,
        },
        None => None,
    }
}

/// Reads a message: the tag, then the fields of its variant.
pub open spec fn parse_message(s: Seq<u8>) -> Option<(MessageView, Seq<u8>)> {
    if s.len() < 1 {
        None
    } else if s[0] == TAG_HANDSHAKE {
        parse_handshake(s.skip(1))
    } else if s[0] == TAG_BLOCK {
        match parse_block(s.skip(1)) {
            Some((b, rest)) => Some((MessageView::Block(b), rest)),
            None => None,
        }
    } else if s[0] == TAG_TRANSACTION {
        match parse_tx(s.skip(1)) {
            Some((tx, rest)) => Some((MessageView::Transaction(tx), rest)),
            None => None,
        }
    } else if s[0] == TAG_GET_BLOCKS {
        parse_get_blocks(s.skip(1))
    } else if s[0] == TAG_PING {
        Some((MessageView::Ping, s.skip(1)))
    } else if s[0] == TAG_PONG {
        Some((MessageView::Pong, s.skip(1)))
    } else {
        None
    }
}

/// The message that a whole byte string stands for: what parses from its
/// front, where nothing is left behind.
pub open spec fn decode_message(s: Seq<u8>) -> Option<MessageView> {
    match parse_message(s) {
        Some((m, rest)) => if rest.len() == 0 {
            Some(m)
        } else {
            None
        },
        None => None,
    }
}

/// A message whose fields have their sizes and whose counts fit their
/// prefixes.
pub open spec fn message_wire_ok(m: MessageView) -> bool {
    match m {
        MessageView::Handshake { version, peer_id } => peer_id.len() == 32,
        MessageView::Block(b) => block_wire_ok(b),
        MessageView::Transaction(tx) => tx_wire_ok(tx),
        _ => true,
    }
}

/// Every count in the message fits its 32-bit prefix on the wire.
pub open spec fn message_fits(m: MessageView) -> bool {
    match m {
        MessageView::Block(b) => block_fits(b),
        MessageView::Transaction(tx) => tx_fits(tx),
        _ => true,
    }
}

/// A message is read back from the front of its encoding.
pub proof fn lemma_message_round_trip(m: MessageView, rest: Seq<u8>)
    requires
        message_wire_ok(m),
    ensures
        parse_message(enc_message(m) + rest) == Some((m, rest)),
{
    let s = enc_message(m) + rest;
    match m {
        MessageView::Handshake { version, peer_id } => {
            let s1 = peer_id + rest;
            assert(s.skip(1) =~= le32(version as int) + s1);
            lemma_u32_round_trip(version as int, s1);
            lemma_fixed_round_trip(peer_id, rest);
        },
        MessageView::Block(b) => {
            assert(s.skip(1) =~= enc_block(b) + rest);
            lemma_block_round_trip(b, rest);
        },
        MessageView::Transaction(tx) => {
            assert(s.skip(1) =~= enc_tx(tx) + rest);
            lemma_tx_round_trip(tx, rest);
        },
        MessageView::GetBlocks { start_height, count } => {
            let s1 = le32(count as int) + rest;
            assert(s.skip(1) =~= le64(start_height) + s1);
            lemma_u64_round_trip(start_height, s1);
            lemma_u32_round_trip(count as int, rest);
        },
        MessageView::Ping => {
            assert(s.skip(1) =~= rest);
        },
        MessageView::Pong => {
            assert(s.skip(1) =~= rest);
        },
    }
}

/// Decoding the encoding of a message gives the message back.
pub proof fn lemma_message_decodes(m: MessageView)
    requires
        message_wire_ok(m),
    ensures
        decode_message(enc_message(m)) == Some(m),
{
    lemma_message_round_trip(m, Seq::empty());
    assert(enc_message(m) + Seq::<u8>::empty() =~= enc_message(m));
}

/// Only the encoding of a message decodes to it: decoding accepts
/// canonical bytes alone.
pub proof fn lemma_message_decoded_is_canonical(s: Seq<u8>)
    ensures
        decode_message(s) matches Some(m) ==> s == enc_message(m) && message_wire_ok(m),
{
    if s.len() >= 1 {
        let body = s.skip(1);
        assert(s =~= seq![s[0]] + body);
        if s[0] == TAG_HANDSHAKE {
            lemma_u32_canonical(body);
            match parse_u32(body) {
                Some((version, s1)) => {
                    lemma_fixed_canonical(s1, 32);
                    match parse_fixed(s1, 32) {
                        Some((peer_id, s2)) => {
                            if s2.len() == 0 {
                                let m = MessageView::Handshake { version: version as u32, peer_id };
                                assert(s =~= enc_message(m));
                            }
                        },
                        None => {},
                    }
                },
                None => {},
            }
        } else if s[0] == TAG_BLOCK {
            lemma_block_canonical(body);
            match parse_block(body) {
                Some((b, rest)) => {
                    if rest.len() == 0 {
                        assert(s =~= enc_message(MessageView::Block(b)));
                    }
                },
                None => {},
            }
        } else if s[0] == TAG_TRANSACTION {
            lemma_tx_canonical(body);
            match parse_tx(body) {
                Some((tx, rest)) => {
                    if rest.len() == 0 {
                        assert(s =~= enc_message(MessageView::Transaction(tx)));
                    }
                },
                None => {},
            }
        } else if s[0] == TAG_GET_BLOCKS {
            lemma_u64_canonical(body);
            match parse_u64(body) {
                Some((start_height, s1)) => {
                    lemma_u32_canonical(s1);
                    match parse_u32(s1) {
                        Some((count, s2)) => {
                            if s2.len() == 0 {
                                let m = MessageView::GetBlocks {
                                    start_height,
                                    count: count as u32,
                                };
                                assert(s =~= enc_message(m));
                            }
                        },
                        None => {},
                    }
                },
                None => {},
            }
        } else if s[0] == TAG_PING {
            if body.len() == 0 {
                assert(s =~= enc_message(MessageView::Ping));
            }
        } else if s[0] == TAG_PONG {
            if body.len() == 0 {
                assert(s =~= enc_message(MessageView::Pong));
            }
        }
    }
}

impl Message {
    /// Tells whether every count in the message fits its 32-bit prefix on
    /// the wire.
    pub fn fits_wire(&self) -> (ok: bool)
        ensures
            ok == message_fits(self@),
    {
        match self {
            Message::Block(b) => b.fits_wire(),
            Message::Transaction(tx) => tx.fits_wire(),
            _ => true,
        }
    }

    /// The canonical bytes of the message.
    pub fn encode(&self) -> (bytes: Vec<u8>)
        requires
            message_fits(self@),
        ensures
            bytes@ == enc_message(self@),
            decode_message(bytes@) == Some(self@),
    {
        let mut bytes: Vec<u8> = Vec::new();
        match self {
            Message::Handshake { version, peer_id } => {
                bytes.push(TAG_HANDSHAKE);
                put_u32(&mut bytes, *version);
                put_bytes(&mut bytes, peer_id.as_slice());
            },
            Message::Block(b) => {
                bytes.push(TAG_BLOCK);
                put_block(&mut bytes, b);
            },
            Message::Transaction(tx) => {
                bytes.push(TAG_TRANSACTION);
                put_transaction(&mut bytes, tx);
            },
            Message::GetBlocks { start_height, count } => {
                bytes.push(TAG_GET_BLOCKS);
                put_u64(&mut bytes, *start_height);
                put_u32(&mut bytes, *count);
            },
            Message::Ping => {
                bytes.push(TAG_PING);
            },
            Message::Pong => {
                bytes.push(TAG_PONG);
            },
        }
        proof {
            assert(bytes@ =~= enc_message(self@));
            lemma_message_decodes(self@);
        }
        bytes
    }

    /// Decodes a message: succeeds exactly where the whole byte string is
    /// the layout of a message, and returns that message.
    pub fn decode(bytes: &[u8]) -> (res: Result<Self, NetError>)
        ensures
            match decode_message(bytes@) {
                Some(m) => res matches Ok(msg) && msg@ == m,
                None => res matches Err(NetError::Serialization(why)) && why@
                    == "Malformed message"@,
            },
    {
        let parsed = Message::read(bytes);
        match parsed {
            Some((msg, end)) => {
                if end == bytes.len() {
                    Ok(msg)
                } else {
                    Err(NetError::Serialization("Malformed message".to_string()))
                }
            },
            None => Err(NetError::Serialization("Malformed message".to_string())),
        }
    }

    /// Reads a message from the front of the bytes; gives the message and
    /// the position behind it.
    fn read(bytes: &[u8]) -> (res: Option<(Self, usize)>)
        ensures
            match parse_message(bytes@) {
                Some((m, rest)) => {
                    &&& res matches Some((msg, end))
                    &&& msg@ == m
                    &&& end <= bytes@.len()
                    &&& rest == bytes@.skip(end as int)
                },
                None => res is None,
            },
    {
        if bytes.len() < 1 {
            return None;
        }
        let tag = bytes[0];
        if tag == TAG_HANDSHAKE {
            let a = get_u32(bytes, 1);
            if a.is_none() {
                return None;
            }
            let (version, p1) = a.unwrap();
            let b = get_array::<32>(bytes, p1);
            if b.is_none() {
                return None;
            }
            let (peer_id, p2) = b.unwrap();
            Some((Message::Handshake { version, peer_id }, p2))
        } else if tag == TAG_BLOCK {
            match get_block(bytes, 1) {
                Some((b, end)) => Some((Message::Block(b), end)),
                None => None,
            }
        } else if tag == TAG_TRANSACTION {
            match get_transaction(bytes, 1) {
                Some((tx, end)) => Some((Message::Transaction(tx), end)),
                None => None,
            }
        } else if tag == TAG_GET_BLOCKS {
            let a = get_u64(bytes, 1);
            if a.is_none() {
                return None;
            }
            let (start_height, p1) = a.unwrap();
            let b = get_u32(bytes, p1);
            if b.is_none() {
                return None;
            }
            let (count, p2) = b.unwrap();
            Some((Message::GetBlocks { start_height, count }, p2))
        } else if tag == TAG_PING {
            Some((Message::Ping, 1))
        } else if tag == TAG_PONG {
            Some((Message::Pong, 1))
        } else {
            None
        }
    }
}

} // verus!
