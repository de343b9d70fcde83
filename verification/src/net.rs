//! The network boundary, as far as it is pure: peers by address, and the
//! length-prefixed framing of messages on a stream.

use vstd::prelude::*;
use vstd::bytes::{spec_u32_from_le_bytes, u32_from_le_bytes};
use crate::wire::{le32, put_bytes, put_u32};

verus! {

/// A peer, known by its address.
#[derive(Debug)]
pub struct Peer {
    addr: String,
}

impl Peer {
    /// The address of the peer.
    pub closed spec fn address(&self) -> Seq<char> {
        self.addr@
    }

    /// A peer at the given address.
    pub fn new(addr: String) -> (peer: Self)
        ensures
            peer.address() == addr@,
    {
        Peer { addr }
    }

    /// The address to connect to.
    pub fn addr(&self) -> (addr: &str)
        ensures
            addr@ == self.address(),
    {
        self.addr.as_str()
    }
}

/// A message on a stream: its byte count in four little-endian bytes, then
/// its bytes.
pub open spec fn framed(payload: Seq<u8>) -> Seq<u8> {
    le32(payload.len() as int) + payload
}

/// Frames a message for a stream, or gives nothing where the message is
/// too long for its count to fit 32 bits.
pub fn frame(payload: &[u8]) -> (res: Option<Vec<u8>>)
    ensures
        payload@.len() > u32::MAX ==> res is None,
        payload@.len() <= u32::MAX ==> (res matches Some(out) && out@ == framed(payload@)),
{
    if payload.len() > u32::MAX as usize {
        return None;
    }
    let mut out: Vec<u8> = Vec::new();
    put_u32(&mut out, payload.len() as u32);
    put_bytes(&mut out, payload);
    assert(out@ =~= framed(payload@));
    Some(out)
}

/// The byte count that a frame's four-byte prefix announces.
pub fn frame_length(prefix: &[u8; 4]) -> (len: u32)
    ensures
        len == spec_u32_from_le_bytes(prefix@),
{
    u32_from_le_bytes(prefix.as_slice())
}

} // verus!
