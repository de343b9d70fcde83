//! Zstandard framing of byte strings.

use vstd::prelude::*;

verus! {

/// What Zstandard decompression recovers from a byte string, where the
/// byte string decompresses at all.
pub uninterp spec fn zstd_content(frame: Seq<u8>) -> Option<Seq<u8>>;

/// The error type of `std::io`, carried through as an opaque value.
#[verifier::external_type_specification]
#[verifier::external_body]
pub struct ExIoError(std::io::Error);

/// Compresses a byte string.
///
/// Calls `zstd::encode_all` on the bytes at the given level. Trusted: where
/// it succeeds, the frame it returns is one that decompression recovers the
/// input from, compression being lossless; nothing is promised of whether it
/// succeeds.
#[verifier::external_body]
pub(crate) fn zstd_encode(data: &[u8], level: i32) -> (res: Result<Vec<u8>, std::io::Error>)
    ensures
        res matches Ok(frame) ==> zstd_content(frame@) == Some(data@),
{
    zstd::encode_all(data, level)
}

/// Decompresses a byte string.
///
/// Calls `zstd::decode_all` on the bytes. Trusted: whether it succeeds, and
/// with what, depends on the bytes alone; the outcome is named
/// `zstd_content`.
#[verifier::external_body]
pub(crate) fn zstd_decode(frame: &[u8]) -> (res: Result<Vec<u8>, std::io::Error>)
    ensures
        match res {
            Ok(data) => zstd_content(frame@) == Some(data@),
            Err(_) => zstd_content(frame@) is None,
        },
{
    zstd::decode_all(frame)
}

/// The text of an I/O error.
///
/// Calls `ToString::to_string` on the error. Nothing is promised of the
/// text.
#[verifier::external_body]
pub(crate) fn io_error_text(e: &std::io::Error) -> (text: String) {
    e.to_string()
}

} // verus!
