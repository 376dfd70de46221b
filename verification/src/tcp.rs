//! The market-data TCP protocol: request templates, response codecs, and
//! the pure parts of the framing layer. The socket itself lives outside
//! this library; everything here works on byte buffers.
//!
//! A frame is a 16-byte header followed by a body of the length the header
//! declares at offset 12; when that length differs from the inflated length
//! at offset 14, the body is zlib-compressed.

pub mod basic;
pub mod helper;
pub mod kline;
pub mod xdxr;

use vstd::prelude::*;

verus! {

use crate::bytes_helper::u16_from_le_bytes;
use crate::file::lc::u16_le_at;
use crate::Error;

/// Number of bytes of a frame header.
pub const RECV_SIZE: usize = 16;

/// What a zlib stream inflates to, or nothing when the stream is not a
/// well-formed zlib stream.
pub uninterp spec fn zlib_inflated(s: Seq<u8>) -> Option<Seq<u8>>;

/// Relies on miniz_oxide::inflate::decompress_to_vec_zlib: what a zlib
/// stream inflates to depends on the stream's bytes alone, and an error
/// means the bytes are not a well-formed zlib stream.
#[verifier::external_body]
fn inflate_zlib(buf: &[u8]) -> (r: Option<Vec<u8>>)
    ensures
        match r {
            Some(v) => zlib_inflated(buf@) == Some(v@),
            None => zlib_inflated(buf@) is None,
        },
{
    miniz_oxide::inflate::decompress_to_vec_zlib(buf).ok()
}

/// The deflated and inflated body lengths a frame header declares, at
/// offsets 12 and 14.
pub fn frame_sizes(header: &[u8]) -> (r: (u16, u16))
    requires
        header@.len() >= 16,
    ensures
        r.0 == u16_le_at(header@, 12),
        r.1 == u16_le_at(header@, 14),
{
    (u16_from_le_bytes(header, 12), u16_from_le_bytes(header, 14))
}

/// What a frame body carries: itself when the header declares equal
/// lengths, otherwise its zlib inflation, which must have exactly the
/// declared inflated length.
pub open spec fn spec_frame_body(body: Seq<u8>, deflated: u16, inflated: u16) -> Option<Seq<u8>> {
    if deflated == inflated {
        Some(body)
    } else {
        match zlib_inflated(body) {
            Some(v) => if v.len() == inflated {
                Some(v)
            } else {
                None
            },
            None => None,
        }
    }
}

/// Recover the payload of a frame body: inflate it when the header says it
/// is compressed, and fail with `CorruptFrame` when the inflation fails or
/// disagrees with the declared length.
pub fn decompress_body(body: Vec<u8>, deflated: u16, inflated: u16) -> (r: Result<Vec<u8>, Error>)
    ensures
        r is Ok <==> spec_frame_body(body@, deflated, inflated) is Some,
        r matches Ok(v) ==> spec_frame_body(body@, deflated, inflated) == Some(v@),
        r matches Err(e) ==> e == Error::CorruptFrame,
{
    if deflated == inflated {
        Ok(body)
    } else {
        match inflate_zlib(body.as_slice()) {
            Some(v) => {
                if v.len() == inflated as usize {
                    Ok(v)
                } else {
                    Err(Error::CorruptFrame)
                }
            },
            None => Err(Error::CorruptFrame),
        }
    }
}

} // verus!
