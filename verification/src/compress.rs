//! Decompression of a chunk payload: a little-endian 32-bit size hint
//! followed by a zlib stream.

use vstd::prelude::*;

use crate::bytes::{read_bytes, read_le_u32};
use crate::error::MetricParseError;

verus! {

/// What the zlib stream in `s` inflates to, or nothing when `s` is not a
/// well-formed zlib stream.
pub uninterp spec fn zlib_inflate(s: Seq<u8>) -> Option<Seq<u8>>;

/// Relies on flate2's `ZlibDecoder` together with `Read::read_to_end`: the
/// outcome is a function of the input bytes alone, and the size hint only
/// pre-allocates the output buffer.
#[verifier::external_body]
fn inflate_zlib(data: &Vec<u8>, size_hint: usize) -> (r: Result<Vec<u8>, String>)
    ensures
        match r {
            Ok(v) => zlib_inflate(data@) == Option::Some(v@),
            Err(_) => zlib_inflate(data@) is None,
        },
{
    let mut decoder = flate2::read::ZlibDecoder::new(data.as_slice());
    let mut buffer: Vec<u8> = Vec::with_capacity(size_hint);
    match std::io::Read::read_to_end(&mut decoder, &mut buffer) {
        Ok(_) => Ok(buffer),
        Err(e) => Err(e.to_string()),
    }
}

/// Inflates a chunk payload: reads the four-byte size hint, then the zlib
/// stream that makes up the rest of the payload.
pub fn decompress(data: &[u8]) -> (r: Result<Vec<u8>, MetricParseError>)
    ensures
        match r {
            Ok(v) => data@.len() >= 4 && zlib_inflate(
                data@.subrange(4, data@.len() as int),
            ) == Option::Some(v@),
            Err(MetricParseError::Io { .. }) => data@.len() < 4 || zlib_inflate(
                data@.subrange(4, data@.len() as int),
            ) is None,
            Err(_) => false,
        },
{
    let mut pos: usize = 0;
    let hint = match read_le_u32(data, &mut pos) {
        Ok(v) => v,
        Err(_) => {
            return Err(
                MetricParseError::Io {
                    message: String::from_str("the payload ends before its size hint"),
                },
            );
        },
    };
    let rest = match read_bytes(data, &mut pos, data.len() - 4) {
        Ok(v) => v,
        Err(_) => {
            return Err(
                MetricParseError::Io { message: String::from_str("the payload cannot be read") },
            );
        },
    };
    match inflate_zlib(&rest, hint as usize) {
        Ok(v) => Ok(v),
        Err(message) => Err(MetricParseError::Io { message }),
    }
}

} // verus!
