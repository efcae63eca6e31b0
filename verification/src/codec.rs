//! In-memory decompression for the three supported codecs. Each codec is
//! an opaque stream transform from compressed bytes to raw bytes; decoding
//! is a function of the input bytes alone, and fails exactly on inputs
//! that are not well-formed for the codec.

use vstd::prelude::*;

verus! {

/// What gzip decoding yields for a byte sequence, or nothing when the
/// bytes are not well-formed gzip data.
pub uninterp spec fn gz_decode(s: Seq<u8>) -> Option<Seq<u8>>;

/// What bzip2 decoding yields for a byte sequence, or nothing when the
/// bytes are not well-formed bzip2 data.
pub uninterp spec fn bz2_decode(s: Seq<u8>) -> Option<Seq<u8>>;

/// What xz decoding yields for a byte sequence, or nothing when the bytes
/// are not well-formed xz data.
pub uninterp spec fn xz_decode(s: Seq<u8>) -> Option<Seq<u8>>;

/// One of the three supported compression codecs.
#[derive(Debug, PartialEq, Eq, Structural, Clone, Copy)]
pub enum Codec {
    Xz,
    Gz,
    Bz2,
}

/// What decoding under a codec yields.
pub open spec fn decode_spec(c: Codec, s: Seq<u8>) -> Option<Seq<u8>> {
    match c {
        Codec::Xz => xz_decode(s),
        Codec::Gz => gz_decode(s),
        Codec::Bz2 => bz2_decode(s),
    }
}

/// Decompression failed: the input bytes are not well-formed for the
/// requested codec.
#[derive(Debug, PartialEq, Eq, Structural, Clone, Copy)]
pub struct DecodeError;

/// Relies on flate2's `bufread::GzDecoder` (with `Read::read_to_end`):
/// decoding an in-memory buffer returns the decompressed bytes, a function
/// of the input bytes alone, and errs exactly on malformed input.
#[verifier::external_body]
fn gz_decode_bytes(input: &Vec<u8>) -> (r: Option<Vec<u8>>)
    ensures
        match r {
            Option::Some(v) => gz_decode(input@) == Option::Some(v@),
            Option::None => gz_decode(input@) is None,
        },
{
    let mut out = Vec::new();
    let mut d = flate2::bufread::GzDecoder::new(&input[..]);
    match std::io::Read::read_to_end(&mut d, &mut out) {
        Ok(_) => Some(out),
        Err(_) => None,
    }
}

/// Relies on bzip2's `bufread::BzDecoder` (with `Read::read_to_end`):
/// decoding an in-memory buffer returns the decompressed bytes, a function
/// of the input bytes alone, and errs exactly on malformed input.
#[verifier::external_body]
fn bz2_decode_bytes(input: &Vec<u8>) -> (r: Option<Vec<u8>>)
    ensures
        match r {
            Option::Some(v) => bz2_decode(input@) == Option::Some(v@),
            Option::None => bz2_decode(input@) is None,
        },
{
    let mut out = Vec::new();
    let mut d = bzip2::bufread::BzDecoder::new(&input[..]);
    match std::io::Read::read_to_end(&mut d, &mut out) {
        Ok(_) => Some(out),
        Err(_) => None,
    }
}

/// Relies on xz2's `bufread::XzDecoder` (with `Read::read_to_end`):
/// decoding an in-memory buffer returns the decompressed bytes, a function
/// of the input bytes alone, and errs exactly on malformed input.
#[verifier::external_body]
fn xz_decode_bytes(input: &Vec<u8>) -> (r: Option<Vec<u8>>)
    ensures
        match r {
            Option::Some(v) => xz_decode(input@) == Option::Some(v@),
            Option::None => xz_decode(input@) is None,
        },
{
    let mut out = Vec::new();
    let mut d = xz2::bufread::XzDecoder::new(&input[..]);
    match std::io::Read::read_to_end(&mut d, &mut out) {
        Ok(_) => Some(out),
        Err(_) => None,
    }
}

/// Decompresses an in-memory buffer under the given codec: returns exactly
/// the decoded bytes when the input is well-formed for the codec, and a
/// decode error otherwise.
pub fn decompress(codec: Codec, input: &Vec<u8>) -> (r: Result<Vec<u8>, DecodeError>)
    ensures
        match r {
            Result::Ok(v) => decode_spec(codec, input@) == Option::Some(v@),
            Result::Err(e) => decode_spec(codec, input@) is None,
        },
{
    let decoded = match codec {
        Codec::Xz => xz_decode_bytes(input),
        Codec::Gz => gz_decode_bytes(input),
        Codec::Bz2 => bz2_decode_bytes(input),
    };
    match decoded {
        Option::Some(v) => Result::Ok(v),
        Option::None => Result::Err(DecodeError),
    }
}

} // verus!
