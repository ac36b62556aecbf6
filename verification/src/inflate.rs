//! Raw Deflate decompression, named rather than restated.

use vstd::prelude::*;
use std::io::Read;

verus! {

/// What decoding a raw Deflate stream yields: `Some` of the decompressed
/// bytes when the stream is well-formed and complete, `None` when it is
/// corrupt or truncated. Decoding is a fixed function of the compressed
/// bytes alone; its result is named here and computed by an outside crate.
pub uninterp spec fn inflate_of(s: Seq<u8>) -> Option<Seq<u8>>;

/// Relies on flate2::bufread::DeflateDecoder: reading it to the end yields
/// the decompressed form of the raw Deflate stream in `b`, or an error when
/// the stream is corrupt or ends early. The outcome depends on the bytes
/// alone.
#[verifier::external_body]
pub fn inflate(b: &Vec<u8>) -> (r: Option<Vec<u8>>)
    ensures
        match r {
            Some(d) => inflate_of(b@) == Some(d@),
            None => inflate_of(b@) is None,
        },
{
    let mut decoder = flate2::bufread::DeflateDecoder::new(b.as_slice());
    let mut out: Vec<u8> = Vec::new();
    match decoder.read_to_end(&mut out) {
        Ok(_) => Some(out),
        Err(_) => None,
    }
}

} // verus!
