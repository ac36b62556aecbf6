//! CRC-32 over byte sequences, named rather than restated.

use vstd::prelude::*;

verus! {

/// The CRC-32 (IEEE) checksum of a byte sequence, as the ZIP format declares
/// it for each entry. The algorithm is a fixed function of the bytes alone;
/// its result is named here and computed by an outside crate.
pub uninterp spec fn crc32_of(s: Seq<u8>) -> u32;

/// Relies on crc32fast::hash: the CRC-32 (IEEE) checksum of the bytes,
/// a function of the bytes alone.
#[verifier::external_body]
pub fn crc32(b: &Vec<u8>) -> (r: u32)
    ensures
        r == crc32_of(b@),
{
    crc32fast::hash(b.as_slice())
}

} // verus!
