//! Little-endian integer fields, as the ZIP container stores them.

use vstd::prelude::*;

verus! {

/// The 16-bit little-endian value whose two bytes sit at `i` in `s`.
pub open spec fn u16_le(s: Seq<u8>, i: int) -> int {
    s[i] + 256 * s[i + 1]
}

/// The 32-bit little-endian value whose four bytes sit at `i` in `s`.
pub open spec fn u32_le(s: Seq<u8>, i: int) -> int {
    u16_le(s, i) + 0x10000 * u16_le(s, i + 2)
}

/// The 64-bit little-endian value whose eight bytes sit at `i` in `s`.
pub open spec fn u64_le(s: Seq<u8>, i: int) -> int {
    u32_le(s, i) + 0x1_0000_0000 * u32_le(s, i + 4)
}

pub fn read_u16(b: &Vec<u8>, i: usize) -> (r: u16)
    requires
        i + 2 <= b.len(),
    ensures
        r == u16_le(b@, i as int),
{
    b[i] as u16 + (b[i + 1] as u16) * 256
}

pub fn read_u32(b: &Vec<u8>, i: usize) -> (r: u32)
    requires
        i + 4 <= b.len(),
    ensures
        r == u32_le(b@, i as int),
{
    let lo = read_u16(b, i);
    let hi = read_u16(b, i + 2);
    lo as u32 + (hi as u32) * 0x10000
}

pub fn read_u64(b: &Vec<u8>, i: usize) -> (r: u64)
    requires
        i + 8 <= b.len(),
    ensures
        r == u64_le(b@, i as int),
{
    let lo = read_u32(b, i);
    let hi = read_u32(b, i + 4);
    lo as u64 + (hi as u64) * 0x1_0000_0000
}

/// A fresh copy of the bytes of `b` from `start` (inclusive) to `end`
/// (exclusive).
pub fn copy_range(b: &Vec<u8>, start: usize, end: usize) -> (r: Vec<u8>)
    requires
        start <= end,
        end <= b.len(),
    ensures
        r@ == b@.subrange(start as int, end as int),
{
    let mut out: Vec<u8> = Vec::new();
    let mut i: usize = start;
    while i < end
        invariant
            start <= i <= end,
            end <= b.len(),
            out@ == b@.subrange(start as int, i as int),
        decreases end - i,
    {
        out.push(b[i]);
        i = i + 1;
        proof {
            assert(out@ =~= b@.subrange(start as int, i as int));
        }
    }
    out
}

} // verus!
