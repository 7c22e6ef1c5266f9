//! Big-endian fixed-width integers: what a byte cursor reads and writes.
use vstd::prelude::*;

verus! {

/// Big-endian bytes of a 16-bit unsigned integer.
pub open spec fn u16_bytes(x: u16) -> Seq<u8> {
    seq![(x >> 8u16) as u8, x as u8]
}

/// Big-endian bytes of a 32-bit unsigned integer.
pub open spec fn u32_bytes(x: u32) -> Seq<u8> {
    seq![(x >> 24u32) as u8, (x >> 16u32) as u8, (x >> 8u32) as u8, x as u8]
}

/// Big-endian bytes of a 64-bit unsigned integer.
pub open spec fn u64_bytes(x: u64) -> Seq<u8> {
    u32_bytes((x >> 32u64) as u32) + u32_bytes(x as u32)
}

/// The 16-bit unsigned integer whose big-endian bytes are `b0 b1`.
pub open spec fn u16_of(b0: u8, b1: u8) -> u16 {
    ((b0 as u16) << 8u16) | (b1 as u16)
}

/// The 32-bit unsigned integer whose big-endian bytes are `b0 .. b3`.
pub open spec fn u32_of(b0: u8, b1: u8, b2: u8, b3: u8) -> u32 {
    ((b0 as u32) << 24u32) | ((b1 as u32) << 16u32) | ((b2 as u32) << 8u32) | (b3 as u32)
}

/// The 64-bit unsigned integer whose big-endian bytes are `b[0] .. b[7]`.
pub open spec fn u64_of(b: Seq<u8>) -> u64 {
    ((u32_of(b[0], b[1], b[2], b[3]) as u64) << 32u64) | (u32_of(b[4], b[5], b[6], b[7]) as u64)
}

pub proof fn lemma_u16_round_trip(x: u16)
    ensures
        u16_of(u16_bytes(x)[0], u16_bytes(x)[1]) == x,
{
    let b0 = (x >> 8u16) as u8;
    let b1 = x as u8;
    assert(((b0 as u16) << 8u16) | (b1 as u16) == x) by (bit_vector)
        requires
            b0 == (x >> 8u16) as u8,
            b1 == x as u8,
    ;
}

pub proof fn lemma_u32_round_trip(x: u32)
    ensures
        u32_of(u32_bytes(x)[0], u32_bytes(x)[1], u32_bytes(x)[2], u32_bytes(x)[3]) == x,
{
    let b0 = (x >> 24u32) as u8;
    let b1 = (x >> 16u32) as u8;
    let b2 = (x >> 8u32) as u8;
    let b3 = x as u8;
    assert(((b0 as u32) << 24u32) | ((b1 as u32) << 16u32) | ((b2 as u32) << 8u32) | (b3 as u32)
        == x) by (bit_vector)
        requires
            b0 == (x >> 24u32) as u8,
            b1 == (x >> 16u32) as u8,
            b2 == (x >> 8u32) as u8,
            b3 == x as u8,
    ;
}

pub proof fn lemma_u64_round_trip(x: u64)
    ensures
        u64_of(u64_bytes(x)) == x,
{
    let hi = (x >> 32u64) as u32;
    let lo = x as u32;
    lemma_u32_round_trip(hi);
    lemma_u32_round_trip(lo);
    assert(((hi as u64) << 32u64) | (lo as u64) == x) by (bit_vector)
        requires
            hi == (x >> 32u64) as u32,
            lo == x as u32,
    ;
}

/// Appends the big-endian bytes of `x`.
pub fn put_u16(out: &mut Vec<u8>, x: u16)
    ensures
        final(out)@ == old(out)@ + u16_bytes(x),
{
    out.push((x >> 8u16) as u8);
    out.push(x as u8);
    assert(final(out)@ =~= old(out)@ + u16_bytes(x));
}

/// Appends the big-endian bytes of `x`.
pub fn put_u32(out: &mut Vec<u8>, x: u32)
    ensures
        final(out)@ == old(out)@ + u32_bytes(x),
{
    out.push((x >> 24u32) as u8);
    out.push((x >> 16u32) as u8);
    out.push((x >> 8u32) as u8);
    out.push(x as u8);
    assert(final(out)@ =~= old(out)@ + u32_bytes(x));
}

/// Appends the big-endian bytes of `x`.
pub fn put_u64(out: &mut Vec<u8>, x: u64)
    ensures
        final(out)@ == old(out)@ + u64_bytes(x),
{
    put_u32(out, (x >> 32u64) as u32);
    put_u32(out, x as u32);
    assert(final(out)@ =~= old(out)@ + u64_bytes(x));
}

/// Reads the 16-bit big-endian integer that starts at `pos`.
pub fn u16_at(b: &[u8], pos: usize) -> (r: u16)
    requires
        pos + 2 <= b@.len(),
    ensures
        r == u16_of(b@[pos as int], b@[pos + 1]),
{
    ((b[pos] as u16) << 8u16) | (b[pos + 1] as u16)
}

/// Reads the 32-bit big-endian integer that starts at `pos`.
pub fn u32_at(b: &[u8], pos: usize) -> (r: u32)
    requires
        pos + 4 <= b@.len(),
    ensures
        r == u32_of(b@[pos as int], b@[pos + 1], b@[pos + 2], b@[pos + 3]),
{
    ((b[pos] as u32) << 24u32) | ((b[pos + 1] as u32) << 16u32) | ((b[pos + 2] as u32) << 8u32) | (
    b[pos + 3] as u32)
}

/// Reads the 64-bit big-endian integer that starts at `pos`.
pub fn u64_at(b: &[u8], pos: usize) -> (r: u64)
    requires
        pos + 8 <= b@.len(),
    ensures
        r == u64_of(b@.subrange(pos as int, pos + 8)),
{
    let _len = b.len();
    let hi = u32_at(b, pos);
    let lo = u32_at(b, pos + 4);
    ((hi as u64) << 32u64) | (lo as u64)
}

} // verus!
