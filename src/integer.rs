//! Bolt integers: the narrowest of tiny, 8, 16, 32 and 64 bits on write, any on read.
use vstd::prelude::*;

use crate::be::{lemma_u16_round_trip, lemma_u32_round_trip, lemma_u64_round_trip, put_u16, put_u32, put_u64, u16_at, u16_bytes, u16_of, u32_at, u32_bytes, u32_of, u64_at, u64_bytes, u64_of};
use crate::error::CodecError;

verus! {

pub const MARKER_INT_8: u8 = 0xC8;

pub const MARKER_INT_16: u8 = 0xC9;

pub const MARKER_INT_32: u8 = 0xCA;

pub const MARKER_INT_64: u8 = 0xCB;

/// Whether a marker byte is itself a tiny integer (-16 to 127 as a signed byte).
pub open spec fn is_tiny_marker(m: u8) -> bool {
    m >= 0xF0 || m <= 0x7F
}

/// The marker the encoder chooses for `v`: the narrowest width that holds it.
pub open spec fn int_marker(v: i64) -> u8 {
    if -16 <= v <= 127 {
        v as u8
    } else if -128 <= v <= 127 {
        MARKER_INT_8
    } else if -32768 <= v <= 32767 {
        MARKER_INT_16
    } else if -2147483648 <= v <= 2147483647 {
        MARKER_INT_32
    } else {
        MARKER_INT_64
    }
}

/// The canonical encoding of `v`: its marker, then its two's complement in big-endian order.
pub open spec fn int_encoding(v: i64) -> Seq<u8> {
    if -16 <= v <= 127 {
        seq![v as u8]
    } else if -128 <= v <= 127 {
        seq![MARKER_INT_8, v as u8]
    } else if -32768 <= v <= 32767 {
        seq![MARKER_INT_16] + u16_bytes(v as u16)
    } else if -2147483648 <= v <= 2147483647 {
        seq![MARKER_INT_32] + u32_bytes(v as u32)
    } else {
        seq![MARKER_INT_64] + u64_bytes(v as u64)
    }
}

/// The number of bytes an integer that starts with marker `m` takes, marker included.
pub open spec fn int_width(m: u8) -> int {
    if m == MARKER_INT_8 {
        2
    } else if m == MARKER_INT_16 {
        3
    } else if m == MARKER_INT_32 {
        5
    } else if m == MARKER_INT_64 {
        9
    } else {
        1
    }
}

/// Whether `m` starts an integer.
pub open spec fn is_int_marker(m: u8) -> bool {
    is_tiny_marker(m) || m == MARKER_INT_8 || m == MARKER_INT_16 || m == MARKER_INT_32 || m
        == MARKER_INT_64
}

/// The integer whose encoding (of any width) starts `b`, with the number of bytes it takes.
pub open spec fn decode_int(b: Seq<u8>) -> Result<(i64, int), CodecError> {
    if b.len() == 0 {
        Err(CodecError::UnexpectedEof)
    } else if !is_int_marker(b[0]) {
        Err(CodecError::InvalidMarker(b[0]))
    } else if b.len() < int_width(b[0]) {
        Err(CodecError::UnexpectedEof)
    } else if b[0] == MARKER_INT_8 {
        Ok((b[1] as i8 as i64, 2))
    } else if b[0] == MARKER_INT_16 {
        Ok((u16_of(b[1], b[2]) as i16 as i64, 3))
    } else if b[0] == MARKER_INT_32 {
        Ok((u32_of(b[1], b[2], b[3], b[4]) as i32 as i64, 5))
    } else if b[0] == MARKER_INT_64 {
        Ok((u64_of(b.subrange(1, 9)) as i64, 9))
    } else {
        Ok((b[0] as i8 as i64, 1))
    }
}

/// Every integer reads back as itself from its encoding, whatever follows it, and the
/// reader takes exactly the encoded bytes.
pub proof fn lemma_integer_round_trip(v: i64, rest: Seq<u8>)
    ensures
        decode_int(int_encoding(v) + rest) == Ok::<(i64, int), CodecError>(
            (v, int_encoding(v).len() as int),
        ),
{
    let b = int_encoding(v) + rest;
    if -16 <= v <= 127 {
        assert((v as u8) >= 0xF0u8 || (v as u8) <= 0x7Fu8) by (bit_vector)
            requires
                -16 <= v <= 127,
        ;
        assert((v as u8) as i8 as i64 == v) by (bit_vector)
            requires
                -16 <= v <= 127,
        ;
        assert(b[0] == v as u8);
    } else if -128 <= v <= 127 {
        assert((v as u8) as i8 as i64 == v) by (bit_vector)
            requires
                -128 <= v <= 127,
        ;
        assert(b[1] == v as u8);
    } else if -32768 <= v <= 32767 {
        let x = v as u16;
        lemma_u16_round_trip(x);
        assert(x as i16 as i64 == v) by (bit_vector)
            requires
                -32768 <= v <= 32767,
                x == v as u16,
        ;
        assert(b[1] == u16_bytes(x)[0] && b[2] == u16_bytes(x)[1]);
    } else if -2147483648 <= v <= 2147483647 {
        let x = v as u32;
        lemma_u32_round_trip(x);
        assert(x as i32 as i64 == v) by (bit_vector)
            requires
                -2147483648 <= v <= 2147483647,
                x == v as u32,
        ;
        assert(b[1] == u32_bytes(x)[0] && b[2] == u32_bytes(x)[1] && b[3] == u32_bytes(x)[2] && b[4]
            == u32_bytes(x)[3]);
    } else {
        let x = v as u64;
        lemma_u64_round_trip(x);
        assert(x as i64 == v) by (bit_vector)
            requires
                x == v as u64,
        ;
        assert(b.subrange(1, 9) =~= u64_bytes(x));
    }
}

/// The first byte of an integer's encoding starts an integer and no other kind of value.
pub proof fn lemma_int_marker_class(v: i64)
    ensures
        is_int_marker(int_encoding(v)[0]),
        int_encoding(v)[0] < 0x80 || int_encoding(v)[0] >= 0xF0 || (0xC8 <= int_encoding(v)[0]
            <= 0xCB),
{
    if -16 <= v <= 127 {
        assert((v as u8) >= 0xF0u8 || (v as u8) <= 0x7Fu8) by (bit_vector)
            requires
                -16 <= v <= 127,
        ;
    }
}

/// No encoding of an integer, of any width, is shorter than the one the encoder writes.
pub proof fn lemma_integer_encoding_narrowest(b: Seq<u8>)
    requires
        decode_int(b) is Ok,
    ensures
        decode_int(b) matches Ok((v, n)) && int_encoding(v).len() <= n,
{
    let m = b[0];
    if is_tiny_marker(m) {
        assert(-16 <= m as i8 as i64 <= 127) by (bit_vector)
            requires
                m >= 0xF0u8 || m <= 0x7Fu8,
        ;
    }
}

/// A Bolt integer: a signed 64-bit value, written in the narrowest form that holds it.
#[derive(Debug, Clone, Copy, PartialEq, Eq, Hash)]
pub struct Integer {
    pub value: i64,
}

impl Integer {
    pub fn new(value: i64) -> (r: Integer)
        ensures
            r.value == value,
    {
        Integer { value }
    }

    /// The marker byte this integer is written with.
    pub fn get_marker(&self) -> (r: u8)
        ensures
            r == int_marker(self.value),
    {
        let v = self.value;
        if -16 <= v && v <= 127 {
            v as u8
        } else if -128 <= v && v <= 127 {
            MARKER_INT_8
        } else if -32768 <= v && v <= 32767 {
            MARKER_INT_16
        } else if -2147483648 <= v && v <= 2147483647 {
            MARKER_INT_32
        } else {
            MARKER_INT_64
        }
    }

    /// The canonical bytes of this integer.
    pub fn try_into_bytes(&self) -> (r: Vec<u8>)
        ensures
            r@ == int_encoding(self.value),
    {
        let mut out: Vec<u8> = Vec::new();
        put_integer(&mut out, self.value);
        assert(out@ =~= int_encoding(self.value));
        out
    }

    /// Reads an integer from the start of `b`, in any of the widths.
    pub fn try_from_bytes(b: &[u8]) -> (r: Result<Integer, CodecError>)
        ensures
            r matches Ok(i) ==> decode_int(b@) matches Ok((v, _)) && i.value == v,
            r matches Err(e) ==> decode_int(b@) == Err::<(i64, int), CodecError>(e),
            decode_int(b@) is Ok ==> r is Ok,
    {
        match read_integer(b, 0) {
            Ok((v, _)) => Ok(Integer { value: v }),
            Err(e) => Err(e),
        }
    }
}

impl From<i8> for Integer {
    fn from(v: i8) -> (r: Integer) {
        Integer { value: v as i64 }
    }
}

impl vstd::std_specs::convert::FromSpecImpl<i8> for Integer {
    open spec fn obeys_from_spec() -> bool {
        true
    }

    open spec fn from_spec(v: i8) -> Integer {
        Integer { value: v as i64 }
    }
}

impl From<i16> for Integer {
    fn from(v: i16) -> (r: Integer) {
        Integer { value: v as i64 }
    }
}

impl vstd::std_specs::convert::FromSpecImpl<i16> for Integer {
    open spec fn obeys_from_spec() -> bool {
        true
    }

    open spec fn from_spec(v: i16) -> Integer {
        Integer { value: v as i64 }
    }
}

impl From<i32> for Integer {
    fn from(v: i32) -> (r: Integer) {
        Integer { value: v as i64 }
    }
}

impl vstd::std_specs::convert::FromSpecImpl<i32> for Integer {
    open spec fn obeys_from_spec() -> bool {
        true
    }

    open spec fn from_spec(v: i32) -> Integer {
        Integer { value: v as i64 }
    }
}

impl From<i64> for Integer {
    fn from(v: i64) -> (r: Integer) {
        Integer { value: v as i64 }
    }
}

impl vstd::std_specs::convert::FromSpecImpl<i64> for Integer {
    open spec fn obeys_from_spec() -> bool {
        true
    }

    open spec fn from_spec(v: i64) -> Integer {
        Integer { value: v as i64 }
    }
}

/// Appends the canonical encoding of `v`.
pub fn put_integer(out: &mut Vec<u8>, v: i64)
    ensures
        final(out)@ == old(out)@ + int_encoding(v),
{
    if -16 <= v && v <= 127 {
        out.push(v as u8);
    } else if -128 <= v && v <= 127 {
        out.push(MARKER_INT_8);
        out.push(v as u8);
    } else if -32768 <= v && v <= 32767 {
        out.push(MARKER_INT_16);
        put_u16(out, v as u16);
    } else if -2147483648 <= v && v <= 2147483647 {
        out.push(MARKER_INT_32);
        put_u32(out, v as u32);
    } else {
        out.push(MARKER_INT_64);
        put_u64(out, v as u64);
    }
    assert(final(out)@ =~= old(out)@ + int_encoding(v));
}

/// Reads the integer that starts at `pos`, returning it with the position after it.
pub fn read_integer(b: &[u8], pos: usize) -> (r: Result<(i64, usize), CodecError>)
    requires
        pos <= b@.len(),
    ensures
        r matches Ok((v, end)) ==> decode_int(b@.subrange(pos as int, b@.len() as int)) == Ok::<
            (i64, int),
            CodecError,
        >((v, end - pos)),
        r matches Err(e) ==> decode_int(b@.subrange(pos as int, b@.len() as int)) == Err::<
            (i64, int),
            CodecError,
        >(e),
{
    let ghost rest = b@.subrange(pos as int, b@.len() as int);
    let len = b.len();
    if pos == len {
        return Err(CodecError::UnexpectedEof);
    }
    let m = b[pos];
    let avail = len - pos;
    if m >= 0xF0 || m <= 0x7F {
        Ok((m as i8 as i64, pos + 1))
    } else if m == MARKER_INT_8 {
        if avail < 2 {
            return Err(CodecError::UnexpectedEof);
        }
        Ok((b[pos + 1] as i8 as i64, pos + 2))
    } else if m == MARKER_INT_16 {
        if avail < 3 {
            return Err(CodecError::UnexpectedEof);
        }
        Ok((u16_at(b, pos + 1) as i16 as i64, pos + 3))
    } else if m == MARKER_INT_32 {
        if avail < 5 {
            return Err(CodecError::UnexpectedEof);
        }
        Ok((u32_at(b, pos + 1) as i32 as i64, pos + 5))
    } else if m == MARKER_INT_64 {
        if avail < 9 {
            return Err(CodecError::UnexpectedEof);
        }
        let x = u64_at(b, pos + 1);
        assert(b@.subrange(pos + 1, pos + 9) =~= rest.subrange(1, 9));
        Ok((x as i64, pos + 9))
    } else {
        Err(CodecError::InvalidMarker(m))
    }
}

} // verus!
