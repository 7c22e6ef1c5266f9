//! The value codec: how each Bolt value is written, and how bytes are read back.
use vstd::prelude::*;
use vstd::utf8::{decode_utf8, encode_utf8, valid_utf8};

use crate::be::{u16_bytes, u16_of, u32_bytes, u32_of, u64_bytes, u64_of};
use crate::error::CodecError;
use crate::be::{lemma_u16_round_trip, lemma_u32_round_trip, lemma_u64_round_trip};
use crate::integer::{decode_int, int_encoding, is_int_marker, lemma_int_marker_class, lemma_integer_round_trip};
use crate::value::ValueModel;

verus! {

pub const MARKER_NULL: u8 = 0xC0;

pub const MARKER_FLOAT: u8 = 0xC1;

pub const MARKER_FALSE: u8 = 0xC2;

pub const MARKER_TRUE: u8 = 0xC3;

pub const MARKER_BYTES_8: u8 = 0xCC;

pub const MARKER_TINY_STRING: u8 = 0x80;

pub const MARKER_STRING_8: u8 = 0xD0;

pub const MARKER_TINY_LIST: u8 = 0x90;

pub const MARKER_LIST_8: u8 = 0xD4;

pub const MARKER_TINY_MAP: u8 = 0xA0;

pub const MARKER_MAP_8: u8 = 0xD8;

pub const MARKER_TINY_STRUCT: u8 = 0xB0;

/// The largest length a size prefix can announce.
pub const MAX_SIZE: u64 = 0xFFFF_FFFF;

/// The largest number of fields a structure can have.
pub const MAX_FIELDS: usize = 15;

/// A size `n` behind the 8-, 16- or 32-bit marker of a family that starts at `base`,
/// in the narrowest of the three.
pub open spec fn wide_header(base: u8, n: int) -> Seq<u8> {
    if n < 0x100 {
        seq![base, n as u8]
    } else if n < 0x10000 {
        seq![(base + 1) as u8] + u16_bytes(n as u16)
    } else {
        seq![(base + 2) as u8] + u32_bytes(n as u32)
    }
}

/// A size `n` in the narrowest form of a family with a tiny marker `tiny`.
pub open spec fn size_header(tiny: u8, base: u8, n: int) -> Seq<u8> {
    if n < 16 {
        seq![(tiny + n) as u8]
    } else {
        wide_header(base, n)
    }
}

/// The size behind a wide marker of the family at `base`, and the header's length.
pub open spec fn parse_wide(b: Seq<u8>, base: u8) -> Result<(int, int), CodecError> {
    if b.len() == 0 {
        Err(CodecError::UnexpectedEof)
    } else if b[0] == base {
        if b.len() < 2 {
            Err(CodecError::UnexpectedEof)
        } else {
            Ok((b[1] as int, 2))
        }
    } else if b[0] == base + 1 {
        if b.len() < 3 {
            Err(CodecError::UnexpectedEof)
        } else {
            Ok((u16_of(b[1], b[2]) as int, 3))
        }
    } else if b[0] == base + 2 {
        if b.len() < 5 {
            Err(CodecError::UnexpectedEof)
        } else {
            Ok((u32_of(b[1], b[2], b[3], b[4]) as int, 5))
        }
    } else {
        Err(CodecError::InvalidMarker(b[0]))
    }
}

/// The size behind a marker of the family with tiny marker `tiny`, and the header's length.
pub open spec fn parse_size(b: Seq<u8>, tiny: u8, base: u8) -> Result<(int, int), CodecError> {
    if b.len() > 0 && tiny <= b[0] < tiny + 16 {
        Ok((b[0] - tiny, 1))
    } else {
        parse_wide(b, base)
    }
}

/// Whether `m` starts a string.
pub open spec fn is_string_marker(m: u8) -> bool {
    (MARKER_TINY_STRING <= m < MARKER_TINY_STRING + 16) || (MARKER_STRING_8 <= m
        <= MARKER_STRING_8 + 2)
}

/// The encoding of a string of characters.
pub open spec fn string_encoding(s: Seq<char>) -> Seq<u8> {
    size_header(MARKER_TINY_STRING, MARKER_STRING_8, encode_utf8(s).len() as int) + encode_utf8(s)
}

/// The canonical encoding of a value.
pub open spec fn encode(v: ValueModel) -> Seq<u8>
    decreases v,
{
    match v {
        ValueModel::Null => seq![MARKER_NULL],
        ValueModel::Boolean(b) => if b {
            seq![MARKER_TRUE]
        } else {
            seq![MARKER_FALSE]
        },
        ValueModel::Integer(i) => int_encoding(i),
        ValueModel::Float(f) => seq![MARKER_FLOAT] + u64_bytes(f),
        ValueModel::Bytes(b) => wide_header(MARKER_BYTES_8, b.len() as int) + b,
        ValueModel::String(s) => string_encoding(s),
        ValueModel::List(vs) => size_header(MARKER_TINY_LIST, MARKER_LIST_8, vs.len() as int)
            + encode_all(vs),
        ValueModel::Dict(es) => size_header(MARKER_TINY_MAP, MARKER_MAP_8, es.len() as int)
            + encode_entries(es),
        ValueModel::Structure(sig, fs) => seq![(MARKER_TINY_STRUCT + fs.len()) as u8, sig]
            + encode_all(fs),
    }
}

/// The encodings of values, one after the other.
pub open spec fn encode_all(vs: Seq<ValueModel>) -> Seq<u8>
    decreases vs,
{
    if vs.len() == 0 {
        Seq::empty()
    } else {
        encode(vs[0]) + encode_all(vs.subrange(1, vs.len() as int))
    }
}

/// The encodings of map entries, each key then its value.
pub open spec fn encode_entries(es: Seq<(Seq<char>, ValueModel)>) -> Seq<u8>
    decreases es,
{
    if es.len() == 0 {
        Seq::empty()
    } else {
        string_encoding(es[0].0) + encode(es[0].1) + encode_entries(
            es.subrange(1, es.len() as int),
        )
    }
}

/// Whether every length in `v` fits its prefix and every structure has at most 15 fields.
pub open spec fn encodable(v: ValueModel) -> bool
    decreases v,
{
    match v {
        ValueModel::Bytes(b) => b.len() <= MAX_SIZE,
        ValueModel::String(s) => encode_utf8(s).len() <= MAX_SIZE,
        ValueModel::List(vs) => vs.len() <= MAX_SIZE && forall|i: int|
            0 <= i < vs.len() ==> encodable(#[trigger] vs[i]),
        ValueModel::Dict(es) => es.len() <= MAX_SIZE && forall|i: int|
            0 <= i < es.len() ==> encode_utf8(#[trigger] es[i].0).len() <= MAX_SIZE && encodable(
                es[i].1,
            ),
        ValueModel::Structure(_, fs) => fs.len() <= MAX_FIELDS && forall|i: int|
            0 <= i < fs.len() ==> encodable(#[trigger] fs[i]),
        _ => true,
    }
}

/// Whether the keys of every map in `v` are unique.
pub open spec fn well_formed(v: ValueModel) -> bool
    decreases v,
{
    match v {
        ValueModel::List(vs) => forall|i: int| 0 <= i < vs.len() ==> well_formed(#[trigger] vs[i]),
        ValueModel::Dict(es) => first_duplicate(es, 0) is None && forall|i: int|
            0 <= i < es.len() ==> well_formed(#[trigger] es[i].1),
        ValueModel::Structure(_, fs) => forall|i: int|
            0 <= i < fs.len() ==> well_formed(#[trigger] fs[i]),
        _ => true,
    }
}

/// A list or structure is well formed exactly where each of its elements is.
pub proof fn lemma_well_formed_elements(vs: Seq<ValueModel>, sig: u8)
    ensures
        well_formed(ValueModel::List(vs)) <==> forall|i: int|
            0 <= i < vs.len() ==> well_formed(#[trigger] vs[i]),
        well_formed(ValueModel::Structure(sig, vs)) <==> forall|i: int|
            0 <= i < vs.len() ==> well_formed(#[trigger] vs[i]),
{
    let l = ValueModel::List(vs);
    let st = ValueModel::Structure(sig, vs);
    assert(decreases_to!(l => l->List_0));
    assert(decreases_to!(st => st->Structure_1));
    assert forall|i: int| 0 <= i < vs.len() implies decreases_to!(l => vs[i]) && decreases_to!(
        st => vs[i]
    ) by {
        assert(decreases_to!(vs => vs[i]));
    }
}

/// The first index from `j` on whose key occurs at an earlier index.
pub open spec fn first_duplicate(es: Seq<(Seq<char>, ValueModel)>, j: int) -> Option<int>
    decreases es.len() - j,
{
    if j < 0 || j >= es.len() {
        None
    } else if exists|i: int| 0 <= i < j && es[i].0 == es[j].0 {
        Some(j)
    } else {
        first_duplicate(es, j + 1)
    }
}

/// The string whose encoding starts `b`, with the number of bytes it takes.
pub open spec fn parse_string(b: Seq<u8>) -> Result<(Seq<char>, int), CodecError> {
    if b.len() == 0 {
        Err(CodecError::UnexpectedEof)
    } else if !is_string_marker(b[0]) {
        Err(CodecError::InvalidMarker(b[0]))
    } else {
        match parse_size(b, MARKER_TINY_STRING, MARKER_STRING_8) {
            Ok((n, h)) => if b.len() < h + n {
                Err(CodecError::UnexpectedEof)
            } else if !valid_utf8(b.subrange(h, h + n)) {
                Err(CodecError::InvalidUtf8)
            } else {
                Ok((decode_utf8(b.subrange(h, h + n)), h + n))
            },
            Err(e) => Err(e),
        }
    }
}

/// The value whose encoding (canonical or not) starts `b`, with the number of bytes it takes.
pub open spec fn parse(b: Seq<u8>) -> Result<(ValueModel, int), CodecError>
    decreases b.len(), 0int,
{
    if b.len() == 0 {
        Err(CodecError::UnexpectedEof)
    } else {
        let m = b[0];
        if m == MARKER_NULL {
            Ok((ValueModel::Null, 1))
        } else if m == MARKER_FALSE {
            Ok((ValueModel::Boolean(false), 1))
        } else if m == MARKER_TRUE {
            Ok((ValueModel::Boolean(true), 1))
        } else if m == MARKER_FLOAT {
            if b.len() < 9 {
                Err(CodecError::UnexpectedEof)
            } else {
                Ok((ValueModel::Float(u64_of(b.subrange(1, 9))), 9))
            }
        } else if is_int_marker(m) {
            match decode_int(b) {
                Ok((i, k)) => Ok((ValueModel::Integer(i), k)),
                Err(e) => Err(e),
            }
        } else if MARKER_BYTES_8 <= m <= MARKER_BYTES_8 + 2 {
            match parse_wide(b, MARKER_BYTES_8) {
                Ok((n, h)) => if b.len() < h + n {
                    Err(CodecError::UnexpectedEof)
                } else {
                    Ok((ValueModel::Bytes(b.subrange(h, h + n)), h + n))
                },
                Err(e) => Err(e),
            }
        } else if is_string_marker(m) {
            match parse_string(b) {
                Ok((s, k)) => Ok((ValueModel::String(s), k)),
                Err(e) => Err(e),
            }
        } else if (MARKER_TINY_LIST <= m < MARKER_TINY_LIST + 16) || (MARKER_LIST_8 <= m
            <= MARKER_LIST_8 + 2) {
            match parse_size(b, MARKER_TINY_LIST, MARKER_LIST_8) {
                Ok((n, h)) => if 1 <= h <= b.len() {
                    match parse_all(b.subrange(h, b.len() as int), n) {
                        Ok((vs, k)) => Ok((ValueModel::List(vs), h + k)),
                        Err(e) => Err(e),
                    }
                } else {
                    Err(CodecError::UnexpectedEof)
                },
                Err(e) => Err(e),
            }
        } else if (MARKER_TINY_MAP <= m < MARKER_TINY_MAP + 16) || (MARKER_MAP_8 <= m
            <= MARKER_MAP_8 + 2) {
            match parse_size(b, MARKER_TINY_MAP, MARKER_MAP_8) {
                Ok((n, h)) => if 1 <= h <= b.len() {
                    match parse_entries(b.subrange(h, b.len() as int), n) {
                        Ok((es, k)) => match first_duplicate(es, 0) {
                            Some(j) => Err(
                                CodecError::DuplicateMapKey(choose|s: String| s@ == es[j].0),
                            ),
                            None => Ok((ValueModel::Dict(es), h + k)),
                        },
                        Err(e) => Err(e),
                    }
                } else {
                    Err(CodecError::UnexpectedEof)
                },
                Err(e) => Err(e),
            }
        } else if MARKER_TINY_STRUCT <= m < MARKER_TINY_STRUCT + 16 {
            if b.len() < 2 {
                Err(CodecError::UnexpectedEof)
            } else {
                match parse_all(b.subrange(2, b.len() as int), m - MARKER_TINY_STRUCT) {
                    Ok((fs, k)) => Ok((ValueModel::Structure(b[1], fs), 2 + k)),
                    Err(e) => Err(e),
                }
            }
        } else {
            Err(CodecError::InvalidMarker(m))
        }
    }
}

/// `n` values read one after the other from the start of `b`.
pub open spec fn parse_all(b: Seq<u8>, n: int) -> Result<(Seq<ValueModel>, int), CodecError>
    decreases b.len(), n,
{
    if n <= 0 {
        Ok((Seq::empty(), 0))
    } else {
        match parse(b) {
            Ok((v, k)) => if 1 <= k <= b.len() {
                match parse_all(b.subrange(k, b.len() as int), n - 1) {
                    Ok((vs, k2)) => Ok((seq![v] + vs, k + k2)),
                    Err(e) => Err(e),
                }
            } else {
                Err(CodecError::UnexpectedEof)
            },
            Err(e) => Err(e),
        }
    }
}

/// `n` map entries, each a string key then a value, read from the start of `b`.
pub open spec fn parse_entries(b: Seq<u8>, n: int) -> Result<
    (Seq<(Seq<char>, ValueModel)>, int),
    CodecError,
>
    decreases b.len(), n,
{
    if n <= 0 {
        Ok((Seq::empty(), 0))
    } else {
        match parse_string(b) {
            Ok((key, k1)) => if 1 <= k1 <= b.len() {
                let b1 = b.subrange(k1, b.len() as int);
                match parse(b1) {
                    Ok((v, k2)) => if 1 <= k2 <= b1.len() {
                        match parse_entries(b1.subrange(k2, b1.len() as int), n - 1) {
                            Ok((es, k3)) => Ok((seq![(key, v)] + es, k1 + k2 + k3)),
                            Err(e) => Err(e),
                        }
                    } else {
                        Err(CodecError::UnexpectedEof)
                    },
                    Err(e) => Err(e),
                }
            } else {
                Err(CodecError::UnexpectedEof)
            },
            Err(e) => Err(e),
        }
    }
}

/// Whether an error found by the decoder is the one `parse` names: the same variant and
/// fields, a duplicate key compared by its characters.
pub open spec fn same_error(e: CodecError, f: CodecError) -> bool {
    match (e, f) {
        (CodecError::DuplicateMapKey(a), CodecError::DuplicateMapKey(b)) => a@ == b@,
        _ => e == f,
    }
}

proof fn lemma_wide_header(base: u8, n: int, rest: Seq<u8>)
    requires
        0 <= n <= MAX_SIZE,
        base as int + 2 <= 0xFF,
    ensures
        parse_wide(wide_header(base, n) + rest, base) == Ok::<(int, int), CodecError>(
            (n, wide_header(base, n).len() as int),
        ),
        (wide_header(base, n) + rest)[0] == base || (wide_header(base, n) + rest)[0] == base + 1
            || (wide_header(base, n) + rest)[0] == base + 2,
{
    let b = wide_header(base, n) + rest;
    if n < 0x100 {
    } else if n < 0x10000 {
        lemma_u16_round_trip(n as u16);
        assert(b[1] == u16_bytes(n as u16)[0] && b[2] == u16_bytes(n as u16)[1]);
    } else {
        let x = n as u32;
        lemma_u32_round_trip(x);
        assert(b[1] == u32_bytes(x)[0] && b[2] == u32_bytes(x)[1] && b[3] == u32_bytes(x)[2] && b[4]
            == u32_bytes(x)[3]);
    }
}

proof fn lemma_size_header(tiny: u8, base: u8, n: int, rest: Seq<u8>)
    requires
        0 <= n <= MAX_SIZE,
        tiny as int + 16 <= base,
        base as int + 2 <= 0xFF,
    ensures
        parse_size(size_header(tiny, base, n) + rest, tiny, base) == Ok::<(int, int), CodecError>(
            (n, size_header(tiny, base, n).len() as int),
        ),
        1 <= size_header(tiny, base, n).len(),
        (tiny <= (size_header(tiny, base, n) + rest)[0] < tiny + 16) || (base <= (size_header(
            tiny,
            base,
            n,
        ) + rest)[0] <= base + 2),
{
    if n >= 16 {
        lemma_wide_header(base, n, rest);
    }
}

proof fn lemma_string_round_trip(s: Seq<char>, rest: Seq<u8>)
    requires
        encode_utf8(s).len() <= MAX_SIZE,
    ensures
        parse_string(string_encoding(s) + rest) == Ok::<(Seq<char>, int), CodecError>(
            (s, string_encoding(s).len() as int),
        ),
        is_string_marker((string_encoding(s) + rest)[0]),
{
    let u = encode_utf8(s);
    let hd = size_header(MARKER_TINY_STRING, MARKER_STRING_8, u.len() as int);
    lemma_size_header(MARKER_TINY_STRING, MARKER_STRING_8, u.len() as int, u + rest);
    assert(string_encoding(s) + rest =~= hd + (u + rest));
    let b = string_encoding(s) + rest;
    let h = hd.len() as int;
    assert(b.subrange(h, h + u.len()) =~= u);
    vstd::utf8::encode_utf8_valid_utf8(s);
    vstd::utf8::encode_utf8_decode_utf8(s);
}

/// Every well-formed, encodable value reads back as itself from its encoding, whatever
/// follows it, and the reader takes exactly the encoded bytes.
pub proof fn lemma_value_round_trip(v: ValueModel, rest: Seq<u8>)
    requires
        encodable(v),
        well_formed(v),
    ensures
        parse(encode(v) + rest) == Ok::<(ValueModel, int), CodecError>(
            (v, encode(v).len() as int),
        ),
    decreases v, 1int,
{
    let b = encode(v) + rest;
    match v {
        ValueModel::Null => {},
        ValueModel::Boolean(x) => {},
        ValueModel::Integer(i) => {
            lemma_integer_round_trip(i, rest);
            lemma_int_marker_class(i);
        },
        ValueModel::Float(f) => {
            lemma_u64_round_trip(f);
            assert(b.subrange(1, 9) =~= u64_bytes(f));
        },
        ValueModel::Bytes(x) => {
            lemma_wide_header(MARKER_BYTES_8, x.len() as int, x + rest);
            assert(b =~= wide_header(MARKER_BYTES_8, x.len() as int) + (x + rest));
            let h = wide_header(MARKER_BYTES_8, x.len() as int).len() as int;
            assert(b.subrange(h, h + x.len()) =~= x);
        },
        ValueModel::String(s) => {
            lemma_string_round_trip(s, rest);
        },
        ValueModel::List(vs) => {
            lemma_all_round_trip(vs, rest);
            lemma_list_round_trip(vs, rest);
        },
        ValueModel::Dict(es) => {
            lemma_entries_round_trip(es, rest);
            lemma_dict_round_trip(es, rest);
        },
        ValueModel::Structure(sig, fs) => {
            lemma_all_round_trip(fs, rest);
            lemma_structure_round_trip(sig, fs, rest);
        },
    }
}

proof fn lemma_list_round_trip(vs: Seq<ValueModel>, rest: Seq<u8>)
    requires
        vs.len() <= MAX_SIZE,
        parse_all(encode_all(vs) + rest, vs.len() as int) == Ok::<
            (Seq<ValueModel>, int),
            CodecError,
        >((vs, encode_all(vs).len() as int)),
    ensures
        parse(encode(ValueModel::List(vs)) + rest) == Ok::<(ValueModel, int), CodecError>(
            (ValueModel::List(vs), encode(ValueModel::List(vs)).len() as int),
        ),
{
    let b = encode(ValueModel::List(vs)) + rest;
    let hd = size_header(MARKER_TINY_LIST, MARKER_LIST_8, vs.len() as int);
    lemma_size_header(MARKER_TINY_LIST, MARKER_LIST_8, vs.len() as int, encode_all(vs) + rest);
    assert(b =~= hd + (encode_all(vs) + rest));
    assert(b.subrange(hd.len() as int, b.len() as int) =~= encode_all(vs) + rest);
}

proof fn lemma_dict_round_trip(es: Seq<(Seq<char>, ValueModel)>, rest: Seq<u8>)
    requires
        es.len() <= MAX_SIZE,
        first_duplicate(es, 0) is None,
        parse_entries(encode_entries(es) + rest, es.len() as int) == Ok::<
            (Seq<(Seq<char>, ValueModel)>, int),
            CodecError,
        >((es, encode_entries(es).len() as int)),
    ensures
        parse(encode(ValueModel::Dict(es)) + rest) == Ok::<(ValueModel, int), CodecError>(
            (ValueModel::Dict(es), encode(ValueModel::Dict(es)).len() as int),
        ),
{
    let b = encode(ValueModel::Dict(es)) + rest;
    let hd = size_header(MARKER_TINY_MAP, MARKER_MAP_8, es.len() as int);
    lemma_size_header(MARKER_TINY_MAP, MARKER_MAP_8, es.len() as int, encode_entries(es) + rest);
    assert(b =~= hd + (encode_entries(es) + rest));
    assert(b.subrange(hd.len() as int, b.len() as int) =~= encode_entries(es) + rest);
}

proof fn lemma_structure_round_trip(sig: u8, fs: Seq<ValueModel>, rest: Seq<u8>)
    requires
        fs.len() <= MAX_FIELDS,
        parse_all(encode_all(fs) + rest, fs.len() as int) == Ok::<
            (Seq<ValueModel>, int),
            CodecError,
        >((fs, encode_all(fs).len() as int)),
    ensures
        parse(encode(ValueModel::Structure(sig, fs)) + rest) == Ok::<(ValueModel, int), CodecError>(
            (ValueModel::Structure(sig, fs), encode(ValueModel::Structure(sig, fs)).len() as int),
        ),
{
    let b = encode(ValueModel::Structure(sig, fs)) + rest;
    assert(b.subrange(2, b.len() as int) =~= encode_all(fs) + rest);
}

proof fn lemma_all_round_trip(vs: Seq<ValueModel>, rest: Seq<u8>)
    requires
        forall|i: int| 0 <= i < vs.len() ==> encodable(#[trigger] vs[i]) && well_formed(vs[i]),
    ensures
        parse_all(encode_all(vs) + rest, vs.len() as int) == Ok::<
            (Seq<ValueModel>, int),
            CodecError,
        >((vs, encode_all(vs).len() as int)),
    decreases vs, 0int,
{
    if vs.len() > 0 {
        let tail = vs.subrange(1, vs.len() as int);
        let b = encode_all(vs) + rest;
        assert(b =~= encode(vs[0]) + (encode_all(tail) + rest));
        lemma_value_round_trip(vs[0], encode_all(tail) + rest);
        lemma_encode_nonempty(vs[0]);
        assert forall|i: int| 0 <= i < tail.len() implies encodable(#[trigger] tail[i])
            && well_formed(tail[i]) by {
            assert(tail[i] == vs[i + 1]);
        }
        lemma_all_round_trip(tail, rest);
        assert(b.subrange(encode(vs[0]).len() as int, b.len() as int) =~= encode_all(tail) + rest);
        assert(seq![vs[0]] + tail =~= vs);
    } else {
        assert(vs =~= Seq::<ValueModel>::empty());
        assert(encode_all(vs) + rest =~= rest);
    }
}

proof fn lemma_entries_round_trip(es: Seq<(Seq<char>, ValueModel)>, rest: Seq<u8>)
    requires
        forall|i: int|
            0 <= i < es.len() ==> encode_utf8(#[trigger] es[i].0).len() <= MAX_SIZE && encodable(
                es[i].1,
            ) && well_formed(es[i].1),
    ensures
        parse_entries(encode_entries(es) + rest, es.len() as int) == Ok::<
            (Seq<(Seq<char>, ValueModel)>, int),
            CodecError,
        >((es, encode_entries(es).len() as int)),
    decreases es, 0int,
{
    if es.len() > 0 {
        let tail = es.subrange(1, es.len() as int);
        let b = encode_entries(es) + rest;
        let ks = string_encoding(es[0].0);
        let vb = encode(es[0].1);
        assert(es[0] == es[0]);
        assert(b =~= ks + (vb + (encode_entries(tail) + rest)));
        lemma_string_round_trip(es[0].0, vb + (encode_entries(tail) + rest));
        let b1 = b.subrange(ks.len() as int, b.len() as int);
        assert(b1 =~= vb + (encode_entries(tail) + rest));
        lemma_value_round_trip(es[0].1, encode_entries(tail) + rest);
        lemma_encode_nonempty(es[0].1);
        assert forall|i: int| 0 <= i < tail.len() implies encode_utf8(#[trigger] tail[i].0).len()
            <= MAX_SIZE && encodable(tail[i].1) && well_formed(tail[i].1) by {
            assert(tail[i] == es[i + 1]);
        }
        assert(b1.subrange(vb.len() as int, b1.len() as int) =~= encode_entries(tail) + rest);
        lemma_entries_round_trip(tail, rest);
        assert(seq![(es[0].0, es[0].1)] + tail =~= es);
    } else {
        assert(es =~= Seq::<(Seq<char>, ValueModel)>::empty());
        assert(encode_entries(es) + rest =~= rest);
    }
}

proof fn lemma_encode_nonempty(v: ValueModel)
    ensures
        encode(v).len() >= 1,
{
    match v {
        ValueModel::Integer(i) => {},
        ValueModel::String(s) => {},
        _ => {},
    }
}

} // verus!
