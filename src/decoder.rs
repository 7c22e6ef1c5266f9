//! Reading values: every marker width is accepted, every read is bounds-checked, and the
//! result is exactly what `parse` says of the bytes.
use vstd::prelude::*;
use vstd::utf8::{decode_utf8, valid_utf8};

use crate::be::{u16_at, u32_at, u64_at};
use crate::codec::{
    first_duplicate, parse, parse_all, parse_entries, parse_size, parse_string, parse_wide,
    same_error, MARKER_BYTES_8, MARKER_FALSE, MARKER_FLOAT, MARKER_LIST_8, MARKER_MAP_8,
    MARKER_NULL, MARKER_STRING_8, MARKER_TINY_LIST, MARKER_TINY_MAP, MARKER_TINY_STRING,
    MARKER_TINY_STRUCT, MARKER_TRUE,
};
use crate::error::CodecError;
use crate::integer::{read_integer, MARKER_INT_16, MARKER_INT_32, MARKER_INT_64, MARKER_INT_8};
use crate::value::{
    entry_models_of, lemma_entry_models_of, model_of, models_of, Value, ValueModel,
};

verus! {

/// Relies on `String::from_utf8`: it accepts exactly the bytes that are UTF-8 and keeps the
/// characters they encode.
#[verifier::external_body]
fn string_from_utf8(b: Vec<u8>) -> (r: Option<String>)
    ensures
        r is Some <==> valid_utf8(b@),
        r matches Some(s) ==> s@ == decode_utf8(b@),
{
    String::from_utf8(b).ok()
}

/// The bytes of `b` from `from` up to `to`.
fn copy_range(b: &[u8], from: usize, to: usize) -> (r: Vec<u8>)
    requires
        from <= to <= b@.len(),
    ensures
        r@ == b@.subrange(from as int, to as int),
{
    let mut r: Vec<u8> = Vec::new();
    let mut i: usize = from;
    while i < to
        invariant
            from <= i <= to,
            to <= b@.len(),
            r@ == b@.subrange(from as int, i as int),
        decreases to - i,
    {
        r.push(b[i]);
        assert(b@.subrange(from as int, i + 1) =~= b@.subrange(from as int, i as int).push(
            b@[i as int],
        ));
        i = i + 1;
    }
    r
}

/// Reads a size behind an 8-, 16- or 32-bit marker of the family at `base`: the size and
/// the header's length.
fn read_wide(b: &[u8], pos: usize, base: u8) -> (r: Result<(usize, usize), CodecError>)
    requires
        pos <= b@.len(),
        base <= 0xFD,
    ensures
        r matches Ok((n, h)) ==> parse_wide(b@.subrange(pos as int, b@.len() as int), base)
            == Ok::<(int, int), CodecError>((n as int, h as int)),
        r matches Err(e) ==> parse_wide(b@.subrange(pos as int, b@.len() as int), base) == Err::<
            (int, int),
            CodecError,
        >(e),
{
    let ghost s = b@.subrange(pos as int, b@.len() as int);
    let avail = b.len() - pos;
    if avail == 0 {
        return Err(CodecError::UnexpectedEof);
    }
    let m = b[pos];
    if m == base {
        if avail < 2 {
            return Err(CodecError::UnexpectedEof);
        }
        Ok((b[pos + 1] as usize, 2))
    } else if m == base + 1 {
        if avail < 3 {
            return Err(CodecError::UnexpectedEof);
        }
        Ok((u16_at(b, pos + 1) as usize, 3))
    } else if m == base + 2 {
        if avail < 5 {
            return Err(CodecError::UnexpectedEof);
        }
        Ok((u32_at(b, pos + 1) as usize, 5))
    } else {
        Err(CodecError::InvalidMarker(m))
    }
}

/// Reads a size in any form of the family with tiny marker `tiny`: the size and the
/// header's length.
fn read_size(b: &[u8], pos: usize, tiny: u8, base: u8) -> (r: Result<(usize, usize), CodecError>)
    requires
        pos <= b@.len(),
        tiny <= 0xEF,
        base <= 0xFD,
    ensures
        r matches Ok((n, h)) ==> parse_size(b@.subrange(pos as int, b@.len() as int), tiny, base)
            == Ok::<(int, int), CodecError>((n as int, h as int)),
        r matches Err(e) ==> parse_size(b@.subrange(pos as int, b@.len() as int), tiny, base)
            == Err::<(int, int), CodecError>(e),
{
    if pos < b.len() && tiny <= b[pos] && b[pos] < tiny + 16 {
        Ok(((b[pos] - tiny) as usize, 1))
    } else {
        read_wide(b, pos, base)
    }
}

/// Reads the string that starts at `pos`, with the position after it.
pub fn decode_string(b: &[u8], pos: usize) -> (r: Result<(String, usize), CodecError>)
    requires
        pos <= b@.len(),
    ensures
        r matches Ok((s, end)) ==> parse_string(b@.subrange(pos as int, b@.len() as int)) == Ok::<
            (Seq<char>, int),
            CodecError,
        >((s@, end - pos)) && pos < end <= b@.len(),
        r matches Err(e) ==> parse_string(b@.subrange(pos as int, b@.len() as int)) == Err::<
            (Seq<char>, int),
            CodecError,
        >(e),
{
    let ghost s = b@.subrange(pos as int, b@.len() as int);
    if pos == b.len() {
        return Err(CodecError::UnexpectedEof);
    }
    let m = b[pos];
    if !((MARKER_TINY_STRING <= m && m < MARKER_TINY_STRING + 16) || (MARKER_STRING_8 <= m && m
        <= MARKER_STRING_8 + 2)) {
        return Err(CodecError::InvalidMarker(m));
    }
    let (n, h) = match read_size(b, pos, MARKER_TINY_STRING, MARKER_STRING_8) {
        Ok(x) => x,
        Err(e) => {
            return Err(e);
        },
    };
    if b.len() - pos - h < n {
        return Err(CodecError::UnexpectedEof);
    }
    let raw = copy_range(b, pos + h, pos + h + n);
    assert(raw@ =~= s.subrange(h as int, h + n));
    match string_from_utf8(raw) {
        Some(st) => Ok((st, pos + h + n)),
        None => Err(CodecError::InvalidUtf8),
    }
}

/// Reads the value that starts at `pos`, in any of the forms the format allows, with the
/// position after it.
#[verifier::rlimit(40)]
pub fn decode_value(b: &[u8], pos: usize) -> (r: Result<(Value, usize), CodecError>)
    requires
        pos <= b@.len(),
    ensures
        r matches Ok((v, end)) ==> parse(b@.subrange(pos as int, b@.len() as int)) == Ok::<
            (ValueModel, int),
            CodecError,
        >((v@, end - pos)) && pos < end <= b@.len(),
        r matches Err(e) ==> parse(b@.subrange(pos as int, b@.len() as int)) matches Err(f)
            && same_error(e, f),
    decreases b@.len() - pos, 0int,
{
    let ghost s = b@.subrange(pos as int, b@.len() as int);
    let len = b.len();
    if pos == len {
        return Err(CodecError::UnexpectedEof);
    }
    let m = b[pos];
    if m == MARKER_NULL {
        Ok((Value::Null, pos + 1))
    } else if m == MARKER_FALSE {
        Ok((Value::Boolean(false), pos + 1))
    } else if m == MARKER_TRUE {
        Ok((Value::Boolean(true), pos + 1))
    } else if m == MARKER_FLOAT {
        if len - pos < 9 {
            return Err(CodecError::UnexpectedEof);
        }
        let x = u64_at(b, pos + 1);
        assert(b@.subrange(pos + 1, pos + 9) =~= s.subrange(1, 9));
        Ok((Value::Float(x), pos + 9))
    } else if m >= 0xF0 || m <= 0x7F || m == MARKER_INT_8 || m == MARKER_INT_16 || m
        == MARKER_INT_32 || m == MARKER_INT_64 {
        match read_integer(b, pos) {
            Ok((i, end)) => Ok((Value::Integer(i), end)),
            Err(e) => Err(e),
        }
    } else if MARKER_BYTES_8 <= m && m <= MARKER_BYTES_8 + 2 {
        let (n, h) = match read_wide(b, pos, MARKER_BYTES_8) {
            Ok(x) => x,
            Err(e) => {
                return Err(e);
            },
        };
        if len - pos - h < n {
            return Err(CodecError::UnexpectedEof);
        }
        let raw = copy_range(b, pos + h, pos + h + n);
        assert(raw@ =~= s.subrange(h as int, h + n));
        Ok((Value::Bytes(raw), pos + h + n))
    } else if (MARKER_TINY_STRING <= m && m < MARKER_TINY_STRING + 16) || (MARKER_STRING_8 <= m
        && m <= MARKER_STRING_8 + 2) {
        match decode_string(b, pos) {
            Ok((st, end)) => Ok((Value::String(st), end)),
            Err(e) => Err(e),
        }
    } else if (MARKER_TINY_LIST <= m && m < MARKER_TINY_LIST + 16) || (MARKER_LIST_8 <= m && m
        <= MARKER_LIST_8 + 2) {
        let (n, h) = match read_size(b, pos, MARKER_TINY_LIST, MARKER_LIST_8) {
            Ok(x) => x,
            Err(e) => {
                return Err(e);
            },
        };
        assert(s.subrange(h as int, s.len() as int) =~= b@.subrange(pos + h, len as int));
        match decode_values(b, pos + h, n) {
            Ok((vs, end)) => Ok((Value::List(vs), end)),
            Err(e) => Err(e),
        }
    } else if (MARKER_TINY_MAP <= m && m < MARKER_TINY_MAP + 16) || (MARKER_MAP_8 <= m && m
        <= MARKER_MAP_8 + 2) {
        let (n, h) = match read_size(b, pos, MARKER_TINY_MAP, MARKER_MAP_8) {
            Ok(x) => x,
            Err(e) => {
                return Err(e);
            },
        };
        assert(s.subrange(h as int, s.len() as int) =~= b@.subrange(pos + h, len as int));
        let (es, end) = match decode_entries(b, pos + h, n) {
            Ok(x) => x,
            Err(e) => {
                return Err(e);
            },
        };
        proof {
            lemma_entry_models_of(es@);
        }
        match find_duplicate(&es) {
            Some(j) => {
                let key = es[j].0.clone();
                proof {
                    let ms = entry_models_of(es@);
                    assert(ms[j as int].0 == es@[j as int].0@);
                    assert(exists|t: String| t@ == ms[j as int].0);
                }
                Err(CodecError::DuplicateMapKey(key))
            },
            None => Ok((Value::Dict(es), end)),
        }
    } else if MARKER_TINY_STRUCT <= m && m < MARKER_TINY_STRUCT + 16 {
        if len - pos < 2 {
            return Err(CodecError::UnexpectedEof);
        }
        let signature = b[pos + 1];
        assert(s.subrange(2, s.len() as int) =~= b@.subrange(pos + 2, len as int));
        match decode_values(b, pos + 2, (m - MARKER_TINY_STRUCT) as usize) {
            Ok((fields, end)) => Ok((Value::Structure { signature, fields }, end)),
            Err(e) => Err(e),
        }
    } else {
        Err(CodecError::InvalidMarker(m))
    }
}

/// Reads `n` values one after the other from `pos`, with the position after the last.
pub fn decode_values(b: &[u8], pos: usize, n: usize) -> (r: Result<(Vec<Value>, usize), CodecError>)
    requires
        pos <= b@.len(),
    ensures
        r matches Ok((vs, end)) ==> parse_all(b@.subrange(pos as int, b@.len() as int), n as int)
            == Ok::<(Seq<ValueModel>, int), CodecError>((models_of(vs@), end - pos)) && pos <= end
            <= b@.len(),
        r matches Err(e) ==> parse_all(b@.subrange(pos as int, b@.len() as int), n as int) matches Err(
            f,
        ) && same_error(e, f),
    decreases b@.len() - pos, n,
{
    let len = b.len();
    let mut vs: Vec<Value> = Vec::new();
    let mut p: usize = pos;
    let mut i: usize = 0;
    while i < n
        invariant
            len == b@.len(),
            pos <= p <= len,
            i <= n,
            parse_all(b@.subrange(pos as int, len as int), n as int) == match parse_all(
                b@.subrange(p as int, len as int),
                n - i,
            ) {
                Ok((ms, k)) => Ok((models_of(vs@) + ms, p - pos + k)),
                Err(e) => Err::<(Seq<ValueModel>, int), CodecError>(e),
            },
        decreases n - i,
    {
        let ghost cur = b@.subrange(p as int, len as int);
        let (v, end) = match decode_value(b, p) {
            Ok(x) => x,
            Err(e) => {
                return Err(e);
            },
        };
        assert(cur.subrange(end - p, cur.len() as int) =~= b@.subrange(end as int, len as int));
        proof {
            match parse_all(b@.subrange(end as int, len as int), n - i - 1) {
                Ok((ms, k)) => {
                    assert(models_of(vs@.push(v)) == models_of(vs@).push(v@)) by {
                        assert(vs@.push(v).drop_last() =~= vs@);
                    }
                    assert(models_of(vs@) + (seq![v@] + ms) =~= models_of(vs@).push(v@) + ms);
                },
                Err(e) => {},
            }
        }
        vs.push(v);
        p = end;
        i = i + 1;
    }
    assert(models_of(vs@) + Seq::<ValueModel>::empty() =~= models_of(vs@));
    Ok((vs, p))
}

/// Reads `n` map entries, each a string key then a value, from `pos`, with the position
/// after the last.
pub fn decode_entries(b: &[u8], pos: usize, n: usize) -> (r: Result<
    (Vec<(String, Value)>, usize),
    CodecError,
>)
    requires
        pos <= b@.len(),
    ensures
        r matches Ok((es, end)) ==> parse_entries(b@.subrange(pos as int, b@.len() as int), n as int)
            == Ok::<(Seq<(Seq<char>, ValueModel)>, int), CodecError>(
            (entry_models_of(es@), end - pos),
        ) && pos <= end <= b@.len(),
        r matches Err(e) ==> parse_entries(b@.subrange(pos as int, b@.len() as int), n as int) matches Err(
            f,
        ) && same_error(e, f),
    decreases b@.len() - pos, n,
{
    let len = b.len();
    let mut es: Vec<(String, Value)> = Vec::new();
    let mut p: usize = pos;
    let mut i: usize = 0;
    while i < n
        invariant
            len == b@.len(),
            pos <= p <= len,
            i <= n,
            parse_entries(b@.subrange(pos as int, len as int), n as int) == match parse_entries(
                b@.subrange(p as int, len as int),
                n - i,
            ) {
                Ok((ms, k)) => Ok((entry_models_of(es@) + ms, p - pos + k)),
                Err(e) => Err::<(Seq<(Seq<char>, ValueModel)>, int), CodecError>(e),
            },
        decreases n - i,
    {
        let ghost cur = b@.subrange(p as int, len as int);
        let (key, after_key) = match decode_string(b, p) {
            Ok(x) => x,
            Err(e) => {
                return Err(e);
            },
        };
        let ghost b1 = cur.subrange(after_key - p, cur.len() as int);
        assert(b1 =~= b@.subrange(after_key as int, len as int));
        let (v, end) = match decode_value(b, after_key) {
            Ok(x) => x,
            Err(e) => {
                return Err(e);
            },
        };
        assert(b1.subrange(end - after_key, b1.len() as int) =~= b@.subrange(end as int, len as int));
        proof {
            match parse_entries(b@.subrange(end as int, len as int), n - i - 1) {
                Ok((ms, k)) => {
                    assert(entry_models_of(es@.push((key, v))) == entry_models_of(es@).push(
                        (key@, v@),
                    )) by {
                        assert(es@.push((key, v)).drop_last() =~= es@);
                    }
                    assert(entry_models_of(es@) + (seq![(key@, v@)] + ms) =~= entry_models_of(
                        es@,
                    ).push((key@, v@)) + ms);
                },
                Err(e) => {},
            }
        }
        es.push((key, v));
        p = end;
        i = i + 1;
    }
    assert(entry_models_of(es@) + Seq::<(Seq<char>, ValueModel)>::empty() =~= entry_models_of(es@));
    Ok((es, p))
}

/// The first entry whose key an earlier entry already has.
pub fn find_duplicate(es: &Vec<(String, Value)>) -> (r: Option<usize>)
    ensures
        r matches Some(j) ==> first_duplicate(entry_models_of(es@), 0) == Some(j as int) && j
            < es@.len(),
        r is None ==> first_duplicate(entry_models_of(es@), 0) is None,
{
    proof {
        lemma_entry_models_of(es@);
    }
    let ghost ms = entry_models_of(es@);
    let mut j: usize = 0;
    while j < es.len()
        invariant
            j <= es@.len(),
            ms == entry_models_of(es@),
            ms.len() == es@.len(),
            forall|k: int| 0 <= k < es@.len() ==> #[trigger] ms[k] == (es@[k].0@, model_of(es@[k].1)),
            first_duplicate(ms, 0) == first_duplicate(ms, j as int),
        decreases es@.len() - j,
    {
        let mut i: usize = 0;
        while i < j
            invariant
                i <= j < es@.len(),
                ms.len() == es@.len(),
                ms == entry_models_of(es@),
                first_duplicate(ms, 0) == first_duplicate(ms, j as int),
                forall|k: int| 0 <= k < es@.len() ==> #[trigger] ms[k] == (es@[k].0@, model_of(es@[k].1)),
                forall|k: int| 0 <= k < i ==> ms[k].0 != ms[j as int].0,
            decreases j - i,
        {
            if es[i].0 == es[j].0 {
                assert(ms[i as int].0 == ms[j as int].0);
                return Some(j);
            }
            i = i + 1;
        }
        j = j + 1;
    }
    None
}

} // verus!
