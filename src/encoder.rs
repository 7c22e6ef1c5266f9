//! Writing values: the canonical encoding, or `LengthOverflow` where a length does not fit.
use vstd::prelude::*;
use vstd::utf8::encode_utf8;

use crate::be::{put_u16, put_u32, put_u64};
use crate::codec::{
    encodable, encode, lemma_well_formed_elements, well_formed, encode_all, encode_entries, size_header, string_encoding, wide_header,
    MARKER_BYTES_8, MARKER_FALSE, MARKER_FLOAT, MARKER_LIST_8, MARKER_MAP_8, MARKER_NULL,
    MARKER_STRING_8, MARKER_TINY_LIST, MARKER_TINY_MAP, MARKER_TINY_STRING, MARKER_TINY_STRUCT,
    MARKER_TRUE, MAX_FIELDS, MAX_SIZE,
};
use crate::decoder::find_duplicate;
use crate::error::CodecError;
use crate::integer::put_integer;
use crate::value::{
    entry_models_of, lemma_entry_models_of, lemma_models_of, model_of, models_of, Value, ValueModel,
};

verus! {

proof fn lemma_encode_all_push(vs: Seq<ValueModel>, v: ValueModel)
    ensures
        encode_all(vs.push(v)) == encode_all(vs) + encode(v),
    decreases vs.len(),
{
    if vs.len() == 0 {
        let pushed = vs.push(v);
        assert(pushed[0] == v);
        assert(pushed.subrange(1, 1) =~= Seq::<ValueModel>::empty());
        assert(encode_all(Seq::<ValueModel>::empty()) =~= Seq::<u8>::empty());
        assert(encode_all(pushed) == encode(v) + encode_all(pushed.subrange(1, 1)));
        assert(encode_all(vs) =~= Seq::<u8>::empty());
        assert(encode_all(pushed) =~= encode_all(vs) + encode(v));
    } else {
        let tail = vs.subrange(1, vs.len() as int);
        lemma_encode_all_push(tail, v);
        assert(vs.push(v).subrange(1, vs.len() + 1 as int) =~= tail.push(v));
        assert(encode_all(vs.push(v)) =~= encode_all(vs) + encode(v));
    }
}

proof fn lemma_encode_entries_push(es: Seq<(Seq<char>, ValueModel)>, e: (Seq<char>, ValueModel))
    ensures
        encode_entries(es.push(e)) == encode_entries(es) + string_encoding(e.0) + encode(e.1),
    decreases es.len(),
{
    if es.len() == 0 {
        let pushed = es.push(e);
        assert(pushed[0] == e);
        assert(pushed.subrange(1, 1) =~= Seq::<(Seq<char>, ValueModel)>::empty());
        assert(encode_entries(Seq::<(Seq<char>, ValueModel)>::empty()) =~= Seq::<u8>::empty());
        assert(encode_entries(pushed) == string_encoding(e.0) + encode(e.1) + encode_entries(
            pushed.subrange(1, 1),
        ));
        assert(encode_entries(es) =~= Seq::<u8>::empty());
        assert(encode_entries(pushed) =~= encode_entries(es) + string_encoding(e.0) + encode(e.1));
    } else {
        let tail = es.subrange(1, es.len() as int);
        lemma_encode_entries_push(tail, e);
        assert(es.push(e).subrange(1, es.len() + 1 as int) =~= tail.push(e));
        assert(encode_entries(es.push(e)) =~= encode_entries(es) + string_encoding(e.0) + encode(
            e.1,
        ));
    }
}

/// Appends `b`.
fn put_slice(out: &mut Vec<u8>, b: &[u8])
    ensures
        final(out)@ == old(out)@ + b@,
{
    let mut i: usize = 0;
    while i < b.len()
        invariant
            i <= b@.len(),
            out@ == old(out)@ + b@.subrange(0, i as int),
        decreases b@.len() - i,
    {
        out.push(b[i]);
        assert(b@.subrange(0, i + 1) =~= b@.subrange(0, i as int).push(b@[i as int]));
        i = i + 1;
    }
    assert(b@.subrange(0, b@.len() as int) =~= b@);
}

/// Appends a size in the narrowest 8-, 16- or 32-bit form of the family at `base`.
fn put_wide_header(out: &mut Vec<u8>, base: u8, n: usize)
    requires
        n <= MAX_SIZE,
        base <= 0xFD,
    ensures
        final(out)@ == old(out)@ + wide_header(base, n as int),
{
    if n < 0x100 {
        out.push(base);
        out.push(n as u8);
    } else if n < 0x10000 {
        out.push(base + 1);
        put_u16(out, n as u16);
    } else {
        out.push(base + 2);
        put_u32(out, n as u32);
    }
    assert(final(out)@ =~= old(out)@ + wide_header(base, n as int));
}

/// Appends a size in the narrowest form of the family with tiny marker `tiny`.
fn put_size_header(out: &mut Vec<u8>, tiny: u8, base: u8, n: usize)
    requires
        n <= MAX_SIZE,
        tiny <= 0xF0,
        base <= 0xFD,
    ensures
        final(out)@ == old(out)@ + size_header(tiny, base, n as int),
{
    if n < 16 {
        out.push(tiny + n as u8);
        assert(final(out)@ =~= old(out)@ + size_header(tiny, base, n as int));
    } else {
        put_wide_header(out, base, n);
    }
}

/// Appends the encoding of a string, or fails with `LengthOverflow`, leaving `out` as it was.
pub fn put_string(out: &mut Vec<u8>, s: &String) -> (r: Result<(), CodecError>)
    ensures
        r is Ok <==> encode_utf8(s@).len() <= MAX_SIZE,
        r is Ok ==> final(out)@ == old(out)@ + string_encoding(s@),
        r is Err ==> final(out)@ == old(out)@,
        r matches Err(e) ==> e == CodecError::LengthOverflow,
{
    let b = s.as_str().as_bytes();
    if b.len() > 0xFFFF_FFFF {
        return Err(CodecError::LengthOverflow);
    }
    put_size_header(out, MARKER_TINY_STRING, MARKER_STRING_8, b.len());
    put_slice(out, b);
    assert(final(out)@ =~= old(out)@ + string_encoding(s@));
    Ok(())
}

/// Appends the canonical encoding of `v`. Fails with `LengthOverflow` exactly where `v` is
/// not encodable, and else with `DuplicateMapKey` exactly where a map in it holds a key
/// twice; `out` then holds part of it or all of it.
pub fn encode_value(v: &Value, out: &mut Vec<u8>) -> (r: Result<(), CodecError>)
    ensures
        r is Ok <==> encodable(v@) && well_formed(v@),
        r is Ok ==> final(out)@ == old(out)@ + encode(v@),
        !encodable(v@) ==> r == Err::<(), CodecError>(CodecError::LengthOverflow),
        encodable(v@) && !well_formed(v@) ==> r matches Err(CodecError::DuplicateMapKey(_)),
{
    let r = write_value(v, out);
    if r.is_err() {
        return r;
    }
    check_unique_keys(v)
}

/// Whether the keys of every map in `v` are unique; else `DuplicateMapKey` with a key
/// that a map holds twice.
pub fn check_unique_keys(v: &Value) -> (r: Result<(), CodecError>)
    ensures
        r is Ok <==> well_formed(v@),
        r matches Err(e) ==> e is DuplicateMapKey,
    decreases v,
{
    match v {
        Value::List(vs) => {
            let r = check_each(vs);
            proof {
                lemma_models_of(vs@);
                if r is Err {
                    let i = choose|i: int| 0 <= i < vs@.len() && !well_formed(model_of(vs@[i]));
                    assert(models_of(vs@)[i] == model_of(vs@[i]));
                    assert(!well_formed(models_of(vs@)[i]));
                    lemma_well_formed_elements(models_of(vs@), 0);
                    assert(!well_formed(ValueModel::List(models_of(vs@))));
                    assert(v@ == ValueModel::List(models_of(vs@)));
                    assert(!well_formed(v@));
                } else {
                    assert(v@ == ValueModel::List(models_of(vs@)));
                    assert forall|i: int| 0 <= i < models_of(vs@).len() implies well_formed(
                        #[trigger] models_of(vs@)[i],
                    ) by {
                        assert(models_of(vs@)[i] == model_of(vs@[i]));
                    }
                    lemma_well_formed_elements(models_of(vs@), 0);
                    assert(well_formed(ValueModel::List(models_of(vs@))));
                    assert(well_formed(v@));
                }
            }
            r
        },
        Value::Structure { signature, fields } => {
            let r = check_each(fields);
            proof {
                lemma_models_of(fields@);
                if r is Err {
                    let i = choose|i: int|
                        0 <= i < fields@.len() && !well_formed(model_of(fields@[i]));
                    assert(models_of(fields@)[i] == model_of(fields@[i]));
                    lemma_well_formed_elements(models_of(fields@), *signature);
                } else {
                    lemma_well_formed_elements(models_of(fields@), *signature);
                    assert forall|i: int| 0 <= i < fields@.len() implies well_formed(
                        #[trigger] models_of(fields@)[i],
                    ) by {
                        assert(models_of(fields@)[i] == model_of(fields@[i]));
                    }
                }
            }
            r
        },
        Value::Dict(es) => {
            proof {
                lemma_entry_models_of(es@);
            }
            if let Some(j) = find_duplicate(es) {
                return Err(CodecError::DuplicateMapKey(es[j].0.clone()));
            }
            let r = check_each_entry(es);
            if r.is_err() {
                proof {
                    let i = choose|i: int| 0 <= i < es@.len() && !well_formed(model_of(es@[i].1));
                    let m = entry_models_of(es@)[i];
                    assert(m == (es@[i].0@, model_of(es@[i].1)));
                    assert(!well_formed(m.1));
                    assert(!well_formed(ValueModel::Dict(entry_models_of(es@))));
                }
                return r;
            }
            proof {
                lemma_entry_models_of(es@);
                assert forall|k: int| 0 <= k < es@.len() implies well_formed(
                    #[trigger] entry_models_of(es@)[k].1,
                ) by {
                    assert(entry_models_of(es@)[k] == (es@[k].0@, model_of(es@[k].1)));
                }
            }
            Ok(())
        },
        _ => Ok(()),
    }
}

/// Whether the keys of every map in each entry's value are unique.
fn check_each_entry(es: &Vec<(String, Value)>) -> (r: Result<(), CodecError>)
    ensures
        r is Ok <==> forall|i: int| 0 <= i < es@.len() ==> well_formed(#[trigger] model_of(es@[i].1)),
        r matches Err(e) ==> e is DuplicateMapKey,
    decreases es@, 0int,
{
    let mut i: usize = 0;
    while i < es.len()
        invariant
            i <= es@.len(),
            forall|j: int| 0 <= j < i ==> well_formed(#[trigger] model_of(es@[j].1)),
        decreases es@.len() - i,
    {
        let r = check_unique_keys(&es[i].1);
        if r.is_err() {
            return r;
        }
        i = i + 1;
    }
    Ok(())
}

/// Whether the keys of every map in each of `vs` are unique.
fn check_each(vs: &Vec<Value>) -> (r: Result<(), CodecError>)
    ensures
        r is Ok <==> forall|i: int| 0 <= i < vs@.len() ==> well_formed(#[trigger] model_of(vs@[i])),
        r matches Err(e) ==> e is DuplicateMapKey,
    decreases vs@, 0int,
{
    let mut i: usize = 0;
    while i < vs.len()
        invariant
            i <= vs@.len(),
            forall|j: int| 0 <= j < i ==> well_formed(#[trigger] model_of(vs@[j])),
        decreases vs@.len() - i,
    {
        let r = check_unique_keys(&vs[i]);
        if r.is_err() {
            return r;
        }
        i = i + 1;
    }
    Ok(())
}

/// Appends the canonical encoding of `v`, or fails with `LengthOverflow` exactly where `v`
/// is not encodable; `out` then holds part of it.
fn write_value(v: &Value, out: &mut Vec<u8>) -> (r: Result<(), CodecError>)
    ensures
        r is Ok <==> encodable(v@),
        r is Ok ==> final(out)@ == old(out)@ + encode(v@),
        r matches Err(e) ==> e == CodecError::LengthOverflow,
    decreases v,
{
    match v {
        Value::Null => {
            out.push(MARKER_NULL);
        },
        Value::Boolean(x) => {
            out.push(
                if *x {
                    MARKER_TRUE
                } else {
                    MARKER_FALSE
                },
            );
        },
        Value::Integer(i) => {
            put_integer(out, *i);
        },
        Value::Float(f) => {
            out.push(MARKER_FLOAT);
            put_u64(out, *f);
        },
        Value::Bytes(b) => {
            if b.len() > 0xFFFF_FFFF {
                return Err(CodecError::LengthOverflow);
            }
            put_wide_header(out, MARKER_BYTES_8, b.len());
            put_slice(out, b.as_slice());
        },
        Value::String(s) => {
            let r = put_string(out, s);
            if r.is_err() {
                return r;
            }
        },
        Value::List(vs) => {
            proof {
                lemma_models_of(vs@);
            }
            if vs.len() > 0xFFFF_FFFF {
                return Err(CodecError::LengthOverflow);
            }
            put_size_header(out, MARKER_TINY_LIST, MARKER_LIST_8, vs.len());
            let r = encode_each(vs, out);
            if r.is_err() {
                proof {
                    let i = choose|i: int| 0 <= i < vs@.len() && !encodable(model_of(vs@[i]));
                    assert(models_of(vs@)[i] == model_of(vs@[i]));
                }
                return r;
            }
        },
        Value::Dict(es) => {
            proof {
                lemma_entry_models_of(es@);
            }
            if es.len() > 0xFFFF_FFFF {
                return Err(CodecError::LengthOverflow);
            }
            put_size_header(out, MARKER_TINY_MAP, MARKER_MAP_8, es.len());
            let r = encode_each_entry(es, out);
            if r.is_err() {
                proof {
                    let i = choose|i: int|
                        0 <= i < es@.len() && !(encode_utf8(es@[i].0@).len() <= MAX_SIZE
                            && encodable(model_of(es@[i].1)));
                    let m = entry_models_of(es@)[i];
                    assert(m == (es@[i].0@, model_of(es@[i].1)));
                    assert(!(encode_utf8(m.0).len() <= MAX_SIZE && encodable(m.1)));
                    assert(v@ == ValueModel::Dict(entry_models_of(es@)));
                    assert(!(encode_utf8(entry_models_of(es@)[i].0).len() <= MAX_SIZE && encodable(
                        entry_models_of(es@)[i].1,
                    )));
                    assert(!encodable(ValueModel::Dict(entry_models_of(es@))));
                }
                return r;
            }
        },
        Value::Structure { signature, fields } => {
            proof {
                lemma_models_of(fields@);
            }
            if fields.len() > MAX_FIELDS {
                return Err(CodecError::LengthOverflow);
            }
            out.push(MARKER_TINY_STRUCT + fields.len() as u8);
            out.push(*signature);
            let r = encode_each(fields, out);
            if r.is_err() {
                proof {
                    let i = choose|i: int| 0 <= i < fields@.len() && !encodable(model_of(fields@[i]));
                    assert(models_of(fields@)[i] == model_of(fields@[i]));
                }
                return r;
            }
        },
    }
    assert(final(out)@ =~= old(out)@ + encode(v@));
    Ok(())
}

/// Appends the encodings of `vs`, one after the other.
fn encode_each(vs: &Vec<Value>, out: &mut Vec<u8>) -> (r: Result<(), CodecError>)
    ensures
        r is Ok <==> forall|i: int| 0 <= i < vs@.len() ==> encodable(#[trigger] model_of(vs@[i])),
        r is Ok ==> final(out)@ == old(out)@ + encode_all(models_of(vs@)),
        r matches Err(e) ==> e == CodecError::LengthOverflow,
    decreases vs@, 0int,
{
    proof {
        lemma_models_of(vs@);
    }
    let mut i: usize = 0;
    while i < vs.len()
        invariant
            i <= vs@.len(),
            forall|j: int| 0 <= j < i ==> encodable(#[trigger] model_of(vs@[j])),
            out@ == old(out)@ + encode_all(models_of(vs@).subrange(0, i as int)),
            models_of(vs@).len() == vs@.len(),
            forall|j: int| 0 <= j < vs@.len() ==> #[trigger] models_of(vs@)[j] == model_of(vs@[j]),
        decreases vs@.len() - i,
    {
        let r = write_value(&vs[i], out);
        if r.is_err() {
            return r;
        }
        proof {
            let ms = models_of(vs@);
            lemma_encode_all_push(ms.subrange(0, i as int), ms[i as int]);
            assert(ms.subrange(0, i + 1) =~= ms.subrange(0, i as int).push(ms[i as int]));
        }
        i = i + 1;
    }
    assert(models_of(vs@).subrange(0, vs@.len() as int) =~= models_of(vs@));
    Ok(())
}

/// Appends the encodings of map entries, each key then its value.
fn encode_each_entry(es: &Vec<(String, Value)>, out: &mut Vec<u8>) -> (r: Result<(), CodecError>)
    ensures
        r is Ok <==> forall|i: int|
            0 <= i < es@.len() ==> encode_utf8(#[trigger] es@[i].0@).len() <= MAX_SIZE
                && encodable(model_of(es@[i].1)),
        r is Ok ==> final(out)@ == old(out)@ + encode_entries(entry_models_of(es@)),
        r matches Err(e) ==> e == CodecError::LengthOverflow,
    decreases es@, 0int,
{
    proof {
        lemma_entry_models_of(es@);
    }
    let mut i: usize = 0;
    while i < es.len()
        invariant
            i <= es@.len(),
            forall|j: int|
                0 <= j < i ==> encode_utf8(#[trigger] es@[j].0@).len() <= MAX_SIZE && encodable(
                    model_of(es@[j].1),
                ),
            out@ == old(out)@ + encode_entries(entry_models_of(es@).subrange(0, i as int)),
            entry_models_of(es@).len() == es@.len(),
            forall|j: int|
                0 <= j < es@.len() ==> #[trigger] entry_models_of(es@)[j] == (
                    es@[j].0@,
                    model_of(es@[j].1),
                ),
        decreases es@.len() - i,
    {
        let r = put_string(out, &es[i].0);
        if r.is_err() {
            return r;
        }
        let r = write_value(&es[i].1, out);
        if r.is_err() {
            return r;
        }
        assert forall|j: int| 0 <= j < i + 1 implies encode_utf8(#[trigger] es@[j].0@).len()
            <= MAX_SIZE && encodable(model_of(es@[j].1)) by {
            if j == i {
                assert(encode_utf8(es@[i as int].0@).len() <= MAX_SIZE);
                assert(encodable(model_of(es@[i as int].1)));
            }
        }
        proof {
            let ms = entry_models_of(es@);
            lemma_encode_entries_push(ms.subrange(0, i as int), ms[i as int]);
            assert(ms.subrange(0, i + 1) =~= ms.subrange(0, i as int).push(ms[i as int]));
        }
        i = i + 1;
    }
    assert(entry_models_of(es@).subrange(0, es@.len() as int) =~= entry_models_of(es@));
    Ok(())
}

} // verus!
