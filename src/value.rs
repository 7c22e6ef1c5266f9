//! Bolt values and their models.
use vstd::prelude::*;

use crate::codec::{encodable, encode, parse, same_error, well_formed};
use crate::decoder::decode_value;
use crate::encoder::encode_value;
use crate::error::CodecError;

verus! {

/// A Bolt value.
#[derive(Debug)]
pub enum Value {
    Null,
    Boolean(bool),
    Integer(i64),
    /// An IEEE-754 binary64 number, held as its bit pattern.
    Float(u64),
    Bytes(Vec<u8>),
    String(String),
    List(Vec<Value>),
    /// Entries in the order they are written; keys are unique.
    Dict(Vec<(String, Value)>),
    /// A signature and its fields: graph entities, temporal and spatial values.
    Structure { signature: u8, fields: Vec<Value> },
}

/// What a value stands for.
pub enum ValueModel {
    Null,
    Boolean(bool),
    Integer(i64),
    Float(u64),
    Bytes(Seq<u8>),
    String(Seq<char>),
    List(Seq<ValueModel>),
    Dict(Seq<(Seq<char>, ValueModel)>),
    Structure(u8, Seq<ValueModel>),
}

/// The model of a value.
pub open spec fn model_of(v: Value) -> ValueModel
    decreases v,
{
    match v {
        Value::Null => ValueModel::Null,
        Value::Boolean(b) => ValueModel::Boolean(b),
        Value::Integer(i) => ValueModel::Integer(i),
        Value::Float(f) => ValueModel::Float(f),
        Value::Bytes(b) => ValueModel::Bytes(b@),
        Value::String(s) => ValueModel::String(s@),
        Value::List(vs) => ValueModel::List(models_of(vs@)),
        Value::Dict(es) => ValueModel::Dict(entry_models_of(es@)),
        Value::Structure { signature, fields } => ValueModel::Structure(
            signature,
            models_of(fields@),
        ),
    }
}

/// The models of a sequence of values.
pub open spec fn models_of(vs: Seq<Value>) -> Seq<ValueModel>
    decreases vs,
{
    if vs.len() == 0 {
        Seq::empty()
    } else {
        models_of(vs.drop_last()).push(model_of(vs.last()))
    }
}

/// The models of a sequence of map entries.
pub open spec fn entry_models_of(es: Seq<(String, Value)>) -> Seq<(Seq<char>, ValueModel)>
    decreases es,
{
    if es.len() == 0 {
        Seq::empty()
    } else {
        entry_models_of(es.drop_last()).push((es.last().0@, model_of(es.last().1)))
    }
}

impl Value {
    /// The canonical bytes of this value; `LengthOverflow` exactly where a length does not
    /// fit its prefix or a structure has more than 15 fields, else `DuplicateMapKey` exactly
    /// where a map holds a key twice.
    pub fn try_into_bytes(&self) -> (r: Result<Vec<u8>, CodecError>)
        ensures
            r is Ok <==> encodable(self@) && well_formed(self@),
            r matches Ok(b) ==> b@ == encode(self@),
            !encodable(self@) ==> r == Err::<Vec<u8>, CodecError>(CodecError::LengthOverflow),
            encodable(self@) && !well_formed(self@) ==> r matches Err(
                CodecError::DuplicateMapKey(_),
            ),
    {
        let mut out: Vec<u8> = Vec::new();
        match encode_value(self, &mut out) {
            Ok(()) => {
                assert(out@ =~= encode(self@));
                Ok(out)
            },
            Err(e) => Err(e),
        }
    }

    /// Reads the value that starts `b`; bytes after it are left alone.
    pub fn try_from_bytes(b: &[u8]) -> (r: Result<Value, CodecError>)
        ensures
            r matches Ok(v) ==> parse(b@) matches Ok((m, _)) && v@ == m,
            r matches Err(e) ==> parse(b@) matches Err(f) && same_error(e, f),
    {
        assert(b@.subrange(0, b@.len() as int) =~= b@);
        match decode_value(b, 0) {
            Ok((v, _)) => Ok(v),
            Err(e) => Err(e),
        }
    }
}

pub proof fn lemma_models_of(vs: Seq<Value>)
    ensures
        models_of(vs).len() == vs.len(),
        forall|i: int| 0 <= i < vs.len() ==> #[trigger] models_of(vs)[i] == model_of(vs[i]),
    decreases vs.len(),
{
    if vs.len() > 0 {
        lemma_models_of(vs.drop_last());
    }
}

pub proof fn lemma_entry_models_of(es: Seq<(String, Value)>)
    ensures
        entry_models_of(es).len() == es.len(),
        forall|i: int|
            0 <= i < es.len() ==> #[trigger] entry_models_of(es)[i] == (es[i].0@, model_of(es[i].1)),
    decreases es.len(),
{
    if es.len() > 0 {
        lemma_entry_models_of(es.drop_last());
    }
}

impl View for Value {
    type V = ValueModel;

    open spec fn view(&self) -> ValueModel {
        model_of(*self)
    }
}

} // verus!
