//! Bolt messages: structures whose signature names a request or a reply.
use vstd::prelude::*;

use crate::codec::{encodable, encode, parse, same_error, well_formed, MARKER_TINY_STRUCT};
use crate::decoder::decode_value;
use crate::error::CodecError;
use crate::value::{entry_models_of, lemma_models_of, model_of, models_of, Value, ValueModel};

verus! {

pub const SIGNATURE_INIT: u8 = 0x01;

pub const SIGNATURE_GOODBYE: u8 = 0x02;

pub const SIGNATURE_ACK_FAILURE: u8 = 0x0E;

pub const SIGNATURE_RESET: u8 = 0x0F;

pub const SIGNATURE_RUN: u8 = 0x10;

pub const SIGNATURE_BEGIN: u8 = 0x11;

pub const SIGNATURE_COMMIT: u8 = 0x12;

pub const SIGNATURE_ROLLBACK: u8 = 0x13;

pub const SIGNATURE_DISCARD: u8 = 0x2F;

pub const SIGNATURE_PULL: u8 = 0x3F;

pub const SIGNATURE_SUCCESS: u8 = 0x70;

pub const SIGNATURE_RECORD: u8 = 0x71;

pub const SIGNATURE_IGNORED: u8 = 0x7E;

pub const SIGNATURE_FAILURE: u8 = 0x7F;

/// The kind of field a message asks for: a string.
pub const FIELD_STRING: u8 = 0;

/// The kind of field a message asks for: a map.
pub const FIELD_DICT: u8 = 1;

/// The kind of field a message asks for: a list.
pub const FIELD_LIST: u8 = 2;

/// A request of any protocol version, or a reply.
#[derive(Debug)]
pub enum Message {
    Init { client_name: String, auth_token: Vec<(String, Value)> },
    Hello { metadata: Vec<(String, Value)> },
    Goodbye,
    AckFailure,
    Reset,
    Run { statement: String, parameters: Vec<(String, Value)> },
    RunWithMetadata {
        statement: String,
        parameters: Vec<(String, Value)>,
        metadata: Vec<(String, Value)>,
    },
    Begin { metadata: Vec<(String, Value)> },
    Commit,
    Rollback,
    DiscardAll,
    Discard { metadata: Vec<(String, Value)> },
    PullAll,
    Pull { metadata: Vec<(String, Value)> },
    Success { metadata: Vec<(String, Value)> },
    Record { fields: Vec<Value> },
    Ignored,
    Failure { metadata: Vec<(String, Value)> },
}

/// The `INIT` request on its own: the client's name and its credentials.
#[derive(Debug)]
pub struct Init {
    pub client_name: String,
    pub auth_token: Vec<(String, Value)>,
}

impl Init {
    pub fn new(client_name: &str, auth_token: Vec<(String, Value)>) -> (r: Init)
        ensures
            r.client_name@ == client_name@,
            r.auth_token@ == auth_token@,
    {
        Init { client_name: client_name.to_owned(), auth_token }
    }

    /// The request an `INIT` message carries; any other message is handed back.
    pub fn try_from_message(m: Message) -> (r: Result<Init, Message>)
        ensures
            r is Ok <==> m is Init,
            r matches Ok(i) ==> m == (Message::Init {
                client_name: i.client_name,
                auth_token: i.auth_token,
            }),
            r matches Err(back) ==> back == m,
    {
        match m {
            Message::Init { client_name, auth_token } => Ok(Init { client_name, auth_token }),
            other => Err(other),
        }
    }

    /// The message this request is sent as.
    pub fn into_message(self) -> (r: Message)
        ensures
            r == (Message::Init { client_name: self.client_name, auth_token: self.auth_token }),
    {
        Message::Init { client_name: self.client_name, auth_token: self.auth_token }
    }
}

/// The model of a map held as entries.
pub open spec fn dict_model(d: Seq<(String, Value)>) -> ValueModel {
    ValueModel::Dict(entry_models_of(d))
}

/// Whether `sig` names a message.
pub open spec fn known_signature(sig: u8) -> bool {
    sig == SIGNATURE_INIT || sig == SIGNATURE_GOODBYE || sig == SIGNATURE_ACK_FAILURE || sig
        == SIGNATURE_RESET || sig == SIGNATURE_RUN || sig == SIGNATURE_BEGIN || sig
        == SIGNATURE_COMMIT || sig == SIGNATURE_ROLLBACK || sig == SIGNATURE_DISCARD || sig
        == SIGNATURE_PULL || sig == SIGNATURE_SUCCESS || sig == SIGNATURE_RECORD || sig
        == SIGNATURE_IGNORED || sig == SIGNATURE_FAILURE
}

/// Whether a message with signature `sig` may have `n` fields. Where versions share a
/// signature, the field count tells the messages apart.
pub open spec fn arity_ok(sig: u8, n: int) -> bool {
    if sig == SIGNATURE_INIT {
        n == 1 || n == 2
    } else if sig == SIGNATURE_RUN {
        n == 2 || n == 3
    } else if sig == SIGNATURE_DISCARD || sig == SIGNATURE_PULL {
        n == 0 || n == 1
    } else if sig == SIGNATURE_BEGIN || sig == SIGNATURE_SUCCESS || sig == SIGNATURE_RECORD || sig
        == SIGNATURE_FAILURE {
        n == 1
    } else {
        n == 0
    }
}

/// The field count reported when a message with signature `sig` has a count it may not have.
pub open spec fn expected_arity(sig: u8) -> usize {
    if sig == SIGNATURE_INIT || sig == SIGNATURE_RUN {
        2
    } else if sig == SIGNATURE_BEGIN || sig == SIGNATURE_SUCCESS || sig == SIGNATURE_RECORD || sig
        == SIGNATURE_FAILURE {
        1
    } else {
        0
    }
}

/// The kinds of the fields of the message with signature `sig` and `n` fields.
pub open spec fn field_kinds(sig: u8, n: int) -> Seq<u8> {
    if sig == SIGNATURE_RECORD {
        seq![FIELD_LIST]
    } else if n == 3 {
        seq![FIELD_STRING, FIELD_DICT, FIELD_DICT]
    } else if n == 2 {
        seq![FIELD_STRING, FIELD_DICT]
    } else if n == 1 {
        seq![FIELD_DICT]
    } else {
        Seq::empty()
    }
}

/// Whether a field value is of kind `kind`.
pub open spec fn kind_ok(kind: u8, v: ValueModel) -> bool {
    if kind == FIELD_STRING {
        v is String
    } else if kind == FIELD_DICT {
        v is Dict
    } else {
        v is List
    }
}

/// The first field, if any, that is not of the kind its position asks for.
pub open spec fn bad_field(kinds: Seq<u8>, fs: Seq<ValueModel>) -> Option<usize> {
    if kinds.len() > 0 && !kind_ok(kinds[0], fs[0]) {
        Some(0)
    } else if kinds.len() > 1 && !kind_ok(kinds[1], fs[1]) {
        Some(1)
    } else if kinds.len() > 2 && !kind_ok(kinds[2], fs[2]) {
        Some(2)
    } else {
        None
    }
}

/// Why a structure is no message, if it is not one.
pub open spec fn message_error(sig: u8, fs: Seq<ValueModel>) -> Option<CodecError> {
    if !known_signature(sig) {
        Some(CodecError::InvalidSignature(sig))
    } else if !arity_ok(sig, fs.len() as int) {
        Some(
            CodecError::InvalidStructureArity {
                signature: sig,
                got: fs.len() as usize,
                expected: expected_arity(sig),
            },
        )
    } else {
        match bad_field(field_kinds(sig, fs.len() as int), fs) {
            Some(i) => Some(CodecError::InvalidConversion { signature: sig, field: i }),
            None => None,
        }
    }
}

impl Message {
    /// The structure this message is written as.
    pub open spec fn model(&self) -> ValueModel {
        match self {
            Message::Init { client_name, auth_token } => ValueModel::Structure(
                SIGNATURE_INIT,
                seq![ValueModel::String(client_name@), dict_model(auth_token@)],
            ),
            Message::Hello { metadata } => ValueModel::Structure(
                SIGNATURE_INIT,
                seq![dict_model(metadata@)],
            ),
            Message::Goodbye => ValueModel::Structure(SIGNATURE_GOODBYE, Seq::empty()),
            Message::AckFailure => ValueModel::Structure(SIGNATURE_ACK_FAILURE, Seq::empty()),
            Message::Reset => ValueModel::Structure(SIGNATURE_RESET, Seq::empty()),
            Message::Run { statement, parameters } => ValueModel::Structure(
                SIGNATURE_RUN,
                seq![ValueModel::String(statement@), dict_model(parameters@)],
            ),
            Message::RunWithMetadata { statement, parameters, metadata } => ValueModel::Structure(
                SIGNATURE_RUN,
                seq![
                    ValueModel::String(statement@),
                    dict_model(parameters@),
                    dict_model(metadata@),
                ],
            ),
            Message::Begin { metadata } => ValueModel::Structure(
                SIGNATURE_BEGIN,
                seq![dict_model(metadata@)],
            ),
            Message::Commit => ValueModel::Structure(SIGNATURE_COMMIT, Seq::empty()),
            Message::Rollback => ValueModel::Structure(SIGNATURE_ROLLBACK, Seq::empty()),
            Message::DiscardAll => ValueModel::Structure(SIGNATURE_DISCARD, Seq::empty()),
            Message::Discard { metadata } => ValueModel::Structure(
                SIGNATURE_DISCARD,
                seq![dict_model(metadata@)],
            ),
            Message::PullAll => ValueModel::Structure(SIGNATURE_PULL, Seq::empty()),
            Message::Pull { metadata } => ValueModel::Structure(
                SIGNATURE_PULL,
                seq![dict_model(metadata@)],
            ),
            Message::Success { metadata } => ValueModel::Structure(
                SIGNATURE_SUCCESS,
                seq![dict_model(metadata@)],
            ),
            Message::Record { fields } => ValueModel::Structure(
                SIGNATURE_RECORD,
                seq![ValueModel::List(models_of(fields@))],
            ),
            Message::Ignored => ValueModel::Structure(SIGNATURE_IGNORED, Seq::empty()),
            Message::Failure { metadata } => ValueModel::Structure(
                SIGNATURE_FAILURE,
                seq![dict_model(metadata@)],
            ),
        }
    }

    /// The signature byte of this message.
    pub fn get_signature(&self) -> (r: u8)
        ensures
            self.model() matches ValueModel::Structure(sig, _) && r == sig,
    {
        match self {
            Message::Init { .. } | Message::Hello { .. } => SIGNATURE_INIT,
            Message::Goodbye => SIGNATURE_GOODBYE,
            Message::AckFailure => SIGNATURE_ACK_FAILURE,
            Message::Reset => SIGNATURE_RESET,
            Message::Run { .. } | Message::RunWithMetadata { .. } => SIGNATURE_RUN,
            Message::Begin { .. } => SIGNATURE_BEGIN,
            Message::Commit => SIGNATURE_COMMIT,
            Message::Rollback => SIGNATURE_ROLLBACK,
            Message::DiscardAll | Message::Discard { .. } => SIGNATURE_DISCARD,
            Message::PullAll | Message::Pull { .. } => SIGNATURE_PULL,
            Message::Success { .. } => SIGNATURE_SUCCESS,
            Message::Record { .. } => SIGNATURE_RECORD,
            Message::Ignored => SIGNATURE_IGNORED,
            Message::Failure { .. } => SIGNATURE_FAILURE,
        }
    }

    /// The number of fields this message is written with.
    pub fn field_count(&self) -> (r: usize)
        ensures
            self.model() matches ValueModel::Structure(_, fs) && r == fs.len(),
    {
        match self {
            Message::Init { .. } | Message::Run { .. } => 2,
            Message::RunWithMetadata { .. } => 3,
            Message::Hello { .. } | Message::Begin { .. } | Message::Discard { .. } | Message::Pull {
                ..
            } | Message::Success { .. } | Message::Record { .. } | Message::Failure { .. } => 1,
            _ => 0,
        }
    }

    /// The marker byte this message is written with: a structure of its field count.
    pub fn get_marker(&self) -> (r: u8)
        ensures
            self.model() matches ValueModel::Structure(_, fs) && r == MARKER_TINY_STRUCT
                + fs.len(),
    {
        MARKER_TINY_STRUCT + self.field_count() as u8
    }

    /// The structure value this message is written as.
    pub fn into_value(self) -> (r: Value)
        ensures
            r@ == self.model(),
    {
        let ghost m = self.model();
        let (signature, fields) = match self {
            Message::Init { client_name, auth_token } => (
                SIGNATURE_INIT,
                vec![Value::String(client_name), Value::Dict(auth_token)],
            ),
            Message::Hello { metadata } => (SIGNATURE_INIT, vec![Value::Dict(metadata)]),
            Message::Goodbye => (SIGNATURE_GOODBYE, Vec::new()),
            Message::AckFailure => (SIGNATURE_ACK_FAILURE, Vec::new()),
            Message::Reset => (SIGNATURE_RESET, Vec::new()),
            Message::Run { statement, parameters } => (
                SIGNATURE_RUN,
                vec![Value::String(statement), Value::Dict(parameters)],
            ),
            Message::RunWithMetadata { statement, parameters, metadata } => (
                SIGNATURE_RUN,
                vec![Value::String(statement), Value::Dict(parameters), Value::Dict(metadata)],
            ),
            Message::Begin { metadata } => (SIGNATURE_BEGIN, vec![Value::Dict(metadata)]),
            Message::Commit => (SIGNATURE_COMMIT, Vec::new()),
            Message::Rollback => (SIGNATURE_ROLLBACK, Vec::new()),
            Message::DiscardAll => (SIGNATURE_DISCARD, Vec::new()),
            Message::Discard { metadata } => (SIGNATURE_DISCARD, vec![Value::Dict(metadata)]),
            Message::PullAll => (SIGNATURE_PULL, Vec::new()),
            Message::Pull { metadata } => (SIGNATURE_PULL, vec![Value::Dict(metadata)]),
            Message::Success { metadata } => (SIGNATURE_SUCCESS, vec![Value::Dict(metadata)]),
            Message::Record { fields } => (SIGNATURE_RECORD, vec![Value::List(fields)]),
            Message::Ignored => (SIGNATURE_IGNORED, Vec::new()),
            Message::Failure { metadata } => (SIGNATURE_FAILURE, vec![Value::Dict(metadata)]),
        };
        proof {
            lemma_models_of(fields@);
            if let ValueModel::Structure(_, fs) = m {
                assert(models_of(fields@) =~= fs);
            }
        }
        Value::Structure { signature, fields }
    }
}

/// Whether a field value is of kind `kind`.
fn field_is(v: &Value, kind: u8) -> (r: bool)
    ensures
        r == kind_ok(kind, v@),
{
    match v {
        Value::String(_) => kind == FIELD_STRING,
        Value::Dict(_) => kind == FIELD_DICT,
        Value::List(_) => kind != FIELD_STRING && kind != FIELD_DICT,
        _ => false,
    }
}

/// Takes the last field, which must be a map.
fn pop_dict(fields: &mut Vec<Value>) -> (r: Vec<(String, Value)>)
    requires
        old(fields)@.len() > 0,
        model_of(old(fields)@.last()) is Dict,
    ensures
        final(fields)@ == old(fields)@.drop_last(),
        dict_model(r@) == model_of(old(fields)@.last()),
{
    match fields.pop().unwrap() {
        Value::Dict(d) => d,
        _ => Vec::new(),
    }
}

/// Takes the last field, which must be a string.
fn pop_string(fields: &mut Vec<Value>) -> (r: String)
    requires
        old(fields)@.len() > 0,
        model_of(old(fields)@.last()) is String,
    ensures
        final(fields)@ == old(fields)@.drop_last(),
        ValueModel::String(r@) == model_of(old(fields)@.last()),
{
    match fields.pop().unwrap() {
        Value::String(s) => s,
        _ => String::new(),
    }
}

/// Reads a message from its signature and fields; an error says why they make no message.
pub fn message_from_structure(signature: u8, fields: Vec<Value>) -> (r: Result<Message, CodecError>)
    ensures
        r matches Ok(m) ==> m.model() == ValueModel::Structure(signature, models_of(fields@)),
        r matches Err(e) ==> message_error(signature, models_of(fields@)) == Some(e),
        r is Ok <==> message_error(signature, models_of(fields@)) is None,
{
    proof {
        lemma_models_of(fields@);
    }
    let ghost fs = models_of(fields@);
    let n = fields.len();
    let known = signature == SIGNATURE_INIT || signature == SIGNATURE_GOODBYE || signature
        == SIGNATURE_ACK_FAILURE || signature == SIGNATURE_RESET || signature == SIGNATURE_RUN
        || signature == SIGNATURE_BEGIN || signature == SIGNATURE_COMMIT || signature
        == SIGNATURE_ROLLBACK || signature == SIGNATURE_DISCARD || signature == SIGNATURE_PULL
        || signature == SIGNATURE_SUCCESS || signature == SIGNATURE_RECORD || signature
        == SIGNATURE_IGNORED || signature == SIGNATURE_FAILURE;
    if !known {
        return Err(CodecError::InvalidSignature(signature));
    }
    let (ok, expected): (bool, usize) = if signature == SIGNATURE_INIT {
        (n == 1 || n == 2, 2)
    } else if signature == SIGNATURE_RUN {
        (n == 2 || n == 3, 2)
    } else if signature == SIGNATURE_DISCARD || signature == SIGNATURE_PULL {
        (n == 0 || n == 1, 0)
    } else if signature == SIGNATURE_BEGIN || signature == SIGNATURE_SUCCESS || signature
        == SIGNATURE_RECORD || signature == SIGNATURE_FAILURE {
        (n == 1, 1)
    } else {
        (n == 0, 0)
    };
    if !ok {
        return Err(CodecError::InvalidStructureArity { signature, got: n, expected });
    }
    let ghost kinds = field_kinds(signature, n as int);
    let (k0, k1, k2): (u8, u8, u8) = if signature == SIGNATURE_RECORD {
        (FIELD_LIST, FIELD_DICT, FIELD_DICT)
    } else if n == 1 {
        (FIELD_DICT, FIELD_DICT, FIELD_DICT)
    } else {
        (FIELD_STRING, FIELD_DICT, FIELD_DICT)
    };
    if n > 0 && !field_is(&fields[0], k0) {
        return Err(CodecError::InvalidConversion { signature, field: 0 });
    }
    if n > 1 && !field_is(&fields[1], k1) {
        return Err(CodecError::InvalidConversion { signature, field: 1 });
    }
    if n > 2 && !field_is(&fields[2], k2) {
        return Err(CodecError::InvalidConversion { signature, field: 2 });
    }
    assert(bad_field(kinds, fs) is None);
    let mut fields = fields;
    let m = if n == 0 {
        if signature == SIGNATURE_GOODBYE {
            Message::Goodbye
        } else if signature == SIGNATURE_ACK_FAILURE {
            Message::AckFailure
        } else if signature == SIGNATURE_RESET {
            Message::Reset
        } else if signature == SIGNATURE_COMMIT {
            Message::Commit
        } else if signature == SIGNATURE_ROLLBACK {
            Message::Rollback
        } else if signature == SIGNATURE_DISCARD {
            Message::DiscardAll
        } else if signature == SIGNATURE_PULL {
            Message::PullAll
        } else {
            Message::Ignored
        }
    } else if signature == SIGNATURE_RECORD {
        match fields.pop().unwrap() {
            Value::List(vs) => Message::Record { fields: vs },
            _ => Message::Ignored,
        }
    } else if n == 1 {
        let metadata = pop_dict(&mut fields);
        if signature == SIGNATURE_INIT {
            Message::Hello { metadata }
        } else if signature == SIGNATURE_BEGIN {
            Message::Begin { metadata }
        } else if signature == SIGNATURE_DISCARD {
            Message::Discard { metadata }
        } else if signature == SIGNATURE_PULL {
            Message::Pull { metadata }
        } else if signature == SIGNATURE_SUCCESS {
            Message::Success { metadata }
        } else {
            Message::Failure { metadata }
        }
    } else if n == 2 {
        let second = pop_dict(&mut fields);
        proof {
            lemma_models_of(fields@);
        }
        let first = pop_string(&mut fields);
        if signature == SIGNATURE_INIT {
            Message::Init { client_name: first, auth_token: second }
        } else {
            Message::Run { statement: first, parameters: second }
        }
    } else {
        let metadata = pop_dict(&mut fields);
        proof {
            lemma_models_of(fields@);
        }
        let parameters = pop_dict(&mut fields);
        proof {
            lemma_models_of(fields@);
        }
        let statement = pop_string(&mut fields);
        Message::RunWithMetadata { statement, parameters, metadata }
    };
    proof {
        if let ValueModel::Structure(_, ms) = m.model() {
            assert(ms =~= fs);
        }
    }
    Ok(m)
}

impl Message {
    /// The bytes of this message: its structure in the value encoding.
    pub fn try_into_bytes(self) -> (r: Result<Vec<u8>, CodecError>)
        ensures
            r is Ok <==> encodable(self.model()) && well_formed(self.model()),
            r matches Ok(b) ==> b@ == encode(self.model()),
            !encodable(self.model()) ==> r == Err::<Vec<u8>, CodecError>(
                CodecError::LengthOverflow,
            ),
            encodable(self.model()) && !well_formed(self.model()) ==> r matches Err(
                CodecError::DuplicateMapKey(_),
            ),
    {
        let v = self.into_value();
        v.try_into_bytes()
    }

    /// Reads the message that starts `b`: a structure whose signature and fields make a
    /// message. Bytes after it are left alone.
    pub fn try_from_bytes(b: &[u8]) -> (r: Result<Message, CodecError>)
        ensures
            r matches Ok(m) ==> (parse(b@) matches Ok((v, _)) && v == m.model()),
            r matches Err(e) ==> match parse(b@) {
                Ok((ValueModel::Structure(sig, fs), _)) => message_error(sig, fs) == Some(e),
                Ok(_) => e == CodecError::InvalidMarker(b@[0]),
                Err(f) => same_error(e, f),
            },
            r is Ok <==> (parse(b@) matches Ok((ValueModel::Structure(sig, fs), _))
                && message_error(sig, fs) is None),
    {
        assert(b@.subrange(0, b@.len() as int) =~= b@);
        match decode_value(b, 0) {
            Ok((Value::Structure { signature, fields }, _)) => message_from_structure(
                signature,
                fields,
            ),
            Ok(_) => Err(CodecError::InvalidMarker(b[0])),
            Err(e) => Err(e),
        }
    }
}

/// A message whose field count its signature does not allow is refused with
/// `InvalidStructureArity`, never read as a message, whatever its fields hold.
pub proof fn lemma_structure_arity(b: Seq<u8>, sig: u8, fs: Seq<ValueModel>, k: int)
    requires
        parse(b) == Ok::<(ValueModel, int), CodecError>((ValueModel::Structure(sig, fs), k)),
        known_signature(sig),
        !arity_ok(sig, fs.len() as int),
    ensures
        message_error(sig, fs) == Some(
            CodecError::InvalidStructureArity {
                signature: sig,
                got: fs.len() as usize,
                expected: expected_arity(sig),
            },
        ),
{
}

} // verus!
