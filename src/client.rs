//! The client side of a Bolt session: the handshake, which version offers which request,
//! the bytes each request is sent as, and how replies are matched to requests.
use vstd::prelude::*;

use crate::be::{put_u32, u32_at, u32_bytes, u32_of};
use crate::chunk::{frame_into, framed, reassemble_at, unframe, MAX_CHUNK_SIZE};
use crate::codec::{encodable, encode, parse, same_error, well_formed};
use crate::encoder::encode_value;
use crate::error::{ClientError, CodecError};
use crate::message::{dict_model, message_error, Message, SIGNATURE_RUN};
use crate::value::{Value, ValueModel};

verus! {

/// The four bytes that open a Bolt connection.
pub open spec fn preamble() -> Seq<u8> {
    seq![0x60u8, 0x60u8, 0xB0u8, 0x17u8]
}

/// A request that the client can make.
#[derive(Debug, Clone, Copy, PartialEq, Eq)]
pub enum Operation {
    Init,
    Hello,
    Run,
    RunWithMetadata,
    DiscardAll,
    Discard,
    PullAll,
    Pull,
    AckFailure,
    Begin,
    Commit,
    Rollback,
    Goodbye,
    Reset,
}

/// Whether protocol version `v` offers operation `op`.
pub open spec fn supports(op: Operation, v: u32) -> bool {
    match op {
        Operation::Init | Operation::Run | Operation::AckFailure => v == 1 || v == 2,
        Operation::Hello | Operation::RunWithMetadata | Operation::Begin | Operation::Commit
        | Operation::Rollback | Operation::Goodbye => v == 3 || v == 4,
        Operation::DiscardAll | Operation::PullAll => 1 <= v <= 3,
        Operation::Discard | Operation::Pull => v == 4,
        Operation::Reset => 1 <= v <= 4,
    }
}

/// Whether the negotiated version, if there is one, offers `op`.
pub open spec fn allowed(op: Operation, version: Option<u32>) -> bool {
    version matches Some(v) && supports(op, v)
}

/// The bytes a message is sent as: its encoding, framed in chunks.
pub open spec fn wire_bytes(m: ValueModel) -> Seq<u8> {
    framed(encode(m), MAX_CHUNK_SIZE as int)
}

/// What a request made with `version` sends: nothing and `UnsupportedOperation` where the
/// version does not offer it, else the framed message, or `LengthOverflow` where a length
/// in it does not fit, or `DuplicateMapKey` where a map in it holds a key twice.
pub open spec fn request_outcome(op: Operation, version: Option<u32>, m: ValueModel) -> Result<
    Seq<u8>,
    ClientError,
> {
    if !allowed(op, version) {
        Err(ClientError::UnsupportedOperation(version))
    } else if !encodable(m) {
        Err(ClientError::Codec(CodecError::LengthOverflow))
    } else if !well_formed(m) {
        Err(ClientError::Codec(CodecError::DuplicateMapKey(choose|k: String| #[trigger] k@ == k@)))
    } else {
        Ok(wire_bytes(m))
    }
}

/// The entries of an optional map, none meaning an empty map.
pub open spec fn entries_or_empty(p: Option<Vec<(String, Value)>>) -> Seq<(String, Value)> {
    match p {
        Some(v) => v@,
        None => Seq::empty(),
    }
}

/// Whether the bytes or the error a request returned are those `expected`; a duplicate map
/// key is matched by kind, the key being one that a map holds twice.
pub open spec fn answers(r: Result<Vec<u8>, ClientError>, expected: Result<Seq<u8>, ClientError>) -> bool {
    match r {
        Ok(b) => expected == Ok::<Seq<u8>, ClientError>(b@),
        Err(e) => expected == Err::<Seq<u8>, ClientError>(e) || (e matches ClientError::Codec(
            CodecError::DuplicateMapKey(_),
        ) && expected matches Err(ClientError::Codec(CodecError::DuplicateMapKey(_)))),
    }
}

/// A request that the negotiated version does not offer fails with
/// `UnsupportedOperation` and puts no byte on the wire, whatever the message holds.
pub proof fn lemma_version_gating(op: Operation, version: Option<u32>, m: ValueModel)
    requires
        !allowed(op, version),
    ensures
        request_outcome(op, version, m) == Err::<Seq<u8>, ClientError>(
            ClientError::UnsupportedOperation(version),
        ),
{
}

/// Whether the negotiated version, if there is one, offers `op`.
pub fn is_allowed(op: Operation, version: Option<u32>) -> (r: bool)
    ensures
        r == allowed(op, version),
{
    match version {
        None => false,
        Some(v) => match op {
            Operation::Init | Operation::Run | Operation::AckFailure => v == 1 || v == 2,
            Operation::Hello | Operation::RunWithMetadata | Operation::Begin | Operation::Commit
            | Operation::Rollback | Operation::Goodbye => v == 3 || v == 4,
            Operation::DiscardAll | Operation::PullAll => 1 <= v && v <= 3,
            Operation::Discard | Operation::Pull => v == 4,
            Operation::Reset => 1 <= v && v <= 4,
        },
    }
}

/// The framed bytes of a message, or why it cannot be written.
pub fn message_bytes(m: Message) -> (r: Result<Vec<u8>, ClientError>)
    ensures
        r is Ok <==> encodable(m.model()) && well_formed(m.model()),
        r matches Ok(b) ==> b@ == wire_bytes(m.model()),
        !encodable(m.model()) ==> r == Err::<Vec<u8>, ClientError>(
            ClientError::Codec(CodecError::LengthOverflow),
        ),
        encodable(m.model()) && !well_formed(m.model()) ==> r matches Err(
            ClientError::Codec(CodecError::DuplicateMapKey(_)),
        ),
{
    let ghost model = m.model();
    let v = m.into_value();
    let mut body: Vec<u8> = Vec::new();
    match encode_value(&v, &mut body) {
        Ok(()) => {
            let mut out: Vec<u8> = Vec::new();
            frame_into(&mut out, body.as_slice(), MAX_CHUNK_SIZE);
            assert(out@ =~= wire_bytes(model));
            Ok(out)
        },
        Err(e) => Err(ClientError::Codec(e)),
    }
}

/// Reads one framed message from `b` at `pos`: the message and the position after its
/// terminator.
pub fn read_message(b: &[u8], pos: usize) -> (r: Result<(Message, usize), ClientError>)
    requires
        pos <= b@.len(),
    ensures
        r matches Ok((m, end)) ==> unframe(b@.subrange(pos as int, b@.len() as int)) matches Ok(
            (body, k),
        ) && end == pos + k && (parse(body) matches Ok((v, _)) && v == m.model()),
        r is Ok <==> (unframe(b@.subrange(pos as int, b@.len() as int)) matches Ok((body, _))
            && parse(body) matches Ok((ValueModel::Structure(sig, fs), _)) && message_error(sig, fs)
            is None),
        r matches Err(e) ==> match unframe(b@.subrange(pos as int, b@.len() as int)) {
            Err(f) => e == ClientError::Codec(f),
            Ok((body, _)) => match parse(body) {
                Ok((ValueModel::Structure(sig, fs), _)) => message_error(sig, fs) matches Some(f)
                    && e == ClientError::Codec(f),
                Ok(_) => e == ClientError::Codec(CodecError::InvalidMarker(body[0])),
                Err(f) => e matches ClientError::Codec(g) && same_error(g, f),
            },
        },
{
    match reassemble_at(b, pos) {
        Ok((body, end)) => match Message::try_from_bytes(body.as_slice()) {
            Ok(m) => Ok((m, end)),
            Err(e) => Err(ClientError::Codec(e)),
        },
        Err(e) => Err(ClientError::Codec(e)),
    }
}

/// The client's side of a connection: the protocol version agreed in the handshake, if
/// any. Requests come out as bytes to send; replies go in as bytes received.
#[derive(Debug)]
pub struct Client {
    pub version: Option<u32>,
}

impl Client {
    pub fn new() -> (r: Client)
        ensures
            r.version is None,
    {
        Client { version: None }
    }

    /// The handshake: the preamble, then four version proposals in order of preference.
    pub fn handshake_request(proposals: &[u32; 4]) -> (r: Vec<u8>)
        ensures
            r@ == preamble() + u32_bytes(proposals@[0]) + u32_bytes(proposals@[1]) + u32_bytes(
                proposals@[2],
            ) + u32_bytes(proposals@[3]),
    {
        let mut out: Vec<u8> = vec![0x60u8, 0x60u8, 0xB0u8, 0x17u8];
        put_u32(&mut out, proposals[0]);
        put_u32(&mut out, proposals[1]);
        put_u32(&mut out, proposals[2]);
        put_u32(&mut out, proposals[3]);
        assert(out@ =~= preamble() + u32_bytes(proposals@[0]) + u32_bytes(proposals@[1])
            + u32_bytes(proposals@[2]) + u32_bytes(proposals@[3]));
        out
    }

    /// Takes the server's four-byte answer to the handshake. A version records it; zero
    /// means no common version and fails with `HandshakeFailed`.
    pub fn handshake(&mut self, reply: &[u8]) -> (r: Result<u32, ClientError>)
        ensures
            reply@.len() < 4 ==> r == Err::<u32, ClientError>(
                ClientError::Codec(CodecError::UnexpectedEof),
            ) && final(self).version == old(self).version,
            reply@.len() >= 4 && u32_of(reply@[0], reply@[1], reply@[2], reply@[3]) == 0 ==> r
                == Err::<u32, ClientError>(ClientError::HandshakeFailed) && final(self).version
                == old(self).version,
            reply@.len() >= 4 && u32_of(reply@[0], reply@[1], reply@[2], reply@[3]) != 0 ==> r
                == Ok::<u32, ClientError>(u32_of(reply@[0], reply@[1], reply@[2], reply@[3]))
                && final(self).version == Some(u32_of(reply@[0], reply@[1], reply@[2], reply@[3])),
    {
        if reply.len() < 4 {
            return Err(ClientError::Codec(CodecError::UnexpectedEof));
        }
        let v = u32_at(reply, 0);
        if v == 0 {
            return Err(ClientError::HandshakeFailed);
        }
        self.version = Some(v);
        Ok(v)
    }

    /// The bytes of a request for `op`, or why it cannot be made.
    fn request(&self, op: Operation, m: Message) -> (r: Result<Vec<u8>, ClientError>)
        ensures
            answers(r, request_outcome(op, self.version, m.model())),
    {
        if !is_allowed(op, self.version) {
            return Err(ClientError::UnsupportedOperation(self.version));
        }
        message_bytes(m)
    }

    /// `INIT` (versions 1 and 2): opens the session with a client name and credentials.
    pub fn init(&self, client_name: String, auth_token: Vec<(String, Value)>) -> (r: Result<Vec<u8>, ClientError>)
        ensures
            answers(r, request_outcome(Operation::Init, self.version, (Message::Init { client_name, auth_token }).model())),
    {
        self.request(Operation::Init, Message::Init { client_name, auth_token })
    }

    /// `HELLO` (versions 3 and 4): opens the session with metadata and credentials.
    pub fn hello(&self, metadata: Vec<(String, Value)>) -> (r: Result<Vec<u8>, ClientError>)
        ensures
            answers(r, request_outcome(Operation::Hello, self.version, (Message::Hello { metadata }).model())),
    {
        self.request(Operation::Hello, Message::Hello { metadata })
    }

    /// `RUN` with metadata (versions 3 and 4): a statement, its parameters and transaction metadata.
    pub fn run_with_metadata(&self, statement: String, parameters: Vec<(String, Value)>, metadata: Vec<(String, Value)>) -> (r: Result<Vec<u8>, ClientError>)
        ensures
            answers(r, request_outcome(Operation::RunWithMetadata, self.version, (Message::RunWithMetadata { statement, parameters, metadata }).model())),
    {
        self.request(Operation::RunWithMetadata, Message::RunWithMetadata { statement, parameters, metadata })
    }

    /// `RUN` (versions 1 and 2): a statement and its parameters, none meaning an empty map.
    pub fn run(&self, statement: String, parameters: Option<Vec<(String, Value)>>) -> (r: Result<
        Vec<u8>,
        ClientError,
    >)
        ensures
            answers(
                r,
                request_outcome(
                    Operation::Run,
                    self.version,
                    ValueModel::Structure(
                        SIGNATURE_RUN,
                        seq![
                            ValueModel::String(statement@),
                            dict_model(entries_or_empty(parameters)),
                        ],
                    ),
                ),
            ),
    {
        let ghost given = entries_or_empty(parameters);
        let parameters = match parameters {
            Some(p) => p,
            None => Vec::new(),
        };
        assert(parameters@ =~= given);
        let ghost st = statement@;
        let m = Message::Run { statement, parameters };
        assert(m.model() == ValueModel::Structure(
            SIGNATURE_RUN,
            seq![ValueModel::String(st), dict_model(given)],
        ));
        self.request(Operation::Run, m)
    }

    /// `DISCARD_ALL` (versions 1 to 3): drops the rest of the current result stream.
    pub fn discard_all(&self) -> (r: Result<Vec<u8>, ClientError>)
        ensures
            answers(r, request_outcome(Operation::DiscardAll, self.version, (Message::DiscardAll).model())),
    {
        self.request(Operation::DiscardAll, Message::DiscardAll)
    }

    /// `DISCARD` (version 4): drops results, as its metadata (`n`, `qid`) says.
    pub fn discard(&self, metadata: Vec<(String, Value)>) -> (r: Result<Vec<u8>, ClientError>)
        ensures
            answers(r, request_outcome(Operation::Discard, self.version, (Message::Discard { metadata }).model())),
    {
        self.request(Operation::Discard, Message::Discard { metadata })
    }

    /// `PULL_ALL` (versions 1 to 3): asks for the rest of the current result stream. Its
    /// replies are gathered by a `Pipeline` of one request.
    pub fn pull_all(&self) -> (r: Result<Vec<u8>, ClientError>)
        ensures
            answers(r, request_outcome(Operation::PullAll, self.version, (Message::PullAll).model())),
    {
        self.request(Operation::PullAll, Message::PullAll)
    }

    /// `PULL` (version 4): asks for results, as its metadata (`n`, `qid`) says.
    pub fn pull(&self, metadata: Vec<(String, Value)>) -> (r: Result<Vec<u8>, ClientError>)
        ensures
            answers(r, request_outcome(Operation::Pull, self.version, (Message::Pull { metadata }).model())),
    {
        self.request(Operation::Pull, Message::Pull { metadata })
    }

    /// `ACK_FAILURE` (versions 1 and 2): clears the failed state.
    pub fn ack_failure(&self) -> (r: Result<Vec<u8>, ClientError>)
        ensures
            answers(r, request_outcome(Operation::AckFailure, self.version, (Message::AckFailure).model())),
    {
        self.request(Operation::AckFailure, Message::AckFailure)
    }

    /// `BEGIN` (versions 3 and 4): opens an explicit transaction.
    pub fn begin(&self, metadata: Vec<(String, Value)>) -> (r: Result<Vec<u8>, ClientError>)
        ensures
            answers(r, request_outcome(Operation::Begin, self.version, (Message::Begin { metadata }).model())),
    {
        self.request(Operation::Begin, Message::Begin { metadata })
    }

    /// `COMMIT` (versions 3 and 4): commits the open transaction.
    pub fn commit(&self) -> (r: Result<Vec<u8>, ClientError>)
        ensures
            answers(r, request_outcome(Operation::Commit, self.version, (Message::Commit).model())),
    {
        self.request(Operation::Commit, Message::Commit)
    }

    /// `ROLLBACK` (versions 3 and 4): rolls the open transaction back.
    pub fn rollback(&self) -> (r: Result<Vec<u8>, ClientError>)
        ensures
            answers(r, request_outcome(Operation::Rollback, self.version, (Message::Rollback).model())),
    {
        self.request(Operation::Rollback, Message::Rollback)
    }

    /// `GOODBYE` (versions 3 and 4): announces that the connection will close.
    pub fn goodbye(&self) -> (r: Result<Vec<u8>, ClientError>)
        ensures
            answers(r, request_outcome(Operation::Goodbye, self.version, (Message::Goodbye).model())),
    {
        self.request(Operation::Goodbye, Message::Goodbye)
    }

    /// `RESET` (all versions): returns the session to a clean state.
    pub fn reset(&self) -> (r: Result<Vec<u8>, ClientError>)
        ensures
            answers(r, request_outcome(Operation::Reset, self.version, (Message::Reset).model())),
    {
        self.request(Operation::Reset, Message::Reset)
    }

    /// Any message, whatever the version: the escape hatch for sending what the server
    /// should judge.
    pub fn send_message(&self, m: Message) -> (r: Result<Vec<u8>, ClientError>)
        ensures
            r is Ok <==> encodable(m.model()) && well_formed(m.model()),
            r matches Ok(b) ==> b@ == wire_bytes(m.model()),
            !encodable(m.model()) ==> r == Err::<Vec<u8>, ClientError>(
                ClientError::Codec(CodecError::LengthOverflow),
            ),
            encodable(m.model()) && !well_formed(m.model()) ==> r matches Err(
                ClientError::Codec(CodecError::DuplicateMapKey(_)),
            ),
    {
        message_bytes(m)
    }
}

} // verus!
