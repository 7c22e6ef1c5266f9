//! Errors of the codec and of the session rules.
use vstd::prelude::*;

verus! {

/// Why bytes could not be read as a Bolt value, or a value written as bytes.
#[derive(Debug, Clone, PartialEq, Eq)]
pub enum CodecError {
    /// A marker byte that starts no value of the expected kind.
    InvalidMarker(u8),
    /// The bytes end inside a value.
    UnexpectedEof,
    /// A length or count that the format cannot hold.
    LengthOverflow,
    /// String bytes that are not UTF-8.
    InvalidUtf8,
    /// A structure whose field count does not fit its signature.
    InvalidStructureArity { signature: u8, got: usize, expected: usize },
    /// A map that holds the same key twice.
    DuplicateMapKey(String),
    /// A structure signature that names no message, or not the structure expected.
    InvalidSignature(u8),
    /// A value that is not a structure where one is expected.
    NotAStructure,
    /// A field of a structure that is not of the kind its signature asks for.
    InvalidConversion { signature: u8, field: usize },
}

/// What a session operation can fail with before or after the wire.
#[derive(Debug, Clone, PartialEq, Eq)]
pub enum ClientError {
    /// The negotiated version does not offer the operation (none negotiated yet: `None`).
    UnsupportedOperation(Option<u32>),
    /// The server agreed to no proposed version.
    HandshakeFailed,
    /// A request could not be encoded, or a reply decoded.
    Codec(CodecError),
    /// A reply that is neither a record nor a summary (`SUCCESS`, `FAILURE`, `IGNORED`),
    /// with its signature.
    UnexpectedReply(u8),
}

} // verus!
