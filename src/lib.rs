//! Bolt protocol codec: values, structures, messages, chunked framing and the
//! client-side decisions of a versioned Bolt session.
pub mod be;
pub mod chunk;
pub mod client;
pub mod codec;
pub mod decoder;
pub mod encoder;
pub mod error;
pub mod graph;
pub mod integer;
pub mod message;
pub mod pipeline;
pub mod value;
