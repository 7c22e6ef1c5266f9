//! Chunked framing: a message body travels as chunks of at most 65 535 bytes, each
//! behind its big-endian 16-bit length, and ends with a zero length.
use vstd::prelude::*;

use crate::be::{lemma_u16_round_trip, put_u16, u16_at, u16_bytes, u16_of};
use crate::error::CodecError;

verus! {

/// The largest number of bytes one chunk can carry.
pub const MAX_CHUNK_SIZE: usize = 65535;

/// `body` framed in chunks of at most `max` bytes, then the zero-length terminator.
pub open spec fn framed(body: Seq<u8>, max: int) -> Seq<u8>
    decreases body.len(),
{
    if body.len() == 0 || max <= 0 {
        seq![0u8, 0u8]
    } else {
        let n = if body.len() < max {
            body.len() as int
        } else {
            max
        };
        u16_bytes(n as u16) + body.subrange(0, n) + framed(body.subrange(n, body.len() as int), max)
    }
}

/// The message body whose framing starts `b`, with the number of bytes the framing takes.
pub open spec fn unframe(b: Seq<u8>) -> Result<(Seq<u8>, int), CodecError>
    decreases b.len(),
{
    if b.len() < 2 {
        Err(CodecError::UnexpectedEof)
    } else {
        let n = u16_of(b[0], b[1]) as int;
        if n == 0 {
            Ok((Seq::empty(), 2))
        } else if b.len() < 2 + n {
            Err(CodecError::UnexpectedEof)
        } else {
            match unframe(b.subrange(2 + n, b.len() as int)) {
                Ok((m, k)) => Ok((b.subrange(2, 2 + n) + m, 2 + n + k)),
                Err(e) => Err(e),
            }
        }
    }
}

/// Unframing a framed body gives the body back, whatever chunk size was used and
/// whatever follows the terminator.
pub proof fn lemma_chunk_round_trip(body: Seq<u8>, max: int, rest: Seq<u8>)
    requires
        1 <= max <= 65535,
    ensures
        unframe(framed(body, max) + rest) == Ok::<(Seq<u8>, int), CodecError>(
            (body, framed(body, max).len() as int),
        ),
    decreases body.len(),
{
    let f = framed(body, max);
    let b = f + rest;
    if body.len() == 0 {
        assert(u16_of(0u8, 0u8) == 0u16) by (bit_vector);
        assert(b[0] == 0 && b[1] == 0);
        assert(body =~= Seq::<u8>::empty());
    } else {
        let n = if body.len() < max {
            body.len() as int
        } else {
            max
        };
        let tail = body.subrange(n, body.len() as int);
        lemma_chunk_round_trip(tail, max, rest);
        lemma_u16_round_trip(n as u16);
        assert(b[0] == u16_bytes(n as u16)[0] && b[1] == u16_bytes(n as u16)[1]);
        assert(b.subrange(2 + n, b.len() as int) =~= framed(tail, max) + rest);
        assert(b.subrange(2, 2 + n) =~= body.subrange(0, n));
        assert(body.subrange(0, n) + tail =~= body);
    }
}

/// Several bodies framed one after the other, as replies arrive on a stream.
pub open spec fn framed_all(bodies: Seq<Seq<u8>>, max: int) -> Seq<u8>
    decreases bodies.len(),
{
    if bodies.len() == 0 {
        Seq::empty()
    } else {
        framed(bodies[0], max) + framed_all(bodies.subrange(1, bodies.len() as int), max)
    }
}

proof fn lemma_framed_all_split(bodies: Seq<Seq<u8>>, max: int, k: int)
    requires
        0 <= k <= bodies.len(),
    ensures
        framed_all(bodies, max) == framed_all(bodies.subrange(0, k), max) + framed_all(
            bodies.subrange(k, bodies.len() as int),
            max,
        ),
    decreases k,
{
    assert(framed_all(Seq::<Seq<u8>>::empty(), max) == Seq::<u8>::empty());
    if k == 0 {
        assert(bodies.subrange(0, 0) =~= Seq::<Seq<u8>>::empty());
        assert(bodies.subrange(0, bodies.len() as int) =~= bodies);
        assert(framed_all(bodies, max) =~= Seq::<u8>::empty() + framed_all(bodies, max));
    } else {
        let tail = bodies.subrange(1, bodies.len() as int);
        lemma_framed_all_split(tail, max, k - 1);
        let pre = bodies.subrange(0, k);
        assert(pre[0] == bodies[0]);
        assert(pre.subrange(1, k) =~= tail.subrange(0, k - 1));
        assert(bodies.subrange(k, bodies.len() as int) =~= tail.subrange(k - 1, tail.len() as int));
        assert(framed_all(bodies, max) =~= framed_all(pre, max) + framed_all(
            bodies.subrange(k, bodies.len() as int),
            max,
        ));
    }
}

/// On a stream of framed messages, reading from where the first `k` end gives message `k`
/// whole and ends where the first `k + 1` end: successive reads return the messages one
/// for one, in the order they were sent, none merged or split.
pub proof fn lemma_stream_order(bodies: Seq<Seq<u8>>, max: int, k: int, rest: Seq<u8>)
    requires
        1 <= max <= 65535,
        0 <= k < bodies.len(),
    ensures
        ({
            let s = framed_all(bodies, max) + rest;
            let o = framed_all(bodies.subrange(0, k), max).len() as int;
            &&& o <= s.len()
            &&& unframe(s.subrange(o, s.len() as int)) == Ok::<(Seq<u8>, int), CodecError>(
                (bodies[k], framed(bodies[k], max).len() as int),
            )
            &&& o + framed(bodies[k], max).len() == framed_all(bodies.subrange(0, k + 1), max).len()
        }),
{
    let s = framed_all(bodies, max) + rest;
    let pre = framed_all(bodies.subrange(0, k), max);
    let after = bodies.subrange(k, bodies.len() as int);
    lemma_framed_all_split(bodies, max, k);
    assert(after[0] == bodies[k]);
    assert(after.subrange(1, after.len() as int) =~= bodies.subrange(k + 1, bodies.len() as int));
    let later = framed_all(bodies.subrange(k + 1, bodies.len() as int), max);
    assert(framed_all(after, max) == framed(bodies[k], max) + later);
    assert(s =~= pre + (framed(bodies[k], max) + (later + rest)));
    assert(s.subrange(pre.len() as int, s.len() as int) =~= framed(bodies[k], max) + (later + rest));
    lemma_chunk_round_trip(bodies[k], max, later + rest);
    let upto = bodies.subrange(0, k + 1);
    lemma_framed_all_split(upto, max, k);
    assert(upto.subrange(0, k) =~= bodies.subrange(0, k));
    let last = upto.subrange(k, k + 1);
    assert(last[0] == bodies[k]);
    assert(last.subrange(1, 1) =~= Seq::<Seq<u8>>::empty());
    assert(framed_all(Seq::<Seq<u8>>::empty(), max) == Seq::<u8>::empty());
    assert(framed_all(last, max) =~= framed(bodies[k], max));
}

/// Appends `body` framed in chunks of at most `max` bytes.
pub fn frame_into(out: &mut Vec<u8>, body: &[u8], max: usize)
    requires
        1 <= max <= MAX_CHUNK_SIZE,
    ensures
        final(out)@ == old(out)@ + framed(body@, max as int),
{
    let len = body.len();
    let mut pos: usize = 0;
    assert(body@.subrange(0, len as int) =~= body@);
    while pos < len
        invariant
            1 <= max <= MAX_CHUNK_SIZE,
            len == body@.len(),
            pos <= len,
            old(out)@ + framed(body@, max as int) == out@ + framed(
                body@.subrange(pos as int, len as int),
                max as int,
            ),
        decreases len - pos,
    {
        let n: usize = if len - pos < max {
            len - pos
        } else {
            max
        };
        let ghost before = out@;
        let ghost tail = body@.subrange(pos as int, len as int);
        put_u16(out, n as u16);
        let mut i: usize = pos;
        while i < pos + n
            invariant
                pos + n <= len,
                n <= MAX_CHUNK_SIZE,
                len == body@.len(),
                pos <= i <= pos + n,
                out@ == before + u16_bytes(n as u16) + body@.subrange(pos as int, i as int),
            decreases pos + n - i,
        {
            out.push(body[i]);
            assert(body@.subrange(pos as int, i + 1) =~= body@.subrange(pos as int, i as int).push(
                body@[i as int],
            ));
            i = i + 1;
        }
        assert(tail.subrange(0, n as int) =~= body@.subrange(pos as int, pos + n));
        assert(tail.subrange(n as int, tail.len() as int) =~= body@.subrange(pos + n, len as int));
        assert(framed(tail, max as int) == u16_bytes(n as u16) + tail.subrange(0, n as int) + framed(
            tail.subrange(n as int, tail.len() as int),
            max as int,
        ));
        assert(out@ + framed(body@.subrange(pos + n, len as int), max as int) =~= before + framed(
            tail,
            max as int,
        ));
        pos = pos + n;
    }
    out.push(0u8);
    out.push(0u8);
    assert(body@.subrange(len as int, len as int) =~= Seq::<u8>::empty());
    assert(final(out)@ =~= old(out)@ + framed(body@, max as int));
}

/// `body` framed in chunks of at most `max` bytes.
pub fn chunkify(body: &[u8], max: usize) -> (r: Vec<u8>)
    requires
        1 <= max <= MAX_CHUNK_SIZE,
    ensures
        r@ == framed(body@, max as int),
{
    let mut out: Vec<u8> = Vec::new();
    frame_into(&mut out, body, max);
    assert(out@ =~= framed(body@, max as int));
    out
}

/// Reads the framed message that starts at `start`: its body and the position after
/// its terminator.
pub fn reassemble_at(b: &[u8], start: usize) -> (r: Result<(Vec<u8>, usize), CodecError>)
    requires
        start <= b@.len(),
    ensures
        r matches Ok((m, end)) ==> unframe(b@.subrange(start as int, b@.len() as int)) == Ok::<
            (Seq<u8>, int),
            CodecError,
        >((m@, end - start)),
        r matches Err(e) ==> unframe(b@.subrange(start as int, b@.len() as int)) == Err::<
            (Seq<u8>, int),
            CodecError,
        >(e),
{
    let len = b.len();
    let mut msg: Vec<u8> = Vec::new();
    let mut pos: usize = start;
    loop
        invariant
            len == b@.len(),
            start <= pos <= len,
            unframe(b@.subrange(start as int, len as int)) == match unframe(
                b@.subrange(pos as int, len as int),
            ) {
                Ok((m, k)) => Ok((msg@ + m, pos - start + k)),
                Err(e) => Err::<(Seq<u8>, int), CodecError>(e),
            },
        decreases len - pos,
    {
        let ghost cur = b@.subrange(pos as int, len as int);
        if len - pos < 2 {
            return Err(CodecError::UnexpectedEof);
        }
        let n = u16_at(b, pos) as usize;
        assert(cur[0] == b@[pos as int] && cur[1] == b@[pos + 1]);
        if n == 0 {
            assert(msg@ + Seq::<u8>::empty() =~= msg@);
            return Ok((msg, pos + 2));
        }
        if len - pos - 2 < n {
            return Err(CodecError::UnexpectedEof);
        }
        let ghost before = msg@;
        let mut i: usize = pos + 2;
        while i < pos + 2 + n
            invariant
                pos + 2 + n <= len,
                len == b@.len(),
                pos + 2 <= i <= pos + 2 + n,
                msg@ == before + b@.subrange(pos + 2, i as int),
            decreases pos + 2 + n - i,
        {
            msg.push(b[i]);
            assert(b@.subrange(pos + 2, i + 1) =~= b@.subrange(pos + 2, i as int).push(b@[i as int]));
            i = i + 1;
        }
        assert(cur.subrange(2 + n, cur.len() as int) =~= b@.subrange(pos + 2 + n, len as int));
        assert(cur.subrange(2, 2 + n) =~= b@.subrange(pos + 2, pos + 2 + n));
        proof {
            match unframe(b@.subrange(pos + 2 + n, len as int)) {
                Ok((m, k)) => {
                    assert(before + (b@.subrange(pos + 2, pos + 2 + n) + m) =~= msg@ + m);
                },
                Err(e) => {},
            }
        }
        pos = pos + 2 + n;
    }
}

/// What a chunk header announces: `None` for the zero length that ends a message, else
/// the number of bytes of the chunk that follows.
pub fn on_chunk_header(size: u16) -> (r: Option<usize>)
    ensures
        r is None <==> size == 0,
        r matches Some(n) ==> n == size,
{
    if size == 0 {
        None
    } else {
        Some(size as usize)
    }
}

/// A slice of a message body that fits one chunk.
#[derive(Debug, Clone)]
pub struct Chunk {
    pub data: Vec<u8>,
}

impl Chunk {
    /// A chunk of `data`; `LengthOverflow` where it is longer than a chunk can be.
    pub fn try_from_bytes(data: Vec<u8>) -> (r: Result<Chunk, CodecError>)
        ensures
            r matches Ok(c) ==> c.data@ == data@,
            r is Err <==> data@.len() > MAX_CHUNK_SIZE,
            r matches Err(e) ==> e == CodecError::LengthOverflow,
    {
        if data.len() > MAX_CHUNK_SIZE {
            Err(CodecError::LengthOverflow)
        } else {
            Ok(Chunk { data })
        }
    }
}

/// The body of one message, as it is assembled from chunks or before it is framed.
#[derive(Debug, Clone)]
pub struct MessageBytes {
    pub bytes: Vec<u8>,
}

impl MessageBytes {
    pub fn new() -> (r: MessageBytes)
        ensures
            r.bytes@.len() == 0,
    {
        MessageBytes { bytes: Vec::new() }
    }

    pub fn with_capacity(capacity: usize) -> (r: MessageBytes)
        ensures
            r.bytes@.len() == 0,
    {
        MessageBytes { bytes: Vec::with_capacity(capacity) }
    }

    /// Appends a chunk's bytes to the body.
    pub fn add_chunk(&mut self, chunk: Chunk)
        ensures
            final(self).bytes@ == old(self).bytes@ + chunk.data@,
    {
        let mut data = chunk.data;
        self.bytes.append(&mut data);
    }

    /// Reassembles the message whose framing starts `b`; bytes after its terminator are
    /// left alone.
    pub fn try_from_bytes(b: &[u8]) -> (r: Result<MessageBytes, CodecError>)
        ensures
            r matches Ok(m) ==> unframe(b@) matches Ok((body, _)) && m.bytes@ == body,
            r matches Err(e) ==> unframe(b@) == Err::<(Seq<u8>, int), CodecError>(e),
    {
        proof {
            assert(b@.subrange(0, b@.len() as int) =~= b@);
        }
        match reassemble_at(b, 0) {
            Ok((bytes, _)) => Ok(MessageBytes { bytes }),
            Err(e) => Err(e),
        }
    }

    /// The framed form of the body, in chunks as large as the format allows.
    pub fn into_bytes(self) -> (r: Vec<u8>)
        ensures
            r@ == framed(self.bytes@, MAX_CHUNK_SIZE as int),
    {
        chunkify(self.bytes.as_slice(), MAX_CHUNK_SIZE)
    }
}

} // verus!
