use bolt::chunk::{chunkify, Chunk, MessageBytes};
use bolt::error::CodecError;

fn new_chunk() -> Chunk {
    Chunk::try_from_bytes(vec![
        0x00, 0x01, 0x02, 0x03, 0x04, 0x05, 0x06, 0x07, 0x08, 0x09, 0x0A, 0x0B, 0x0C, 0x0D, 0x0E,
        0x0F,
    ])
    .unwrap()
}

fn new_message() -> MessageBytes {
    let mut msg = MessageBytes::with_capacity(1);
    msg.add_chunk(new_chunk());
    msg
}

#[test]
fn into_bytes() {
    let bytes = new_message().into_bytes();
    let mut result = Vec::new();
    result.extend_from_slice(&(new_chunk().data.len() as u16).to_be_bytes());
    result.extend_from_slice(&new_chunk().data);
    result.extend_from_slice(&[0, 0]);
    assert_eq!(bytes, result)
}

#[test]
fn from_bytes() {
    let bytes = [
        0x00, 0x10, 0x00, 0x01, 0x02, 0x03, 0x04, 0x05, 0x06, 0x07, 0x08, 0x09, 0x0A, 0x0B, 0x0C,
        0x0D, 0x0E, 0x0F, 0x00, 0x00,
    ];
    let message = MessageBytes::try_from_bytes(&bytes);
    assert_eq!(message.unwrap().bytes, new_chunk().data);
}

#[test]
fn from_bytes_multiple_chunks() {
    let bytes = [
        0x00, 0x10, 0x00, 0x01, 0x02, 0x03, 0x04, 0x05, 0x06, 0x07, 0x08, 0x09, 0x0A, 0x0B, 0x0C,
        0x0D, 0x0E, 0x0F, 0x00, 0x04, 0x01, 0x02, 0x03, 0x04, 0x00, 0x00,
    ];
    let message = MessageBytes::try_from_bytes(&bytes);
    assert_eq!(
        message.unwrap().bytes,
        vec![
            0x00, 0x01, 0x02, 0x03, 0x04, 0x05, 0x06, 0x07, 0x08, 0x09, 0x0A, 0x0B, 0x0C, 0x0D,
            0x0E, 0x0F, 0x01, 0x02, 0x03, 0x04
        ]
    );
}

#[test]
fn chunk_round_trip_small_chunks() {
    let body: Vec<u8> = (0..50u8).collect();
    let framed = chunkify(&body, 7);
    // 7 full chunks and one of 1 byte, each with its header, then the terminator.
    assert_eq!(framed.len(), 50 + 8 * 2 + 2);
    assert_eq!(&framed[0..2], &[0x00, 0x07]);
    assert_eq!(MessageBytes::try_from_bytes(&framed).unwrap().bytes, body);
}

#[test]
fn chunk_round_trip_large_body() {
    let body: Vec<u8> = (0..200_000u32).map(|i| (i % 251) as u8).collect();
    let framed = chunkify(&body, 65535);
    assert_eq!(&framed[0..2], &[0xFF, 0xFF]);
    assert_eq!(MessageBytes::try_from_bytes(&framed).unwrap().bytes, body);
}

#[test]
fn empty_message_is_one_terminator() {
    assert_eq!(MessageBytes::new().into_bytes(), vec![0x00, 0x00]);
    assert_eq!(MessageBytes::try_from_bytes(&[0x00, 0x00]).unwrap().bytes, Vec::<u8>::new());
}

#[test]
fn truncated_framing_is_refused() {
    assert_eq!(
        MessageBytes::try_from_bytes(&[0x00, 0x04, 0x01, 0x02]).unwrap_err(),
        CodecError::UnexpectedEof
    );
    assert_eq!(
        MessageBytes::try_from_bytes(&[0x00, 0x01, 0x01]).unwrap_err(),
        CodecError::UnexpectedEof
    );
}

#[test]
fn oversized_chunk_is_refused() {
    assert_eq!(
        Chunk::try_from_bytes(vec![0u8; 65536]).unwrap_err(),
        CodecError::LengthOverflow
    );
    assert!(Chunk::try_from_bytes(vec![0u8; 65535]).is_ok());
}

#[test]
fn chunk_header_step() {
    assert_eq!(bolt::chunk::on_chunk_header(0), None);
    assert_eq!(bolt::chunk::on_chunk_header(16), Some(16));
    assert_eq!(bolt::chunk::on_chunk_header(65535), Some(65535));
}

#[test]
fn successive_reads_follow_the_stream() {
    let mut stream = chunkify(&[1, 2, 3], 2);
    stream.extend(chunkify(&[], 2));
    stream.extend(chunkify(&[4], 2));
    let (first, end1) = bolt::chunk::reassemble_at(&stream, 0).unwrap();
    let (second, end2) = bolt::chunk::reassemble_at(&stream, end1).unwrap();
    let (third, end3) = bolt::chunk::reassemble_at(&stream, end2).unwrap();
    assert_eq!(first, vec![1, 2, 3]);
    assert_eq!(second, Vec::<u8>::new());
    assert_eq!(third, vec![4]);
    assert_eq!(end3, stream.len());
}
