use bolt::error::CodecError;
use bolt::integer::{Integer, MARKER_INT_16, MARKER_INT_32, MARKER_INT_64, MARKER_INT_8};

#[test]
fn integer_get_marker() {
    let tiny = Integer::from(-16_i8);
    assert_eq!(tiny.get_marker(), 0xF0);
    let small = Integer::from(-50_i8);
    assert_eq!(small.get_marker(), MARKER_INT_8);
    let medium = Integer::from(-8000_i16);
    assert_eq!(medium.get_marker(), MARKER_INT_16);
    let large = Integer::from(-1_000_000_000_i32);
    assert_eq!(large.get_marker(), MARKER_INT_32);
    let very_large = Integer::from(-9_000_000_000_000_000_000_i64);
    assert_eq!(very_large.get_marker(), MARKER_INT_64);
}

#[test]
fn integer_try_into_bytes() {
    let tiny = Integer::from(-16_i8);
    assert_eq!(tiny.try_into_bytes(), vec![0xF0]);
    let tiny_64 = Integer::from(5_i64);
    assert_eq!(tiny_64.try_into_bytes(), vec![0x05]);
    let small = Integer::from(-50_i8);
    assert_eq!(small.try_into_bytes(), vec![MARKER_INT_8, 0xCE]);
    let small_64 = Integer::from(-50_i64);
    assert_eq!(small_64.try_into_bytes(), vec![MARKER_INT_8, 0xCE]);
    let medium = Integer::from(-8000_i16);
    assert_eq!(medium.try_into_bytes(), vec![MARKER_INT_16, 0xE0, 0xC0]);
    let large = Integer::from(-1_000_000_000_i32);
    assert_eq!(
        large.try_into_bytes(),
        vec![MARKER_INT_32, 0xC4, 0x65, 0x36, 0x00]
    );
    let very_large = Integer::from(-9_000_000_000_000_000_000_i64);
    assert_eq!(
        very_large.try_into_bytes(),
        vec![MARKER_INT_64, 0x83, 0x19, 0x93, 0xAF, 0x1D, 0x7C, 0x00, 0x00]
    );
}

#[test]
fn try_from_bytes() {
    let tiny = Integer::from(-16_i8);
    assert_eq!(Integer::try_from_bytes(&tiny.try_into_bytes()).unwrap(), tiny);
    let small = Integer::from(-50_i8);
    assert_eq!(Integer::try_from_bytes(&small.try_into_bytes()).unwrap(), small);
    let medium = Integer::from(-8000_i16);
    assert_eq!(Integer::try_from_bytes(&medium.try_into_bytes()).unwrap(), medium);
    let large = Integer::from(-1_000_000_000_i32);
    assert_eq!(Integer::try_from_bytes(&large.try_into_bytes()).unwrap(), large);
    let very_large = Integer::from(-9_000_000_000_000_000_000_i64);
    assert_eq!(
        Integer::try_from_bytes(&very_large.try_into_bytes()).unwrap(),
        very_large
    );
}

#[test]
fn zero_extension() {
    let number = 12123_i16;
    let number_bytes = [0xC9, 0x2F, 0x5B];
    assert_eq!(Integer::from(number).try_into_bytes(), number_bytes.to_vec());
    assert_eq!(
        Integer::try_from_bytes(&number_bytes).unwrap().value as i32,
        number as i32
    );
    assert_eq!(
        Integer::try_from_bytes(&number_bytes).unwrap().value,
        number as i64
    );
}

#[test]
fn sign_extension() {
    let number = -60_i8;
    let number_bytes = [0xC8, 0xC4];
    assert_eq!(Integer::from(number).try_into_bytes(), number_bytes.to_vec());
    assert_eq!(
        Integer::try_from_bytes(&number_bytes).unwrap().value as i32,
        number as i32
    );
    assert_eq!(
        Integer::try_from_bytes(&number_bytes).unwrap().value,
        number as i64
    );
}

#[test]
fn integer_round_trip_on_width_edges() {
    let edges: [i64; 16] = [
        i64::MIN,
        -2_147_483_649,
        -2_147_483_648,
        -32_769,
        -32_768,
        -129,
        -128,
        -17,
        -16,
        0,
        127,
        128,
        32_767,
        32_768,
        2_147_483_647,
        i64::MAX,
    ];
    for v in edges.iter() {
        let bytes = Integer::new(*v).try_into_bytes();
        assert_eq!(Integer::try_from_bytes(&bytes).unwrap().value, *v);
    }
}

#[test]
fn integer_marker_is_narrowest() {
    assert_eq!(Integer::new(127).try_into_bytes().len(), 1);
    assert_eq!(Integer::new(128).try_into_bytes().len(), 3);
    assert_eq!(Integer::new(-17).try_into_bytes().len(), 2);
    assert_eq!(Integer::new(-129).try_into_bytes().len(), 3);
    assert_eq!(Integer::new(32_768).try_into_bytes().len(), 5);
    assert_eq!(Integer::new(2_147_483_648).try_into_bytes().len(), 9);
}

#[test]
fn integer_wide_forms_are_read() {
    // 1 written with a 64-bit marker still reads as 1.
    let bytes = [0xCB, 0, 0, 0, 0, 0, 0, 0, 1];
    assert_eq!(Integer::try_from_bytes(&bytes).unwrap().value, 1);
}

#[test]
fn integer_read_errors() {
    assert_eq!(Integer::try_from_bytes(&[]), Err(CodecError::UnexpectedEof));
    assert_eq!(Integer::try_from_bytes(&[0xC9, 0x01]), Err(CodecError::UnexpectedEof));
    assert_eq!(Integer::try_from_bytes(&[0xC0]), Err(CodecError::InvalidMarker(0xC0)));
}
