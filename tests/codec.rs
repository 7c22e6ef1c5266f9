use bolt::error::CodecError;
use bolt::value::Value;

fn round_trip(v: Value) -> Value {
    let bytes = v.try_into_bytes().unwrap();
    Value::try_from_bytes(&bytes).unwrap()
}

#[test]
fn scalars_round_trip() {
    assert!(matches!(round_trip(Value::Null), Value::Null));
    assert!(matches!(round_trip(Value::Boolean(true)), Value::Boolean(true)));
    assert!(matches!(round_trip(Value::Boolean(false)), Value::Boolean(false)));
    assert!(matches!(round_trip(Value::Integer(-8000)), Value::Integer(-8000)));
    let bits = 1.5f64.to_bits();
    assert!(matches!(round_trip(Value::Float(bits)), Value::Float(b) if b == bits));
}

#[test]
fn float_is_big_endian_binary64() {
    let bytes = Value::Float(1.5f64.to_bits()).try_into_bytes().unwrap();
    assert_eq!(bytes, vec![0xC1, 0x3F, 0xF8, 0, 0, 0, 0, 0, 0]);
}

#[test]
fn strings_use_narrowest_header() {
    assert_eq!(
        Value::String("abc".to_string()).try_into_bytes().unwrap(),
        vec![0x83, b'a', b'b', b'c']
    );
    let s16 = "x".repeat(16);
    let b16 = Value::String(s16.clone()).try_into_bytes().unwrap();
    assert_eq!(&b16[0..2], &[0xD0, 16]);
    let s300 = "y".repeat(300);
    let b300 = Value::String(s300.clone()).try_into_bytes().unwrap();
    assert_eq!(&b300[0..3], &[0xD1, 0x01, 0x2C]);
    assert!(matches!(round_trip(Value::String(s300.clone())), Value::String(s) if s == s300));
}

#[test]
fn string_decoding_keeps_characters() {
    // Two-byte UTF-8 character.
    let bytes = [0x82, 0xC3, 0xA9];
    assert!(matches!(Value::try_from_bytes(&bytes).unwrap(), Value::String(s) if s == "é"));
}

#[test]
fn invalid_utf8_is_refused() {
    assert_eq!(
        Value::try_from_bytes(&[0x81, 0xFF]).unwrap_err(),
        CodecError::InvalidUtf8
    );
}

#[test]
fn bytes_have_no_tiny_form() {
    let bytes = Value::Bytes(vec![1, 2, 3]).try_into_bytes().unwrap();
    assert_eq!(bytes, vec![0xCC, 3, 1, 2, 3]);
    assert!(matches!(round_trip(Value::Bytes(vec![1, 2, 3])), Value::Bytes(b) if b == vec![1, 2, 3]));
}

#[test]
fn nested_containers_round_trip() {
    let v = Value::List(vec![
        Value::Integer(1),
        Value::Dict(vec![
            ("a".to_string(), Value::Null),
            ("b".to_string(), Value::List(vec![Value::Boolean(true)])),
        ]),
        Value::Structure {
            signature: 0x4E,
            fields: vec![Value::Integer(7)],
        },
    ]);
    let bytes = v.try_into_bytes().unwrap();
    assert_eq!(bytes[0], 0x93);
    let back = round_trip(v);
    assert_eq!(back.try_into_bytes().unwrap(), bytes);
}

#[test]
fn long_list_uses_wide_header() {
    let v = Value::List((0..20).map(Value::Integer).collect());
    let bytes = v.try_into_bytes().unwrap();
    assert_eq!(&bytes[0..2], &[0xD4, 20]);
    match round_trip(v) {
        Value::List(vs) => assert_eq!(vs.len(), 20),
        other => panic!("unexpected {:?}", other),
    }
}

#[test]
fn duplicate_map_key_is_refused() {
    let bytes = [0xA2, 0x81, b'k', 0x01, 0x81, b'k', 0x02];
    assert_eq!(
        Value::try_from_bytes(&bytes).unwrap_err(),
        CodecError::DuplicateMapKey("k".to_string())
    );
}

#[test]
fn map_key_must_be_string() {
    let bytes = [0xA1, 0x01, 0x01];
    assert_eq!(
        Value::try_from_bytes(&bytes).unwrap_err(),
        CodecError::InvalidMarker(0x01)
    );
}

#[test]
fn structure_with_sixteen_fields_is_refused() {
    let v = Value::Structure {
        signature: 0x01,
        fields: (0..16).map(|_| Value::Null).collect(),
    };
    assert_eq!(v.try_into_bytes().unwrap_err(), CodecError::LengthOverflow);
}

#[test]
fn truncated_and_unknown_values_are_refused() {
    assert_eq!(Value::try_from_bytes(&[]).unwrap_err(), CodecError::UnexpectedEof);
    assert_eq!(
        Value::try_from_bytes(&[0x92, 0x01]).unwrap_err(),
        CodecError::UnexpectedEof
    );
    assert_eq!(
        Value::try_from_bytes(&[0xC4]).unwrap_err(),
        CodecError::InvalidMarker(0xC4)
    );
}

#[test]
fn duplicate_map_key_is_refused_on_write() {
    let v = Value::List(vec![Value::Dict(vec![
        ("k".to_string(), Value::Integer(1)),
        ("k".to_string(), Value::Integer(2)),
    ])]);
    assert_eq!(
        v.try_into_bytes().unwrap_err(),
        CodecError::DuplicateMapKey("k".to_string())
    );
    // A length overflow is reported before a duplicate key.
    let both = Value::Structure {
        signature: 0x01,
        fields: (0..15)
            .map(|_| Value::Null)
            .chain(std::iter::once(Value::Dict(vec![
                ("a".to_string(), Value::Null),
                ("a".to_string(), Value::Null),
            ])))
            .collect(),
    };
    assert_eq!(both.try_into_bytes().unwrap_err(), CodecError::LengthOverflow);
}
