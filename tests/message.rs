use bolt::error::CodecError;
use bolt::message::Message;
use bolt::value::Value;

fn new_msg() -> Message {
    Message::Init {
        client_name: "MyClient/1.0".to_string(),
        auth_token: vec![("scheme".to_string(), Value::String("basic".to_string()))],
    }
}

const INIT_BYTES: [u8; 29] = [
    0xB2, 0x01, 0x8C, 0x4D, 0x79, 0x43, 0x6C, 0x69, 0x65, 0x6E, 0x74, 0x2F, 0x31, 0x2E, 0x30, 0xA1,
    0x86, 0x73, 0x63, 0x68, 0x65, 0x6D, 0x65, 0x85, 0x62, 0x61, 0x73, 0x69, 0x63,
];

#[test]
fn init_get_marker() {
    assert_eq!(new_msg().get_marker(), 0xB2);
}

#[test]
fn init_get_signature() {
    assert_eq!(new_msg().get_signature(), 0x01);
}

#[test]
fn init_try_into_bytes() {
    assert_eq!(new_msg().try_into_bytes().unwrap(), INIT_BYTES.to_vec());
}

#[test]
fn init_reads_back() {
    match Message::try_from_bytes(&INIT_BYTES).unwrap() {
        Message::Init {
            client_name,
            auth_token,
        } => {
            assert_eq!(client_name, "MyClient/1.0");
            assert_eq!(auth_token.len(), 1);
            assert_eq!(auth_token[0].0, "scheme");
            assert!(matches!(&auth_token[0].1, Value::String(s) if s == "basic"));
        }
        other => panic!("unexpected {:?}", other),
    }
}

#[test]
fn hello_and_init_share_a_signature() {
    // One map field: HELLO.
    let bytes = [0xB1, 0x01, 0xA0];
    assert!(matches!(
        Message::try_from_bytes(&bytes).unwrap(),
        Message::Hello { .. }
    ));
}

#[test]
fn wrong_arity_is_refused() {
    // PULL_ALL with two fields.
    let bytes = [0xB2, 0x3F, 0xC0, 0xC0];
    assert_eq!(
        Message::try_from_bytes(&bytes).unwrap_err(),
        CodecError::InvalidStructureArity {
            signature: 0x3F,
            got: 2,
            expected: 0
        }
    );
    // SUCCESS without its metadata.
    assert_eq!(
        Message::try_from_bytes(&[0xB0, 0x70]).unwrap_err(),
        CodecError::InvalidStructureArity {
            signature: 0x70,
            got: 0,
            expected: 1
        }
    );
}

#[test]
fn wrong_field_kind_is_refused() {
    // RUN whose statement is an integer.
    let bytes = [0xB2, 0x10, 0x01, 0xA0];
    assert_eq!(
        Message::try_from_bytes(&bytes).unwrap_err(),
        CodecError::InvalidConversion {
            signature: 0x10,
            field: 0
        }
    );
}

#[test]
fn unknown_signature_is_refused() {
    assert_eq!(
        Message::try_from_bytes(&[0xB0, 0x55]).unwrap_err(),
        CodecError::InvalidSignature(0x55)
    );
}

#[test]
fn non_structure_is_no_message() {
    assert_eq!(
        Message::try_from_bytes(&[0xC0]).unwrap_err(),
        CodecError::InvalidMarker(0xC0)
    );
}

#[test]
fn record_reads_its_fields() {
    // RECORD [3458376]
    let bytes = [0xB1, 0x71, 0x91, 0xCA, 0x00, 0x34, 0xC5, 0x48];
    match Message::try_from_bytes(&bytes).unwrap() {
        Message::Record { fields } => {
            assert_eq!(fields.len(), 1);
            assert!(matches!(fields[0], Value::Integer(3_458_376)));
        }
        other => panic!("unexpected {:?}", other),
    }
}

#[test]
fn zero_field_messages_round_trip() {
    for (m, sig) in vec![
        (Message::Goodbye, 0x02u8),
        (Message::AckFailure, 0x0E),
        (Message::Reset, 0x0F),
        (Message::Commit, 0x12),
        (Message::Rollback, 0x13),
        (Message::DiscardAll, 0x2F),
        (Message::PullAll, 0x3F),
        (Message::Ignored, 0x7E),
    ] {
        let bytes = m.try_into_bytes().unwrap();
        assert_eq!(bytes, vec![0xB0, sig]);
        let back = Message::try_from_bytes(&bytes).unwrap();
        assert_eq!(back.get_signature(), sig);
        assert_eq!(back.field_count(), 0);
    }
}

#[test]
fn init_from_message() {
    let init = bolt::message::Init::try_from_message(new_msg()).unwrap();
    assert_eq!(init.client_name, "MyClient/1.0");
    assert!(matches!(
        bolt::message::Init::try_from_message(Message::Reset),
        Err(Message::Reset)
    ));
    let again = bolt::message::Init::new("MyClient/1.0", init.auth_token).into_message();
    assert_eq!(again.try_into_bytes().unwrap(), INIT_BYTES.to_vec());
}
