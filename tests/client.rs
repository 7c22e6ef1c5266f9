use bolt::client::{read_message, Client};
use bolt::error::{ClientError, CodecError};
use bolt::graph::{path_sequence_valid, Path, Relationship};
use bolt::message::Message;
use bolt::pipeline::Pipeline;
use bolt::value::Value;

fn framed(m: Message) -> Vec<u8> {
    Client::new().send_message(m).unwrap()
}

fn v1_client() -> Client {
    let mut client = Client::new();
    client.handshake(&[0, 0, 0, 1]).unwrap();
    client
}

#[test]
fn framed_init_has_length_and_terminator() {
    let client = v1_client();
    let bytes = client
        .init(
            "MyClient/1.0".to_string(),
            vec![("scheme".to_string(), Value::String("basic".to_string()))],
        )
        .unwrap();
    assert_eq!(&bytes[0..2], &[0x00, 29]);
    assert_eq!(&bytes[bytes.len() - 2..], &[0x00, 0x00]);
    assert_eq!(bytes.len(), 2 + 29 + 2);
    assert_eq!(bytes[2], 0xB2);
}

#[test]
fn handshake_records_version() {
    let request = Client::handshake_request(&[1, 0, 0, 0]);
    assert_eq!(
        request,
        vec![0x60, 0x60, 0xB0, 0x17, 0, 0, 0, 1, 0, 0, 0, 0, 0, 0, 0, 0, 0, 0, 0, 0]
    );
    let mut client = Client::new();
    assert_eq!(client.handshake(&[0x00, 0x00, 0x00, 0x01]), Ok(1));
    assert_eq!(client.version, Some(1));
}

#[test]
fn handshake_zero_fails() {
    let mut client = Client::new();
    assert_eq!(
        client.handshake(&[0, 0, 0, 0]),
        Err(ClientError::HandshakeFailed)
    );
    assert_eq!(client.version, None);
    assert_eq!(
        client.handshake(&[0, 0]),
        Err(ClientError::Codec(CodecError::UnexpectedEof))
    );
}

#[test]
fn v3_method_with_v1_client_is_refused() {
    let client = v1_client();
    assert_eq!(
        client.commit(),
        Err(ClientError::UnsupportedOperation(Some(1)))
    );
    assert!(client.reset().is_ok());
}

#[test]
fn requests_before_handshake_are_refused() {
    let client = Client::new();
    assert_eq!(client.reset(), Err(ClientError::UnsupportedOperation(None)));
    assert_eq!(
        client.run("RETURN 1 as n;".to_string(), None),
        Err(ClientError::UnsupportedOperation(None))
    );
}

#[test]
fn v1_requests_are_framed_messages() {
    let client = v1_client();
    assert_eq!(client.pull_all().unwrap(), vec![0x00, 0x02, 0xB0, 0x3F, 0x00, 0x00]);
    assert_eq!(client.discard_all().unwrap(), vec![0x00, 0x02, 0xB0, 0x2F, 0x00, 0x00]);
    assert_eq!(client.ack_failure().unwrap(), vec![0x00, 0x02, 0xB0, 0x0E, 0x00, 0x00]);
    let run = client.run("RETURN 1 as n;".to_string(), None).unwrap();
    assert_eq!(&run[2..5], &[0xB2, 0x10, 0x8E]);
    assert_eq!(run[run.len() - 3], 0xA0);
}

#[test]
fn pull_all_gathers_records_before_success() {
    // RECORD [3458376], then SUCCESS {}.
    let mut wire = framed(Message::Record {
        fields: vec![Value::Integer(3_458_376)],
    });
    wire.extend(framed(Message::Success { metadata: vec![] }));
    let mut pipeline = Pipeline::new(1);
    let mut pos = 0;
    while !pipeline.is_complete() {
        let (m, end) = read_message(&wire, pos).unwrap();
        pipeline.accept(m).unwrap();
        pos = end;
    }
    assert_eq!(pos, wire.len());
    let replies = pipeline.finish();
    assert_eq!(replies.len(), 1);
    assert!(matches!(replies[0].summary, Message::Success { .. }));
    assert_eq!(replies[0].records.len(), 1);
    match &replies[0].records[0] {
        Message::Record { fields } => assert!(matches!(fields[..], [Value::Integer(3_458_376)])),
        other => panic!("unexpected {:?}", other),
    }
}

#[test]
fn failure_then_ignored_then_success_each_end_a_reply() {
    let mut pipeline = Pipeline::new(3);
    pipeline.accept(Message::Failure {
        metadata: vec![("code".to_string(), Value::String("Syntax".to_string()))],
    }).unwrap();
    pipeline.accept(Message::Ignored).unwrap();
    pipeline.accept(Message::Success { metadata: vec![] }).unwrap();
    assert!(pipeline.is_complete());
    let replies = pipeline.finish();
    assert!(matches!(replies[0].summary, Message::Failure { .. }));
    assert!(matches!(replies[1].summary, Message::Ignored));
    assert!(matches!(replies[2].summary, Message::Success { .. }));
}

#[test]
fn pipelined_batch_keeps_order() {
    // (RUN, PULL_ALL) x 4: the pulls return one record each.
    let mut pipeline = Pipeline::new(8);
    for i in 0..4i64 {
        pipeline.accept(Message::Success { metadata: vec![] }).unwrap();
        pipeline.accept(Message::Record {
            fields: vec![Value::Integer(i)],
        }).unwrap();
        pipeline.accept(Message::Success {
            metadata: vec![("n".to_string(), Value::Integer(i))],
        }).unwrap();
    }
    assert!(pipeline.is_complete());
    let replies = pipeline.finish();
    assert_eq!(replies.len(), 8);
    for (k, reply) in replies.iter().enumerate() {
        assert!(matches!(reply.summary, Message::Success { .. }));
        if k % 2 == 0 {
            assert!(reply.records.is_empty());
        } else {
            let i = (k / 2) as i64;
            assert_eq!(reply.records.len(), 1);
            assert!(matches!(&reply.records[0], Message::Record { fields } if matches!(fields[..], [Value::Integer(x)] if x == i)));
        }
    }
}

#[test]
fn relationship_from_value() {
    let v = Value::Structure {
        signature: 0x52,
        fields: vec![
            Value::Integer(5),
            Value::Integer(1),
            Value::Integer(2),
            Value::String("WRITTEN_IN".to_string()),
            Value::Dict(vec![]),
        ],
    };
    let r = Relationship::try_from_value(v).unwrap();
    assert_eq!(r.rel_identity, 5);
    assert_eq!(
        (r.start_node_identity, r.end_node_identity),
        (1, 2)
    );
    assert_eq!(r.rel_type, "WRITTEN_IN");
    assert!(r.properties.is_empty());
    assert!(Relationship::try_from_value(Value::Null).is_err());
    let made = Relationship::new(9, 3, 4, "KNOWS".to_string(), vec![]);
    assert_eq!(made.rel_type, "KNOWS");
}

#[test]
fn version_sets_follow_the_table() {
    let mut v3 = Client::new();
    v3.handshake(&[0, 0, 0, 3]).unwrap();
    assert!(v3.hello(vec![]).is_ok());
    assert!(v3.begin(vec![]).is_ok());
    assert!(v3.commit().is_ok());
    assert!(v3.rollback().is_ok());
    assert!(v3.goodbye().is_ok());
    assert!(v3.pull_all().is_ok());
    assert!(v3.discard_all().is_ok());
    assert_eq!(v3.pull(vec![]), Err(ClientError::UnsupportedOperation(Some(3))));
    assert_eq!(v3.discard(vec![]), Err(ClientError::UnsupportedOperation(Some(3))));
    assert_eq!(
        v3.init("c".to_string(), vec![]),
        Err(ClientError::UnsupportedOperation(Some(3)))
    );
    assert_eq!(v3.ack_failure(), Err(ClientError::UnsupportedOperation(Some(3))));

    let mut v4 = Client::new();
    v4.handshake(&[0, 0, 0, 4]).unwrap();
    let pull = v4
        .pull(vec![("n".to_string(), Value::Integer(-1))])
        .unwrap();
    assert_eq!(&pull[2..4], &[0xB1, 0x3F]);
    assert!(v4.discard(vec![]).is_ok());
    assert!(v4.reset().is_ok());
    assert_eq!(v4.pull_all(), Err(ClientError::UnsupportedOperation(Some(4))));
    assert_eq!(
        v4.run("RETURN 1".to_string(), None),
        Err(ClientError::UnsupportedOperation(Some(4)))
    );
    let run = v4
        .run_with_metadata("RETURN 1".to_string(), vec![], vec![])
        .unwrap();
    assert_eq!(&run[2..4], &[0xB3, 0x10]);
}

#[test]
fn read_message_reports_codec_errors() {
    assert_eq!(
        read_message(&[0x00, 0x02, 0xB0], 0).unwrap_err(),
        ClientError::Codec(CodecError::UnexpectedEof)
    );
    assert_eq!(
        read_message(&[0x00, 0x02, 0xB0, 0x99, 0x00, 0x00], 0).unwrap_err(),
        ClientError::Codec(CodecError::InvalidSignature(0x99))
    );
}

fn node(id: i64) -> Value {
    Value::Structure {
        signature: 0x4E,
        fields: vec![Value::Integer(id), Value::List(vec![]), Value::Dict(vec![])],
    }
}

fn unbound(id: i64) -> Value {
    Value::Structure {
        signature: 0x72,
        fields: vec![
            Value::Integer(id),
            Value::String("KNOWS".to_string()),
            Value::Dict(vec![]),
        ],
    }
}

fn path(sequence: Vec<i64>) -> Value {
    Value::Structure {
        signature: 0x50,
        fields: vec![
            Value::List(vec![node(1), node(2)]),
            Value::List(vec![unbound(9)]),
            Value::List(sequence.into_iter().map(Value::Integer).collect()),
        ],
    }
}

#[test]
fn path_walk_is_checked() {
    let p = Path::try_from_value(path(vec![1, 1])).unwrap();
    assert_eq!(p.sequence, vec![1, 1]);
    assert_eq!(p.nodes.len(), 2);
    assert!(Path::try_from_value(path(vec![-1, 0])).is_ok());
    assert!(Path::try_from_value(path(vec![])).is_ok());
    // Relationship index out of range, zero, node index out of range, odd length.
    assert!(Path::try_from_value(path(vec![2, 1])).is_err());
    assert!(Path::try_from_value(path(vec![0, 1])).is_err());
    assert!(Path::try_from_value(path(vec![1, 2])).is_err());
    assert!(Path::try_from_value(path(vec![1])).is_err());
    assert!(path_sequence_valid(&[1, 1, -1, 0], 2, 1));
    assert!(!path_sequence_valid(&[i64::MIN, 0], 2, 1));
}

#[test]
fn pipeline_refuses_a_request_as_reply() {
    let mut pipeline = Pipeline::new(1);
    pipeline
        .accept(Message::Record {
            fields: vec![Value::Integer(1)],
        })
        .unwrap();
    assert_eq!(
        pipeline.accept(Message::Reset),
        Err(ClientError::UnexpectedReply(0x0F))
    );
    assert!(!pipeline.is_complete());
    pipeline.accept(Message::Ignored).unwrap();
    let replies = pipeline.finish();
    assert_eq!(replies[0].records.len(), 1);
    assert!(matches!(replies[0].summary, Message::Ignored));
}

#[test]
fn graph_errors_name_the_fault() {
    assert_eq!(
        Relationship::try_from_value(Value::Null).unwrap_err(),
        CodecError::NotAStructure
    );
    assert_eq!(
        Relationship::try_from_value(node(1)).unwrap_err(),
        CodecError::InvalidSignature(0x4E)
    );
    let short = Value::Structure {
        signature: 0x52,
        fields: vec![Value::Integer(1)],
    };
    assert_eq!(
        Relationship::try_from_value(short).unwrap_err(),
        CodecError::InvalidStructureArity {
            signature: 0x52,
            got: 1,
            expected: 5
        }
    );
    let bad_type = Value::Structure {
        signature: 0x52,
        fields: vec![
            Value::Integer(5),
            Value::Integer(1),
            Value::Integer(2),
            Value::Integer(3),
            Value::Dict(vec![]),
        ],
    };
    assert_eq!(
        Relationship::try_from_value(bad_type).unwrap_err(),
        CodecError::InvalidConversion {
            signature: 0x52,
            field: 3
        }
    );
    assert_eq!(
        Path::try_from_value(path(vec![2, 1])).unwrap_err(),
        CodecError::InvalidConversion {
            signature: 0x50,
            field: 2
        }
    );
    let bad_rels = Value::Structure {
        signature: 0x50,
        fields: vec![
            Value::List(vec![node(1)]),
            Value::List(vec![node(2)]),
            Value::List(vec![]),
        ],
    };
    assert_eq!(
        Path::try_from_value(bad_rels).unwrap_err(),
        CodecError::InvalidConversion {
            signature: 0x50,
            field: 1
        }
    );
}
