use memberlist::codec::{decode_labeled_message, decode_message, encode_labeled_message,
    encode_message, DecodeError, EncodeError};
use memberlist::error_response::{ErrorResponse, ErrorResponseError};
use memberlist::types::{Ack, Message, Nack, NodeAddress, NodeStateKind, Ping, PushNodeState,
    PushPull};
use rand::RngExt;
use transformable::Transformable;

fn sample_ping() -> Ping {
    Ping {
        seq_no: 7,
        source_id: b"a".to_vec(),
        source_addr: NodeAddress { ip: 0x01020304, port: 1 },
        target_id: b"b".to_vec(),
        target_addr: NodeAddress { ip: 0x01020305, port: 2 },
    }
}

fn sample_state() -> PushNodeState {
    PushNodeState {
        id: b"node-1".to_vec(),
        addr: NodeAddress { ip: 0x0a000001, port: 7946 },
        meta: vec![1, 2, 3],
        incarnation: 42,
        state: NodeStateKind::Alive,
        protocol_version: 1,
        delegate_version: 1,
    }
}

#[test]
fn test_encode_ping_exact_bytes() {
    // Ping{seq=7, src=(id="a", 1.2.3.4:1), tgt=(id="b", 1.2.3.5:2)}, bare frame
    let frame = encode_message(&Message::Ping(sample_ping())).unwrap();
    let expected: Vec<u8> = vec![
        0, // kind tag: ping
        0, 0, 0, 22, // payload length
        0, 0, 0, 7, // seq_no
        0, 1, b'a', // source id
        1, 2, 3, 4, 0, 1, // source addr 1.2.3.4:1
        0, 1, b'b', // target id
        1, 2, 3, 5, 0, 2, // target addr 1.2.3.5:2
    ];
    assert_eq!(frame, expected);
    let (n, decoded) = decode_message(&frame).unwrap();
    assert_eq!(n, frame.len());
    assert_eq!(decoded, Message::Ping(sample_ping()));
}

#[test]
fn test_round_trip_every_kind() {
    let messages = vec![
        Message::Ping(sample_ping()),
        Message::Ack(Ack { seq_no: 9, payload: vec![1, 2, 3, 4] }),
        Message::Ack(Ack { seq_no: 10, payload: vec![] }),
        Message::Nack(Nack { seq_no: 11 }),
        Message::PushPull(PushPull {
            join: true,
            states: vec![sample_state(), PushNodeState {
                id: b"node-2".to_vec(),
                addr: NodeAddress { ip: 0x0a000002, port: 7946 },
                meta: vec![],
                incarnation: 0,
                state: NodeStateKind::Suspect,
                protocol_version: 0,
                delegate_version: 0,
            }],
            user_data: b"user".to_vec(),
        }),
        Message::PushPull(PushPull { join: false, states: vec![], user_data: vec![] }),
        Message::UserData(b"hello".to_vec()),
        Message::UserData(vec![]),
        Message::ErrorResponse(ErrorResponse::new("boom".to_string())),
    ];
    for m in messages {
        let frame = encode_message(&m).unwrap();
        let (n, decoded) = decode_message(&frame).unwrap();
        assert_eq!(n, frame.len());
        assert_eq!(decoded, m);
        // a frame decodes the same with trailing bytes behind it
        let mut longer = frame.clone();
        longer.extend_from_slice(&[0xaa, 0xbb]);
        let (n2, decoded2) = decode_message(&longer).unwrap();
        assert_eq!(n2, frame.len());
        assert_eq!(decoded2, m);
    }
}

#[test]
fn test_compound_round_trip() {
    // a datagram bundling a ping and a user message, each its own frame
    let ping_frame = encode_message(&Message::Ping(sample_ping())).unwrap();
    let user_frame = encode_message(&Message::UserData(b"hi".to_vec())).unwrap();
    let compound = Message::Compound(vec![ping_frame.clone(), user_frame.clone()]);
    let frame = encode_message(&compound).unwrap();
    let (n, decoded) = decode_message(&frame).unwrap();
    assert_eq!(n, frame.len());
    assert_eq!(decoded, compound);
    // each sub-frame decodes independently
    match decoded {
        Message::Compound(subs) => {
            assert_eq!(subs.len(), 2);
            let (_, first) = decode_message(&subs[0]).unwrap();
            assert_eq!(first, Message::Ping(sample_ping()));
            let (_, second) = decode_message(&subs[1]).unwrap();
            assert_eq!(second, Message::UserData(b"hi".to_vec()));
        }
        other => panic!("expected a compound, got {:?}", other),
    }
    // the empty compound holds
    let empty = Message::Compound(vec![]);
    let frame = encode_message(&empty).unwrap();
    assert_eq!(frame, vec![6, 0, 0, 0, 1, 0]);
    let (_, decoded) = decode_message(&frame).unwrap();
    assert_eq!(decoded, empty);
}

#[test]
fn test_round_trip_with_label() {
    let labels: [&[u8]; 2] = [b"", b"cluster-7"];
    for label in labels {
        let m = Message::Ping(sample_ping());
        let framed = encode_labeled_message(label, &m).unwrap();
        let (n, decoded) = decode_labeled_message(label, &framed).unwrap();
        assert_eq!(n, framed.len());
        assert_eq!(decoded, m);
    }
}

#[test]
fn test_wrong_label_rejected() {
    let m = Message::Nack(Nack { seq_no: 3 });
    let framed = encode_labeled_message(b"alpha", &m).unwrap();
    assert_eq!(
        decode_labeled_message(b"beta", &framed).unwrap_err(),
        DecodeError::BadLabel
    );
}

#[test]
fn test_decode_error_kinds() {
    // too short for a frame header
    assert_eq!(decode_message(&[0, 0, 0]).unwrap_err(), DecodeError::Truncated);
    // header promises more payload than there is
    assert_eq!(decode_message(&[2, 0, 0, 0, 9, 1]).unwrap_err(), DecodeError::Truncated);
    // unknown kind tag
    assert_eq!(decode_message(&[9, 0, 0, 0, 0]).unwrap_err(), DecodeError::BadKind(9));
    // nack payload with a byte left over
    assert_eq!(
        decode_message(&[2, 0, 0, 0, 5, 0, 0, 0, 1, 99]).unwrap_err(),
        DecodeError::Trailing
    );
    // push/pull payload with a join flag that names nothing
    assert_eq!(
        decode_message(&[3, 0, 0, 0, 9, 7, 0, 0, 0, 0, 0, 0, 0, 0]).unwrap_err(),
        DecodeError::BadJoinFlag(7)
    );
    // push/pull record with a state tag that names nothing
    let mut pp = encode_message(&Message::PushPull(PushPull {
        join: false,
        states: vec![sample_state()],
        user_data: vec![],
    }))
    .unwrap();
    // the state tag sits seven bytes before the trailing user-data length
    let at = pp.len() - 4 - 3;
    pp[at] = 250;
    assert_eq!(decode_message(&pp).unwrap_err(), DecodeError::BadStateTag(250));
    // error response whose message bytes are not UTF-8
    assert_eq!(
        decode_message(&[5, 0, 0, 0, 5, 0, 0, 0, 1, 0xff]).unwrap_err(),
        DecodeError::Utf8Error
    );
}

#[test]
fn test_encode_rejects_oversized_id() {
    let m = Message::Ping(Ping {
        seq_no: 1,
        source_id: vec![0; 70_000],
        source_addr: NodeAddress { ip: 0, port: 0 },
        target_id: vec![],
        target_addr: NodeAddress { ip: 0, port: 0 },
    });
    assert_eq!(encode_message(&m).unwrap_err(), EncodeError::PayloadTooLarge);
}

#[test]
fn test_error_response() {
    for i in 0..100 {
        let bytes: Vec<u8> = rand::rng()
            .sample_iter(rand::distr::Alphanumeric)
            .take(i)
            .collect();
        let err = ErrorResponse::new(String::from_utf8(bytes).unwrap());
        let mut buf = vec![0; err.encoded_len()];
        let encoded_len = err.encode(&mut buf).unwrap();
        assert_eq!(encoded_len, err.encoded_len());
        let (decoded_len, decoded) = ErrorResponse::decode(&buf).unwrap();
        assert_eq!(decoded_len, encoded_len);
        assert_eq!(decoded, err);
    }
}

#[test]
fn test_error_response_exact_bytes() {
    let er = ErrorResponse::new("hi".to_string());
    assert_eq!(er.encoded_len(), 6);
    let mut buf = vec![0; 8];
    let n = er.encode(&mut buf).unwrap();
    assert_eq!(n, 6);
    // length prefix, message bytes, untouched tail
    assert_eq!(buf, vec![0, 0, 0, 2, b'h', b'i', 0, 0]);
    let (read, decoded) = ErrorResponse::decode(&buf).unwrap();
    assert_eq!(read, 6);
    assert_eq!(decoded.message(), "hi");
}

#[test]
fn test_error_response_errors() {
    let er = ErrorResponse::new("hello".to_string());
    let mut small = vec![0; 3];
    assert_eq!(er.encode(&mut small).unwrap_err(), ErrorResponseError::EncodeBufferTooSmall);
    assert_eq!(ErrorResponse::decode(&[0, 0]).unwrap_err(), ErrorResponseError::NotEnoughBytes);
    assert_eq!(
        ErrorResponse::decode(&[0, 0, 0, 9, 1]).unwrap_err(),
        ErrorResponseError::NotEnoughBytes
    );
    assert_eq!(
        ErrorResponse::decode(&[0, 0, 0, 1, 0xff]).unwrap_err(),
        ErrorResponseError::Utf8Error
    );
}

#[test]
fn test_error_response_format_matches_string_transform() {
    // the error-response framing is the length-prefixed string encoding
    let msg = "same wire format".to_string();
    let er = ErrorResponse::new(msg.clone());
    let mut ours = vec![0; er.encoded_len()];
    er.encode(&mut ours).unwrap();
    let mut theirs = vec![0; msg.encoded_len()];
    msg.encode(&mut theirs).unwrap();
    assert_eq!(ours, theirs);
    let (_, decoded) = String::decode(&ours).unwrap();
    assert_eq!(decoded, msg);
}
