use zap::protocol::Message;
use zap::relay_protocol::{RelayMessage, Role};

fn roundtrip(m: &Message) -> Message {
    let bytes = m.to_bytes();
    Message::from_bytes(&bytes).unwrap()
}

#[test]
fn message_roundtrip_hello() {
    match roundtrip(&Message::Hello { version: 1 }) {
        Message::Hello { version } => assert_eq!(version, 1),
        _ => panic!("wrong variant"),
    }
}

#[test]
fn message_roundtrip_key_exchange() {
    let data = vec![0u8, 255, 7, 42];
    match roundtrip(&Message::KeyExchange { data: data.clone() }) {
        Message::KeyExchange { data: d } => assert_eq!(d, data),
        _ => panic!("wrong variant"),
    }
}

#[test]
fn message_roundtrip_metadata() {
    let m = Message::Metadata {
        filename: String::from("héllo wörld.txt"),
        size: 123456789,
        is_directory: false,
        checksum: String::from("abc123"),
    };
    match roundtrip(&m) {
        Message::Metadata { filename, size, is_directory, checksum } => {
            assert_eq!(filename, "héllo wörld.txt");
            assert_eq!(size, 123456789);
            assert!(!is_directory);
            assert_eq!(checksum, "abc123");
        }
        _ => panic!("wrong variant"),
    }
}

#[test]
fn message_roundtrip_chunk() {
    let data: Vec<u8> = (0..200).map(|i| (i % 256) as u8).collect();
    match roundtrip(&Message::Chunk { index: 7, data: data.clone() }) {
        Message::Chunk { index, data: d } => {
            assert_eq!(index, 7);
            assert_eq!(d, data);
        }
        _ => panic!("wrong variant"),
    }
}

#[test]
fn message_roundtrip_resume_complete_error_ack() {
    match roundtrip(&Message::Resume { from_chunk: 5 }) {
        Message::Resume { from_chunk } => assert_eq!(from_chunk, 5),
        _ => panic!("wrong variant"),
    }
    assert!(matches!(roundtrip(&Message::Complete), Message::Complete));
    match roundtrip(&Message::Error { message: String::from("boom") }) {
        Message::Error { message } => assert_eq!(message, "boom"),
        _ => panic!("wrong variant"),
    }
    assert!(matches!(roundtrip(&Message::Ack), Message::Ack));
}

#[test]
fn message_decode_rejects_malformed() {
    assert!(Message::from_bytes(&[]).is_err());
    assert!(Message::from_bytes(&[99]).is_err());
    assert!(Message::from_bytes(&[0]).is_err());
    assert!(Message::from_bytes(&[0, 1, 2]).is_err());
    // a truncated length-prefixed field
    assert!(Message::from_bytes(&[1, 9, 0, 0, 0, 0, 0, 0, 0, 1]).is_err());
    // trailing bytes after a complete message
    assert!(Message::from_bytes(&[5, 0]).is_err());
}

#[test]
fn test_message_serialization() {
    let msg = RelayMessage::Register {
        role: Role::Sender,
        code_hash: "test123".to_string(),
    };

    let json = msg.to_json();
    let deserialized = RelayMessage::from_json(&json).unwrap();

    match deserialized {
        RelayMessage::Register { role, code_hash } => {
            assert_eq!(role, Role::Sender);
            assert_eq!(code_hash, "test123");
        }
        _ => panic!("Wrong message type"),
    }
}

#[test]
fn relay_json_exact_text() {
    assert_eq!(RelayMessage::Matched.to_json(), "{\"type\":\"matched\"}");
    assert_eq!(RelayMessage::Ping.to_json(), "{\"type\":\"ping\"}");
    assert_eq!(RelayMessage::Pong.to_json(), "{\"type\":\"pong\"}");
    let reg = RelayMessage::Register {
        role: Role::Receiver,
        code_hash: "abc".to_string(),
    };
    assert_eq!(
        reg.to_json(),
        "{\"type\":\"register\",\"role\":\"receiver\",\"code_hash\":\"abc\"}"
    );
}

#[test]
fn relay_json_roundtrip_all_variants() {
    let msgs = vec![
        RelayMessage::Register { role: Role::Receiver, code_hash: "deadbeef".to_string() },
        RelayMessage::Matched,
        RelayMessage::Error { message: "a \"quoted\" \\ back\nslash".to_string() },
        RelayMessage::Ping,
        RelayMessage::Pong,
    ];
    for m in msgs {
        let json = m.to_json();
        let back = RelayMessage::from_json(&json).unwrap();
        assert_eq!(back.to_json(), json);
    }
}

#[test]
fn relay_json_rejects_malformed() {
    assert!(RelayMessage::from_json("").is_err());
    assert!(RelayMessage::from_json("{}").is_err());
    assert!(RelayMessage::from_json("{\"type\":\"matched\"} ").is_err());
    assert!(RelayMessage::from_json("{\"type\":\"register\",\"role\":\"pigeon\",\"code_hash\":\"x\"}").is_err());
    assert!(RelayMessage::from_json("{\"type\":\"error\",\"message\":\"unterminated").is_err());
}
