use zap::framing::{check_frame_len, frame_header, parse_frame_len, FrameError, MAX_FRAME_LEN};
use zap::relay_client::{
    client_handshake_step, client_receive_step, registration_message, ClientEvent,
    ClientRecvOutcome, HandshakeOutcome,
};
use zap::relay_protocol::{hash_code, RelayMessage, Role};

#[test]
fn header_roundtrip() {
    for len in [0usize, 1, 255, 256, 65536, MAX_FRAME_LEN as usize] {
        let h = frame_header(len).unwrap();
        assert_eq!(h.len(), 4);
        assert_eq!(parse_frame_len(&h) as usize, len);
    }
    assert_eq!(frame_header(0x01020304).unwrap(), vec![1, 2, 3, 4]);
}

#[test]
fn oversized_frame_is_fatal() {
    assert_eq!(check_frame_len(MAX_FRAME_LEN), Ok(MAX_FRAME_LEN as usize));
    assert_eq!(check_frame_len(MAX_FRAME_LEN + 1), Err(FrameError::TooLarge));
}

#[test]
fn registration_carries_hash_not_code() {
    let m = registration_message("alpha-bravo-charlie", Role::Sender);
    match m {
        RelayMessage::Register { role, code_hash } => {
            assert_eq!(role, Role::Sender);
            assert_eq!(code_hash, hash_code("alpha-bravo-charlie"));
            assert_ne!(code_hash, "alpha-bravo-charlie");
        }
        _ => panic!("expected a registration"),
    }
}

#[test]
fn client_handshake_interpretation() {
    assert!(matches!(
        client_handshake_step(RelayMessage::Matched),
        HandshakeOutcome::Matched
    ));
    match client_handshake_step(RelayMessage::Error { message: "full".to_string() }) {
        HandshakeOutcome::Refused { message } => assert_eq!(message, "full"),
        _ => panic!("expected a refusal"),
    }
    assert!(matches!(
        client_handshake_step(RelayMessage::Pong),
        HandshakeOutcome::KeepWaiting
    ));
}

#[test]
fn client_receive_interpretation() {
    match client_receive_step(ClientEvent::Binary(vec![9, 8, 7])) {
        ClientRecvOutcome::Deliver(d) => assert_eq!(d, vec![9, 8, 7]),
        _ => panic!("expected delivery"),
    }
    match client_receive_step(ClientEvent::Text(RelayMessage::Ping.to_json())) {
        ClientRecvOutcome::Reply(RelayMessage::Pong) => {}
        _ => panic!("expected a pong"),
    }
    assert!(matches!(
        client_receive_step(ClientEvent::Text(
            RelayMessage::Error { message: "gone".to_string() }.to_json()
        )),
        ClientRecvOutcome::Fail(_)
    ));
    assert!(matches!(
        client_receive_step(ClientEvent::Text("not json".to_string())),
        ClientRecvOutcome::KeepReceiving
    ));
    assert!(matches!(
        client_receive_step(ClientEvent::Closed),
        ClientRecvOutcome::Fail(_)
    ));
}
