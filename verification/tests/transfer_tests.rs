use zap::chunks::{join_chunks, split_chunks};
use zap::crypto::{checksum, Cipher, KeyExchange};
use zap::protocol::{must_seal, Message};
use zap::transfer::{
    FileMetadata, ReceiverAction, ReceiverPhase, ReceiverSession, SenderPhase, SenderSession,
    TransferError,
};

fn meta(size: u64, data: &[u8]) -> FileMetadata {
    FileMetadata {
        name: "file.bin".to_string(),
        size,
        is_directory: false,
        checksum: checksum(data),
    }
}

fn reseal(cipher_out: &Cipher, cipher_in: &Cipher, m: Message) -> Message {
    assert!(must_seal(&m));
    let sealed = cipher_out.encrypt(&m.to_bytes()).unwrap();
    let opened = cipher_in.decrypt(&sealed).unwrap();
    Message::from_bytes(&opened).unwrap()
}

// runs the wire-level key exchange between two sessions that confirmed the
// handshake, yielding each side's channel cipher
fn exchange_keys(s: &mut SenderSession, r: &mut ReceiverSession, code: &str) -> (Cipher, Cipher) {
    let kx_s = KeyExchange::new_sender(code);
    let kx_r = KeyExchange::new_receiver(code);
    let msg_s = s.key_exchange_message(kx_s.outbound_message());
    let msg_r = r.key_exchange_message(kx_r.outbound_message());
    assert!(!must_seal(&msg_s));
    let payload_r = s
        .on_key_exchange_message(Message::from_bytes(&msg_r.to_bytes()).unwrap())
        .unwrap();
    let payload_s = r
        .on_key_exchange_message(Message::from_bytes(&msg_s.to_bytes()).unwrap())
        .unwrap();
    let secret_s = kx_s.finish(&payload_r).unwrap();
    let secret_r = kx_r.finish(&payload_s).unwrap();
    assert_eq!(secret_s, secret_r);
    (
        Cipher::new(&secret_s).unwrap(),
        Cipher::new(&secret_r).unwrap(),
    )
}

// steps both sessions over the key-exchange phase with opaque payloads, for
// tests that exercise the transfer logic alone
fn skip_key_exchange(s: &mut SenderSession, r: &mut ReceiverSession) {
    let msg_s = s.key_exchange_message(vec![0x41]);
    let msg_r = r.key_exchange_message(vec![0x42]);
    s.on_key_exchange_message(msg_r).unwrap();
    r.on_key_exchange_message(msg_s).unwrap();
}

#[test]
fn happy_path_ten_byte_file() {
    let code = "alpha-bravo-charlie";
    let data: Vec<u8> = (0u8..10).collect();

    let mut s = SenderSession::new(meta(10, &data), 16);
    let mut r = ReceiverSession::new();

    let hello_s = s.start();
    let hello_r = r.start();
    r.on_hello_message(Message::from_bytes(&hello_s.to_bytes()).unwrap())
        .unwrap();
    s.on_hello_message(Message::from_bytes(&hello_r.to_bytes()).unwrap())
        .unwrap();

    let (sender_cipher, receiver_cipher) = exchange_keys(&mut s, &mut r, code);

    let metadata = s.metadata_message();
    r.on_metadata_message(reseal(&sender_cipher, &receiver_cipher, metadata))
        .unwrap();
    assert_eq!(r.size, 10);

    let ack = r.ack_message();
    s.on_ack_message(reseal(&receiver_cipher, &sender_cipher, ack))
        .unwrap();

    let chunk = s.chunk_message(data.clone());
    match r
        .on_transfer_message(reseal(&sender_cipher, &receiver_cipher, chunk))
        .unwrap()
    {
        ReceiverAction::Write(bytes) => assert_eq!(bytes, data),
        _ => panic!("expected a write"),
    }
    assert_eq!(r.bytes_written, 10);

    let complete = s.complete_message();
    match r
        .on_transfer_message(reseal(&sender_cipher, &receiver_cipher, complete))
        .unwrap()
    {
        ReceiverAction::Finished => {}
        _ => panic!("expected completion"),
    }
    assert_eq!(s.phase, SenderPhase::Completed);
    assert_eq!(r.phase, ReceiverPhase::Completed);
}

#[test]
fn version_mismatch_is_fatal_on_both_sides() {
    let mut s = SenderSession::new(meta(10, b"0123456789"), 16);
    let _ = s.start();
    let err = s
        .on_hello_message(Message::Hello { version: 2 })
        .unwrap_err();
    assert!(matches!(
        err,
        TransferError::ProtocolVersionMismatch { ours: 1, theirs: 2 }
    ));
    assert_eq!(s.phase, SenderPhase::Failed);

    let mut r = ReceiverSession::new();
    let _ = r.start();
    let err = r
        .on_hello_message(Message::Hello { version: 2 })
        .unwrap_err();
    assert!(matches!(
        err,
        TransferError::ProtocolVersionMismatch { ours: 1, theirs: 2 }
    ));
    assert_eq!(r.phase, ReceiverPhase::Failed);
}

#[test]
fn resume_yields_byte_identical_file() {
    let source: Vec<u8> = (0u8..33).collect();
    let chunk_size: u64 = 5;
    let chunks = split_chunks(&source, chunk_size as usize);
    assert_eq!(chunks.len(), 7);

    // the receiver already wrote chunks 0 through 4 in a previous session
    let mut written: Vec<u8> = source[..25].to_vec();

    let mut s = SenderSession::new(meta(33, &source), chunk_size);
    let mut r = ReceiverSession::new();
    let hello_s = s.start();
    let hello_r = r.start();
    r.on_hello_message(hello_s).unwrap();
    s.on_hello_message(hello_r).unwrap();
    skip_key_exchange(&mut s, &mut r);
    let metadata = s.metadata_message();
    r.on_metadata_message(metadata).unwrap();

    let resume = r.resume_message(5, chunk_size);
    s.on_ack_message(resume).unwrap();
    assert_eq!(s.resume_offset(), 25);

    for chunk in &chunks[5..] {
        let msg = s.chunk_message(chunk.clone());
        match r.on_transfer_message(msg).unwrap() {
            ReceiverAction::Write(bytes) => written.extend_from_slice(&bytes),
            _ => panic!("expected a write"),
        }
    }
    let complete = s.complete_message();
    assert!(matches!(
        r.on_transfer_message(complete).unwrap(),
        ReceiverAction::Finished
    ));
    assert_eq!(written, source);
}

#[test]
fn chunks_split_and_join_reassemble() {
    let data = b"Hello, Zap! This is a test file for chunking.".to_vec();
    let chunks = split_chunks(&data, 8);
    assert!(chunks[..chunks.len() - 1].iter().all(|c| c.len() == 8));
    assert_eq!(join_chunks(&chunks), data);

    let empty: Vec<u8> = Vec::new();
    assert_eq!(split_chunks(&empty, 8).len(), 0);
    assert_eq!(join_chunks(&Vec::new()), empty);
}

#[test]
fn complete_with_missing_bytes_is_incomplete() {
    let mut s = SenderSession::new(meta(10, b"0123456789"), 4);
    let mut r = ReceiverSession::new();
    let hello_s = s.start();
    let hello_r = r.start();
    r.on_hello_message(hello_s).unwrap();
    s.on_hello_message(hello_r).unwrap();
    skip_key_exchange(&mut s, &mut r);
    r.on_metadata_message(s.metadata_message()).unwrap();
    let ack = r.ack_message();
    s.on_ack_message(ack).unwrap();

    // only one of three chunks arrives before a forged completion
    let first = s.chunk_message(b"0123".to_vec());
    r.on_transfer_message(first).unwrap();
    let err = r.on_transfer_message(Message::Complete).unwrap_err();
    assert!(matches!(
        err,
        TransferError::TransferIncomplete { expected: 10, written: 4 }
    ));
    assert_eq!(r.phase, ReceiverPhase::Failed);
}

#[test]
fn out_of_order_chunk_is_refused() {
    let mut r = ReceiverSession::new();
    let _ = r.start();
    r.on_hello_message(Message::Hello { version: 1 }).unwrap();
    let _ = r.key_exchange_message(vec![0x42]);
    r.on_key_exchange_message(Message::KeyExchange { data: vec![0x41] })
        .unwrap();
    r.on_metadata_message(Message::Metadata {
        filename: "f".to_string(),
        size: 10,
        is_directory: false,
        checksum: String::new(),
    })
    .unwrap();
    let _ = r.ack_message();
    let err = r
        .on_transfer_message(Message::Chunk { index: 3, data: vec![1] })
        .unwrap_err();
    assert!(matches!(err, TransferError::UnexpectedMessage));
}

#[test]
fn peer_error_aborts_with_reason() {
    let mut r = ReceiverSession::new();
    let _ = r.start();
    r.on_hello_message(Message::Hello { version: 1 }).unwrap();
    let _ = r.key_exchange_message(vec![0x42]);
    r.on_key_exchange_message(Message::KeyExchange { data: vec![0x41] })
        .unwrap();
    r.on_metadata_message(Message::Metadata {
        filename: "f".to_string(),
        size: 1,
        is_directory: false,
        checksum: String::new(),
    })
    .unwrap();
    let _ = r.ack_message();
    let err = r
        .on_transfer_message(Message::Error { message: "disk on fire".to_string() })
        .unwrap_err();
    match err {
        TransferError::PeerError { message } => assert_eq!(message, "disk on fire"),
        _ => panic!("expected the peer's error"),
    }
    let e = TransferError::PeerError { message: "disk on fire".to_string() };
    assert_eq!(e.describe(), "peer error: disk on fire");
}

#[test]
fn oversized_chunk_is_incomplete() {
    let mut r = ReceiverSession::new();
    let _ = r.start();
    r.on_hello_message(Message::Hello { version: 1 }).unwrap();
    let _ = r.key_exchange_message(vec![0x42]);
    r.on_key_exchange_message(Message::KeyExchange { data: vec![0x41] })
        .unwrap();
    r.on_metadata_message(Message::Metadata {
        filename: "f".to_string(),
        size: 3,
        is_directory: false,
        checksum: String::new(),
    })
    .unwrap();
    let _ = r.ack_message();
    let err = r
        .on_transfer_message(Message::Chunk { index: 0, data: vec![0; 4] })
        .unwrap_err();
    assert!(matches!(
        err,
        TransferError::TransferIncomplete { expected: 3, written: 0 }
    ));
}

#[test]
fn wrong_message_fails_key_exchange() {
    let mut s = SenderSession::new(meta(4, b"abcd"), 4);
    let _ = s.start();
    s.on_hello_message(Message::Hello { version: 1 }).unwrap();
    let _ = s.key_exchange_message(vec![0x41]);
    let err = s.on_key_exchange_message(Message::Ack).unwrap_err();
    assert!(matches!(err, TransferError::KeyExchangeFailed));
    assert_eq!(s.phase, SenderPhase::Failed);
}

#[test]
fn gate_messages_are_sealed_hello_and_exchange_are_not() {
    assert!(!must_seal(&Message::Hello { version: 1 }));
    assert!(!must_seal(&Message::KeyExchange { data: vec![] }));
    assert!(must_seal(&Message::Ack));
    assert!(must_seal(&Message::Resume { from_chunk: 3 }));
    assert!(must_seal(&Message::Complete));
    assert!(must_seal(&Message::Chunk { index: 0, data: vec![] }));
}
