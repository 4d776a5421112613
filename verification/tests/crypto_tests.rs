use zap::crypto::{checksum, Cipher, KeyExchange};
use zap::relay_protocol::hash_code;

#[test]
fn test_encrypt_decrypt() {
    let cipher = Cipher::from_password("test-password").unwrap();
    let plaintext = b"Hello, Zap!";

    let encrypted = cipher.encrypt(plaintext).unwrap();
    let decrypted = cipher.decrypt(&encrypted).unwrap();

    assert_eq!(plaintext, decrypted.as_slice());
}

#[test]
fn seal_open_roundtrip_empty_and_long() {
    let cipher = Cipher::from_password("another-code").unwrap();
    for pt in [Vec::new(), vec![0u8; 1], (0..1000u32).map(|i| (i % 256) as u8).collect()] {
        let frame = cipher.encrypt(&pt).unwrap();
        assert_eq!(frame.len(), pt.len() + 28);
        assert_eq!(cipher.decrypt(&frame).unwrap(), pt);
    }
}

#[test]
fn open_fails_on_any_single_bit_flip() {
    let cipher = Cipher::from_password("bits").unwrap();
    let pt = b"attack at dawn";
    let frame = cipher.encrypt(pt).unwrap();
    for byte in 0..frame.len() {
        for bit in 0..8 {
            let mut corrupt = frame.clone();
            corrupt[byte] ^= 1 << bit;
            assert!(cipher.decrypt(&corrupt).is_err());
        }
    }
}

#[test]
fn open_fails_on_truncation_and_wrong_key() {
    let cipher = Cipher::from_password("right-code").unwrap();
    let frame = cipher.encrypt(b"payload").unwrap();
    assert!(cipher.decrypt(&frame[..frame.len() - 1]).is_err());
    assert!(cipher.decrypt(&frame[..5]).is_err());
    let other = Cipher::from_password("wrong-code").unwrap();
    assert!(other.decrypt(&frame).is_err());
}

#[test]
fn key_exchange_same_code_converges() {
    let sender = KeyExchange::new_sender("alpha-bravo-charlie");
    let receiver = KeyExchange::new_receiver("alpha-bravo-charlie");
    let to_receiver = sender.outbound_message();
    let to_sender = receiver.outbound_message();
    let k1 = sender.finish(&to_sender).unwrap();
    let k2 = receiver.finish(&to_receiver).unwrap();
    assert_eq!(k1, k2);
    assert_eq!(k1.len(), 32);
}

#[test]
fn key_exchange_different_codes_diverge() {
    let sender = KeyExchange::new_sender("alpha-bravo-charlie");
    let receiver = KeyExchange::new_receiver("delta-echo-foxtrot");
    let to_receiver = sender.outbound_message();
    let to_sender = receiver.outbound_message();
    let k1 = sender.finish(&to_sender).unwrap();
    let k2 = receiver.finish(&to_receiver).unwrap();
    assert_ne!(k1, k2);
}

#[test]
fn key_exchange_rejects_malformed_payload() {
    let sender = KeyExchange::new_sender("some-code");
    assert!(sender.finish(b"short").is_err());
}

#[test]
fn checksum_known_value() {
    assert_eq!(
        checksum(b"abc"),
        "ba7816bf8f01cfea414140de5dae2223b00361a396177a9cb410ff61f20015ad"
    );
}

#[test]
fn test_hash_code() {
    let code = "alpha-bravo-charlie";
    let hash1 = hash_code(code);
    let hash2 = hash_code(code);
    assert_eq!(hash1, hash2);

    let different_hash = hash_code("different-code");
    assert_ne!(hash1, different_hash);
}

#[test]
fn hash_code_is_hex_of_fixed_length() {
    let h = hash_code("alpha-bravo-charlie");
    assert_eq!(h.len(), 64);
    assert!(h.chars().all(|c| c.is_ascii_hexdigit()));
    // the digest must actually depend on the input, not echo it
    assert_ne!(h, "alpha-bravo-charlie");
}
