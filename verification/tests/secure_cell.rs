use chronos::framing::APP_CELL_PAYLOAD_SIZE;
use chronos::secure_cell::{
    derive_link_key, ReceiveCellError, ReplayError, ReplayWindow, SecureCellError,
    SecureCellReceiver, SecureShardCell, SECURE_CELL_CIPHERTEXT_SIZE,
};

fn test_key() -> [u8; 32] {
    derive_link_key(&[7u8; 32], &[9u8; 16]).expect("derive")
}

#[test]
fn secure_cell_round_trips_fixed_size_bytes() {
    let key = test_key();
    let payload = b"authenticated CHRONOS payload";
    let cell = SecureShardCell::encrypt(&key, [1u8; 16], 42, 0xA0, payload).expect("encrypt");
    let bytes = cell.to_app_cell_bytes();
    assert_eq!(bytes.len(), APP_CELL_PAYLOAD_SIZE);

    let parsed = SecureShardCell::from_app_cell_bytes(&bytes).expect("parse");
    let decrypted = parsed.decrypt(&key).expect("decrypt");
    assert_eq!(decrypted, payload);
}

#[test]
fn secure_cell_detects_ciphertext_tampering() {
    let key = test_key();
    let mut cell = SecureShardCell::encrypt(&key, [1u8; 16], 43, 0, b"msg").expect("encrypt");
    cell.ciphertext[0] ^= 0x80;
    assert_eq!(
        cell.decrypt(&key),
        Err(SecureCellError::AuthenticationFailed)
    );
}

#[test]
fn secure_cell_detects_reserved_tampering() {
    let key = test_key();
    let mut cell = SecureShardCell::encrypt(&key, [1u8; 16], 46, 0, b"msg").expect("encrypt");
    cell.reserved[0] = 1;
    assert_eq!(
        cell.decrypt(&key),
        Err(SecureCellError::AuthenticationFailed)
    );
}

#[test]
fn secure_cell_detects_authenticated_header_tampering() {
    let key = test_key();
    let mut cell = SecureShardCell::encrypt(&key, [1u8; 16], 44, 0, b"msg").expect("encrypt");
    cell.flags ^= 0x01;
    assert_eq!(
        cell.decrypt(&key),
        Err(SecureCellError::AuthenticationFailed)
    );
}

#[test]
fn secure_cell_rejects_oversized_payload() {
    let key = test_key();
    let payload = vec![0u8; SECURE_CELL_CIPHERTEXT_SIZE + 1];
    assert!(matches!(
        SecureShardCell::encrypt(&key, [1u8; 16], 45, 0, &payload),
        Err(SecureCellError::PayloadTooLarge { .. })
    ));
}

#[test]
fn replay_window_accepts_out_of_order_once() {
    let mut replay = ReplayWindow::new(8).expect("window");
    for seq in [10, 12, 11, 9] {
        replay.observe(seq).expect("fresh sequence");
    }
    assert_eq!(replay.observe(11), Err(ReplayError::Duplicate { seq: 11 }));
    assert_eq!(
        replay.observe(3),
        Err(ReplayError::Stale {
            seq: 3,
            highest_seen: 12,
        })
    );
}

#[test]
fn receiver_authenticates_then_rejects_replay() {
    let key = test_key();
    let cell = SecureShardCell::encrypt(&key, [2u8; 16], 77, 0, b"hello").expect("encrypt");
    let mut receiver = SecureCellReceiver::new(key, 32).expect("receiver");
    assert_eq!(receiver.open(&cell).expect("first open"), b"hello");
    assert_eq!(
        receiver.open(&cell),
        Err(ReceiveCellError::Replay(ReplayError::Duplicate { seq: 77 }))
    );
}

#[test]
fn replay_window_sizes_and_far_jumps() {
    assert!(matches!(ReplayWindow::new(0), Err(ReplayError::InvalidWindowSize(0))));
    assert!(matches!(ReplayWindow::new(129), Err(ReplayError::InvalidWindowSize(129))));
    let mut w = ReplayWindow::new(128).expect("window");
    w.observe(5).expect("first");
    w.observe(1000).expect("far jump");
    assert_eq!(w.observe(5), Err(ReplayError::Stale { seq: 5, highest_seen: 1000 }));
    w.observe(1000 - 127).expect("edge of window");
    assert_eq!(w.observe(1000 - 127), Err(ReplayError::Duplicate { seq: 873 }));
    assert_eq!(
        w.observe(1000 - 128),
        Err(ReplayError::Stale { seq: 872, highest_seen: 1000 })
    );
    assert_eq!(w.observe(1000), Err(ReplayError::Duplicate { seq: 1000 }));
}

#[test]
fn link_key_and_cell_header_checks() {
    assert_eq!(derive_link_key(&[1u8; 31], &[0u8; 16]), Err(SecureCellError::InvalidKeyMaterial));
    let a = derive_link_key(&[1u8; 32], &[0u8; 16]).expect("a");
    let b = derive_link_key(&[1u8; 32], &[1u8; 16]).expect("b");
    assert_ne!(a, b);
    let cell = SecureShardCell::encrypt(&a, [3u8; 16], 0x0102_0304_0506_0708, 7, b"abc").expect("cell");
    assert_eq!(cell.sequence(), 0x0102_0304_0506_0708);
    assert_eq!(cell.payload_len(), 3);
    assert_eq!(cell.decrypt(&b), Err(SecureCellError::AuthenticationFailed));
    let mut bytes = cell.to_app_cell_bytes();
    assert_eq!(&bytes[..4], b"CHR7");
    bytes[4] = 2;
    assert_eq!(
        SecureShardCell::from_app_cell_bytes(&bytes),
        Err(SecureCellError::UnsupportedVersion(2))
    );
    bytes[4] = 1;
    bytes[6] = 0x04;
    bytes[7] = 0x00;
    assert_eq!(
        SecureShardCell::from_app_cell_bytes(&bytes),
        Err(SecureCellError::InvalidPayloadLength(1024))
    );
    let full = SecureShardCell::encrypt(&a, [3u8; 16], 1, 0, &[0xEEu8; 944]).expect("full");
    assert_eq!(full.decrypt(&a).expect("open"), vec![0xEEu8; 944]);
}

#[test]
fn app_cell_bytes_with_wrong_magic_are_refused_first() {
    let mut bytes = [0u8; 1200];
    bytes[0..4].copy_from_slice(b"CHR8");
    bytes[4] = 9;
    bytes[6] = 0xff;
    assert_eq!(SecureShardCell::from_app_cell_bytes(&bytes), Err(SecureCellError::InvalidMagic));
    bytes[0..4].copy_from_slice(b"CHR7");
    assert_eq!(
        SecureShardCell::from_app_cell_bytes(&bytes),
        Err(SecureCellError::UnsupportedVersion(9))
    );
    bytes[4] = 1;
    bytes[6] = 0x03;
    bytes[7] = 0xb1;
    assert_eq!(
        SecureShardCell::from_app_cell_bytes(&bytes),
        Err(SecureCellError::InvalidPayloadLength(945))
    );
    bytes[7] = 0xb0;
    let cell = SecureShardCell::from_app_cell_bytes(&bytes).expect("header ok");
    assert_eq!(cell.payload_len(), 944);
    assert_eq!(cell.to_app_cell_bytes(), bytes);
}
