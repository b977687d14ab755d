use chronos::secure_cell::derive_link_key;
use chronos::shard_stream::{
    SecureShardBlockCodec, ShardStreamError, SHARD_STREAM_K, SHARD_STREAM_N,
};

fn key() -> [u8; 32] {
    derive_link_key(&[0x42u8; 32], &[0x24u8; 16]).expect("key")
}

#[test]
fn shard_stream_recovers_from_any_ten_valid_cells() {
    let codec = SecureShardBlockCodec::new();
    let message = (0..4096).map(|i| (i % 251) as u8).collect::<Vec<_>>();
    let cells = codec
        .encode_message(&key(), [0xAA; 16], 7, 1000, &message)
        .expect("encode");
    assert_eq!(cells.len(), SHARD_STREAM_N);

    let subset = vec![
        cells[0], cells[1], cells[3], cells[4], cells[6], cells[8], cells[10], cells[12],
        cells[14], cells[15],
    ];
    let recovered = codec.decode_message(key(), &subset).expect("decode");
    assert_eq!(recovered, message);
}

#[test]
fn shard_stream_skips_tampered_cells_when_enough_valid_remain() {
    let codec = SecureShardBlockCodec::new();
    let message = b"resilient authenticated erasure block".repeat(64);
    let mut cells = codec
        .encode_message(&key(), [0xBB; 16], 8, 2000, &message)
        .expect("encode");
    cells[2].ciphertext[0] ^= 0x55;
    cells[5].auth_tag[0] ^= 0x55;

    let recovered = codec.decode_message(key(), &cells).expect("decode");
    assert_eq!(recovered, message);
}

#[test]
fn shard_stream_fails_when_too_few_valid_cells_remain() {
    let codec = SecureShardBlockCodec::new();
    let message = b"too few shards".repeat(32);
    let cells = codec
        .encode_message(&key(), [0xCC; 16], 9, 3000, &message)
        .expect("encode");
    let err = codec
        .decode_message(key(), &cells[..9])
        .expect_err("must fail");
    assert_eq!(
        err,
        ShardStreamError::InsufficientValidShards {
            got: 9,
            need: SHARD_STREAM_K,
        }
    );
}

#[test]
fn shard_stream_rejects_oversized_single_block_message() {
    let codec = SecureShardBlockCodec::new();
    let msg = vec![0u8; codec.max_message_bytes() + 1];
    assert!(matches!(
        codec.encode_message(&key(), [0xDD; 16], 10, 4000, &msg),
        Err(ShardStreamError::MessageTooLarge { .. })
    ));
}

#[test]
fn shard_stream_flags_parity_cells_and_rejects_duplicates() {
    let codec = SecureShardBlockCodec::default();
    assert_eq!(codec.max_message_bytes(), 9200);
    let message = b"short".to_vec();
    let cells = codec
        .encode_message(&key(), [0x11; 16], 1, 0, &message)
        .expect("encode");
    assert_eq!(cells[3].flags, 3);
    assert_eq!(cells[12].flags, 0x80 | 12);
    assert_eq!(cells[12].sequence(), 12);
    let doubled = vec![cells[4], cells[4]];
    assert_eq!(
        codec.decode_message(key(), &doubled),
        Err(ShardStreamError::InsufficientValidShards { got: 1, need: SHARD_STREAM_K })
    );
    let empty = codec.encode_message(&key(), [0x11; 16], 2, 50, b"").expect("encode");
    let subset: Vec<_> = cells_without_first(&empty);
    assert_eq!(codec.decode_message(key(), &subset).expect("decode"), Vec::<u8>::new());
}

fn cells_without_first(cells: &[chronos::secure_cell::SecureShardCell]) -> Vec<chronos::secure_cell::SecureShardCell> {
    cells[1..11].to_vec()
}
