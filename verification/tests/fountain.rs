use chronos::fountain::{
    fountain_encode, join_payload, progressive_recovery_count, split_payload, try_decode_payload,
    FountainConfig, FountainDecoder, FountainSymbol,
};

#[test]
fn systematic_round_trip() {
    let payload = b"hello chronos fountain fec prototype!!".to_vec();
    let k = 8;
    let source = split_payload(&payload, k).unwrap();
    let symbol_len = source[0].len();
    let symbols = fountain_encode(&source, 4).unwrap();
    assert_eq!(source.len(), k);
    assert_eq!(symbols.len(), k + 4);
    let recovered = try_decode_payload(&symbols[..k], k, symbol_len, payload.len()).unwrap();
    assert_eq!(recovered, payload);
}

#[test]
fn recovers_with_loss_using_repair() {
    let payload: Vec<u8> = (0..200u8).collect();
    let k = 10;
    let source = split_payload(&payload, k).unwrap();
    let symbol_len = source[0].len();
    let symbols = fountain_encode(&source, 12).unwrap();
    let mut subset = Vec::new();
    for s in &symbols {
        if s.esi == 1 || s.esi == 4 || s.esi == 7 {
            continue;
        }
        subset.push(s.clone());
    }
    let recovered = try_decode_payload(&subset, k, symbol_len, payload.len()).unwrap();
    assert_eq!(recovered, payload);
}

#[test]
fn progressive_count_at_least_k() {
    let payload = vec![7u8; 64];
    let n = progressive_recovery_count(&payload, 8, 16).unwrap();
    assert!(n >= 8);
    assert!(n <= 8 + 16);
}

#[test]
fn overhead_ratio_matches() {
    let source = split_payload(b"abc", 4).unwrap();
    let symbols = fountain_encode(&source, 2).unwrap();
    let ratio = symbols.len() as f64 / 4.0;
    assert!((ratio - 1.5).abs() < 1e-9);
}

#[test]
fn progressive_count_is_exactly_k() {
    let payload: Vec<u8> = (0..100u8).collect();
    assert_eq!(progressive_recovery_count(&payload, 10, 5).unwrap(), 10);
    assert_eq!(progressive_recovery_count(&payload, 1, 0).unwrap(), 1);
}

#[test]
fn progressive_count_reports_bad_block() {
    assert_eq!(progressive_recovery_count(b"x", 0, 3).unwrap_err(), "k must be > 0");
    assert_eq!(
        progressive_recovery_count(b"x", 300, 0).unwrap_err(),
        "k out of supported range 1..=256, got 300"
    );
}

#[test]
fn config_rejects_out_of_range() {
    assert_eq!(
        FountainConfig::new(0, 10).unwrap_err(),
        "k out of supported range 1..=256, got 0"
    );
    assert_eq!(
        FountainConfig::new(257, 10).unwrap_err(),
        "k out of supported range 1..=256, got 257"
    );
    assert_eq!(
        FountainConfig::new(4, 4097).unwrap_err(),
        "symbol_len out of supported range 1..=4096, got 4097"
    );
    let c = FountainConfig::new(256, 4096).unwrap();
    assert_eq!(c.k, 256);
    assert_eq!(c.symbol_len, 4096);
}

#[test]
fn split_pads_last_symbol_with_zeros() {
    let s = split_payload(b"abcdefg", 3).unwrap();
    assert_eq!(s, vec![b"abc".to_vec(), b"def".to_vec(), vec![b'g', 0, 0]]);
    let empty = split_payload(b"", 2).unwrap();
    assert_eq!(empty, vec![vec![0u8], vec![0u8]]);
    assert_eq!(split_payload(b"abc", 0).unwrap_err(), "k must be > 0");
}

#[test]
fn join_truncates_or_reports_short_input() {
    let joined = join_payload(&[b"ab".to_vec(), b"cd".to_vec()], 3).unwrap();
    assert_eq!(joined, b"abc".to_vec());
    assert_eq!(
        join_payload(&[b"ab".to_vec()], 5).unwrap_err(),
        "joined length 2 < expected 5"
    );
}

#[test]
fn encode_rejects_bad_source() {
    let empty: Vec<Vec<u8>> = Vec::new();
    assert_eq!(fountain_encode(&empty, 1).unwrap_err(), "need at least one source symbol");
    let uneven = vec![vec![1u8, 2], vec![3u8]];
    assert_eq!(
        fountain_encode(&uneven, 1).unwrap_err(),
        "symbol 1 length 1 != expected 2"
    );
}

#[test]
fn repair_symbol_is_xor_of_its_neighbors() {
    let source = vec![vec![1u8, 2], vec![4u8, 8]];
    let symbols = fountain_encode(&source, 3).unwrap();
    assert_eq!(symbols[0], FountainSymbol { esi: 0, data: vec![1, 2] });
    assert_eq!(symbols[1], FountainSymbol { esi: 1, data: vec![4, 8] });
    for s in &symbols[2..] {
        // with two source symbols every repair symbol has degree 2
        assert_eq!(s.data, vec![5u8, 10]);
    }
    assert_eq!(symbols[2].esi, 2);
    assert_eq!(symbols[4].esi, 4);
}

#[test]
fn decoder_reports_length_and_incomplete() {
    let mut dec = FountainDecoder::new(2, 3).unwrap();
    let bad = FountainSymbol { esi: 0, data: vec![1, 2] };
    assert_eq!(dec.ingest(&bad).unwrap_err(), "symbol length 2 != 3");
    assert_eq!(dec.recovered_count(), 0);
    let good = FountainSymbol { esi: 1, data: vec![1, 2, 3] };
    assert_eq!(dec.ingest(&good).unwrap(), false);
    assert_eq!(dec.recovered_count(), 1);
    assert!(!dec.is_complete());
    assert_eq!(dec.take_recovered().unwrap_err(), "incomplete: 1/2 symbols");
}

#[test]
fn decoder_recovers_through_repair() {
    let source = vec![vec![1u8, 2], vec![4u8, 8]];
    let symbols = fountain_encode(&source, 1).unwrap();
    let mut dec = FountainDecoder::new(2, 2).unwrap();
    assert_eq!(dec.ingest(&symbols[2]).unwrap(), false);
    assert_eq!(dec.recovered_count(), 0);
    assert_eq!(dec.ingest(&symbols[1]).unwrap(), true);
    assert_eq!(dec.take_recovered().unwrap(), source);
}

#[test]
fn decoder_new_rejects_bad_config() {
    assert_eq!(
        FountainDecoder::new(0, 4).unwrap_err(),
        "k out of supported range 1..=256, got 0"
    );
    assert_eq!(
        try_decode_payload(&[], 3, 0, 1).unwrap_err(),
        "symbol_len out of supported range 1..=4096, got 0"
    );
}

#[test]
fn ingest_reports_completion_only_once() {
    let source = vec![vec![1u8, 2], vec![4u8, 8]];
    let symbols = fountain_encode(&source, 1).unwrap();
    let mut dec = FountainDecoder::new(2, 2).unwrap();
    assert_eq!(dec.ingest(&symbols[0]).unwrap(), false);
    assert_eq!(dec.ingest(&symbols[1]).unwrap(), true);
    assert!(dec.is_complete());
    assert_eq!(dec.ingest(&symbols[2]).unwrap(), false);
    assert_eq!(dec.ingest(&symbols[0]).unwrap(), false);
    assert_eq!(dec.take_recovered().unwrap(), source);
}

#[test]
fn decoder_accepts_every_symbol_of_the_right_length() {
    let mut dec = FountainDecoder::new(2, 2).unwrap();
    assert_eq!(dec.ingest(&FountainSymbol { esi: 0, data: vec![1, 2] }).unwrap(), false);
    assert_eq!(dec.ingest(&FountainSymbol { esi: 1, data: vec![4, 8] }).unwrap(), true);
    // symbols that disagree with what was recovered change nothing
    assert_eq!(dec.ingest(&FountainSymbol { esi: 0, data: vec![9, 9] }).unwrap(), false);
    assert_eq!(dec.ingest(&FountainSymbol { esi: 3, data: vec![0, 0] }).unwrap(), false);
    assert_eq!(dec.take_recovered().unwrap(), vec![vec![1u8, 2], vec![4u8, 8]]);
}
