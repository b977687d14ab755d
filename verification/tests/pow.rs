use chronos::pow::{PoWVerificationEngine, SramCuckooBloomFilter, FILTER_WORDS_PER_ARRAY};
use sha2::{Digest, Sha256};

#[test]
fn retry_cookie_mode_fails_closed_without_configured_key() {
    let mut engine = PoWVerificationEngine::new(0);
    engine.is_table_full_stateless_mode = true;
    assert_eq!(engine.verify_client_nonce("relay", 30, "one"), Err("RETRY_COOKIE_KEY_UNAVAILABLE"));
}

#[test]
fn retry_cookie_mode_uses_caller_provided_key() {
    let mut engine = PoWVerificationEngine::with_retry_cookie_key(0, [7; 32]);
    engine.is_table_full_stateless_mode = true;
    assert!(matches!(
        engine.verify_client_nonce("relay", 30, "two"),
        Ok(cookie) if cookie.starts_with("STATELESS_COOKIE:")
    ));
}

#[test]
fn retry_cookie_is_first_digest_byte_in_lowercase_hex() {
    let mut engine = PoWVerificationEngine::with_retry_cookie_key(0, [7; 32]);
    engine.is_table_full_stateless_mode = true;
    let mut h = Sha256::new();
    h.update([7u8; 32]);
    h.update(b"three");
    let expected = format!("STATELESS_COOKIE:{:x}", h.finalize()[0]);
    assert_eq!(engine.verify_client_nonce("relay", 30, "three"), Ok(expected));
}

#[test]
fn zero_difficulty_admits_once_then_detects_replay() {
    let mut engine = PoWVerificationEngine::new(0);
    assert_eq!(engine.verify_client_nonce("relay", 1000, "n1"), Ok("POW_VALID_ADMITTED".to_string()));
    assert_eq!(engine.verify_client_nonce("relay", 1000, "n1"), Err("REPLAY_DETECTED"));
    assert_eq!(engine.verify_client_nonce("relay", 1000, "n2"), Ok("POW_VALID_ADMITTED".to_string()));
}

#[test]
fn impossible_difficulty_rejects_work() {
    let mut engine = PoWVerificationEngine::new(257);
    assert_eq!(engine.verify_client_nonce("relay", 0, "n"), Err("POW_INVALID"));
}

fn leading_zero_bits(bytes: &[u8]) -> u32 {
    let mut out = 0;
    for b in bytes {
        if *b == 0 {
            out += 8;
        } else {
            return out + b.leading_zeros();
        }
    }
    out
}

#[test]
fn work_is_checked_against_the_neighbouring_windows() {
    // find a nonce whose digest for window 10 has at least 4 leading zero bits
    let mut found = None;
    for i in 0..10_000u32 {
        let nonce = format!("n{i}");
        let mut h = Sha256::new();
        h.update(b"relay");
        h.update(10u64.to_be_bytes());
        h.update(nonce.as_bytes());
        if leading_zero_bits(&h.finalize()) >= 4 {
            found = Some(nonce);
            break;
        }
    }
    let nonce = found.expect("a nonce with four zero bits");
    let mut engine = PoWVerificationEngine::new(4);
    // window 11 (timestamp 330) still accepts work done for window 10
    assert_eq!(engine.verify_client_nonce("relay", 330, &nonce), Ok("POW_VALID_ADMITTED".to_string()));
}

#[test]
fn auto_scale_difficulty_follows_arrival_rate() {
    let mut engine = PoWVerificationEngine::new(0);
    engine.auto_scale_difficulty(60_000);
    assert_eq!((engine.difficulty_zero_bits, engine.is_table_full_stateless_mode), (24, true));
    engine.auto_scale_difficulty(20_000);
    assert_eq!((engine.difficulty_zero_bits, engine.is_table_full_stateless_mode), (24, false));
    engine.auto_scale_difficulty(10_000);
    assert_eq!((engine.difficulty_zero_bits, engine.is_table_full_stateless_mode), (16, false));
}

#[test]
fn filter_reports_new_then_seen_nonce() {
    let mut f = SramCuckooBloomFilter::default();
    assert_eq!(f.words_per_array, FILTER_WORDS_PER_ARRAY);
    assert!(f.check_and_insert_nonce("abc"));
    assert!(!f.check_and_insert_nonce("abc"));
    let set: u32 = f.sram_bit_arrays[0].iter().map(|w| w.count_ones()).sum();
    assert!(set >= 1 && set <= 3);
    assert!(f.sram_bit_arrays[1].iter().all(|w| *w == 0));
    f.rotate_epoch_if_needed();
    assert_eq!(f.current_epoch_idx, 0);
}

#[test]
fn rotation_after_thirty_seconds_moves_on_and_clears_the_oldest_array() {
    let mut f = SramCuckooBloomFilter::new();
    assert!(f.check_and_insert_nonce("x"));
    let now = std::time::Instant::now();
    f.rotate_epoch_after(std::time::Duration::from_secs(29), now);
    assert_eq!(f.current_epoch_idx, 0);
    f.sram_bit_arrays[2][0] = 5;
    f.rotate_epoch_after(std::time::Duration::from_secs(30), now);
    assert_eq!(f.current_epoch_idx, 1);
    assert_eq!(f.last_rotation_time, now);
    assert!(f.sram_bit_arrays[2].iter().all(|w| *w == 0));
    // the previous epoch's bits are kept
    assert!(f.sram_bit_arrays[0].iter().any(|w| *w != 0));
    assert!(f.check_and_insert_nonce("x"));
}
