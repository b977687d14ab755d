use chronos::pow_admission::{
    solve_pow_for_tests, PowAdmissionCache, PowAdmissionError, PowChallenge,
};
use std::time::Duration;

#[test]
fn pow_admission_accepts_solved_nonce() {
    let c = PowChallenge {
        relay_id: [7; 16],
        unix_window: 123,
        difficulty_zero_bits: 8,
        token: [0; 32],
    };
    let nonce = solve_pow_for_tests(&c, 100_000).expect("solve");
    c.verify(&nonce).expect("verify");
}

#[test]
fn challenge_token_binds_secret_client_difficulty_and_window() {
    let relay_id = [6; 16];
    let a = PowChallenge::new_stateless(relay_id, 10, 8, b"client-a", b"alpha").expect("challenge");
    let changed_secret =
        PowChallenge::new_stateless(relay_id, 10, 8, b"client-a", b"bravo").expect("challenge");
    let changed_client =
        PowChallenge::new_stateless(relay_id, 10, 8, b"client-b", b"alpha").expect("challenge");
    let changed_difficulty =
        PowChallenge::new_stateless(relay_id, 10, 9, b"client-a", b"alpha").expect("challenge");
    let changed_window =
        PowChallenge::new_stateless(relay_id, 11, 8, b"client-a", b"alpha").expect("challenge");
    assert_ne!(a.token, changed_secret.token);
    assert_ne!(a.token, changed_client.token);
    assert_ne!(a.token, changed_difficulty.token);
    assert_ne!(a.token, changed_window.token);
}

#[test]
fn challenge_rejects_empty_or_zero_server_secret() {
    assert_eq!(
        PowChallenge::new_stateless([1; 16], 1, 8, b"client", b""),
        Err(PowAdmissionError::InvalidServerSecret)
    );
    assert_eq!(
        PowChallenge::new_stateless([1; 16], 1, 8, b"client", &[0; 32]),
        Err(PowAdmissionError::InvalidServerSecret)
    );
    assert_eq!(
        PowChallenge::new_stateless([1; 16], 1, 256, b"client", b"key"),
        Err(PowAdmissionError::InvalidDifficulty)
    );
}

#[test]
fn pow_cache_rejects_replay() {
    let c = PowChallenge {
        relay_id: [8; 16],
        unix_window: 1,
        difficulty_zero_bits: 4,
        token: [0; 32],
    };
    let nonce = solve_pow_for_tests(&c, 10_000).expect("solve");
    let mut cache = PowAdmissionCache::new(8, Duration::from_secs(60));
    cache.verify_and_insert(&c, &nonce).expect("first");
    assert_eq!(
        cache.verify_and_insert(&c, &nonce),
        Err(PowAdmissionError::Replay)
    );
}

#[test]
fn pow_cache_expires_entries() {
    let c = PowChallenge {
        relay_id: [9; 16],
        unix_window: 1,
        difficulty_zero_bits: 4,
        token: [0; 32],
    };
    let nonce = solve_pow_for_tests(&c, 10_000).expect("solve");
    let mut cache = PowAdmissionCache::new(8, Duration::from_secs(0));
    cache.verify_and_insert(&c, &nonce).expect("first");
    cache
        .verify_and_insert(&c, &nonce)
        .expect("expired allows reuse");
    assert_eq!(cache.len(), 1);
}

#[test]
fn pow_admission_rejects_bad_nonce() {
    let c = PowChallenge {
        relay_id: [7; 16],
        unix_window: 123,
        difficulty_zero_bits: 16,
        token: [0; 32],
    };
    assert_eq!(c.verify(b"bad"), Err(PowAdmissionError::InvalidNonce));
}

#[test]
fn zero_difficulty_accepts_any_nonce_and_high_difficulty_is_refused() {
    let mut c = PowChallenge {
        relay_id: [1; 16],
        unix_window: 5,
        difficulty_zero_bits: 0,
        token: [3; 32],
    };
    assert_eq!(c.verify(b""), Ok(()));
    assert_eq!(solve_pow_for_tests(&c, 1), Some(vec![0u8; 8]));
    c.difficulty_zero_bits = 256;
    assert_eq!(c.verify(b"x"), Err(PowAdmissionError::InvalidDifficulty));
    assert_eq!(solve_pow_for_tests(&c, 50), None);
}

#[test]
fn pow_cache_evicts_oldest_beyond_capacity_and_expires_by_age() {
    let c = PowChallenge {
        relay_id: [2; 16],
        unix_window: 9,
        difficulty_zero_bits: 0,
        token: [4; 32],
    };
    let mut cache = PowAdmissionCache::new(0, Duration::from_nanos(100));
    assert!(cache.is_empty());
    assert_eq!(cache.verify_and_insert_at(&c, b"a", 10), Ok(()));
    assert_eq!(cache.verify_and_insert_at(&c, b"b", 20), Ok(()));
    assert_eq!(cache.len(), 1);
    // "a" was pushed out by the capacity of one, so it is admitted again.
    assert_eq!(cache.verify_and_insert_at(&c, b"a", 30), Ok(()));
    assert_eq!(cache.verify_and_insert_at(&c, b"a", 129), Err(PowAdmissionError::Replay));
    assert_eq!(cache.verify_and_insert_at(&c, b"a", 130), Ok(()));
}
