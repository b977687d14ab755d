use chronos::ratchet::SessionKeyRatchet;
use sha2::{Digest, Sha256};
use std::time::Duration;

fn step(secret: [u8; 32]) -> [u8; 32] {
    let mut h = Sha256::new();
    h.update(secret);
    h.update(b"chronos_v7_ratchet_step");
    h.finalize().into()
}

fn tag(secret: [u8; 32], current: [u8; 16], seq: u64) -> [u8; 16] {
    let mut h = Sha256::new();
    h.update(secret);
    h.update(current);
    h.update(seq.to_be_bytes());
    let d = h.finalize();
    let mut t = [0u8; 16];
    t.copy_from_slice(&d[..16]);
    t
}

#[test]
fn new_ratchet_has_default_thresholds() {
    let r = SessionKeyRatchet::new([3; 32]);
    assert_eq!(r.current_secret, [3; 32]);
    assert_eq!(r.packet_sequence_count, 0);
    assert_eq!(r.volume_threshold, 65536);
    assert_eq!(r.temporal_threshold, Duration::from_secs(60));
}

#[test]
fn below_thresholds_the_secret_is_kept() {
    let mut r = SessionKeyRatchet::new([3; 32]);
    assert!(!r.check_and_ratchet());
    let t = r.evolve_tag(&[1; 16], 9);
    assert_eq!(t, tag([3; 32], [1; 16], 9));
    assert_eq!(r.packet_sequence_count, 1);
    assert_eq!(r.current_secret, [3; 32]);
}

#[test]
fn volume_threshold_steps_the_secret() {
    let mut r = SessionKeyRatchet::new([3; 32]);
    r.volume_threshold = 2;
    let _ = r.evolve_tag(&[1; 16], 1);
    assert_eq!(r.current_secret, [3; 32]);
    let t = r.evolve_tag(&[1; 16], 2);
    assert_eq!(r.current_secret, step([3; 32]));
    assert_eq!(r.packet_sequence_count, 0);
    assert_eq!(t, tag(step([3; 32]), [1; 16], 2));
}

#[test]
fn zero_time_threshold_always_steps() {
    let mut r = SessionKeyRatchet::new([5; 32]);
    r.temporal_threshold = Duration::from_secs(0);
    assert!(r.check_and_ratchet());
    assert_eq!(r.current_secret, step([5; 32]));
    assert!(r.check_and_ratchet());
    assert_eq!(r.current_secret, step(step([5; 32])));
}

