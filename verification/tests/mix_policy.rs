use chronos::mix_policy::{
    AdaptiveMixConfig, AdaptiveMixDecision, AdaptiveMixer, MixProfile, MixTelemetry,
};

#[test]
fn full_threshold_flushes_at_k() {
    let cfg = AdaptiveMixConfig {
        target_k: 10,
        min_batch_size: 2,
        max_wait_ms: 50,
        reduced_fraction_num: 1,
        reduced_fraction_den: 5,
        cover_when_underfilled: true,
        adaptive_rate_factor_bps: 0,
    };
    assert_eq!(cfg.decide(10, 1), AdaptiveMixDecision::FullThreshold);
    assert_eq!(cfg.decide(9, 1), AdaptiveMixDecision::Hold);
}

#[test]
fn reduced_threshold_on_timeout() {
    let cfg = AdaptiveMixConfig {
        target_k: 100,
        min_batch_size: 5,
        max_wait_ms: 50,
        reduced_fraction_num: 1,
        reduced_fraction_den: 10,
        cover_when_underfilled: true,
        adaptive_rate_factor_bps: 0,
    };
    assert_eq!(cfg.reduced_threshold(), 10);
    assert_eq!(cfg.decide(12, 50), AdaptiveMixDecision::ReducedThreshold);
    assert_eq!(cfg.decide(3, 50), AdaptiveMixDecision::CoverTrafficBackfill);
}

#[test]
fn empty_batch_holds_before_timeout() {
    let cfg = AdaptiveMixConfig::default();
    assert_eq!(cfg.decide(0, 0), AdaptiveMixDecision::EmergencyHold);
}

#[test]
fn adaptive_rate_scales_k_down() {
    let mut cfg = MixProfile::Normal.config();
    cfg.adaptive_rate_factor_bps = 100_000;
    assert_eq!(cfg.effective_target_k(), 16);
    cfg.adaptive_rate_factor_bps = 10_000_000;
    assert_eq!(cfg.effective_target_k(), 256);
}

#[test]
fn mixer_state_machine_fills_and_flushes() {
    let mut mixer = AdaptiveMixer::new(AdaptiveMixConfig {
        target_k: 4,
        min_batch_size: 2,
        max_wait_ms: 30,
        reduced_fraction_num: 1,
        reduced_fraction_den: 2,
        cover_when_underfilled: true,
        adaptive_rate_factor_bps: 0,
    });
    assert_eq!(mixer.push_packet(), AdaptiveMixDecision::Hold);
    assert_eq!(mixer.push_packet(), AdaptiveMixDecision::Hold);
    assert_eq!(mixer.push_packet(), AdaptiveMixDecision::Hold);
    assert_eq!(mixer.push_packet(), AdaptiveMixDecision::FullThreshold);
    assert_eq!(mixer.batch_size, 0);
    assert_eq!(mixer.telemetry.flushes_full, 1);
    assert_eq!(mixer.telemetry.total_real_packets_flushed, 4);
}

#[test]
fn mixer_timeout_emits_cover() {
    let mut mixer = AdaptiveMixer::new(AdaptiveMixConfig {
        target_k: 20,
        min_batch_size: 5,
        max_wait_ms: 10,
        reduced_fraction_num: 1,
        reduced_fraction_den: 4,
        cover_when_underfilled: true,
        adaptive_rate_factor_bps: 0,
    });
    mixer.push_packet();
    let d = mixer.tick(10);
    assert_eq!(d, AdaptiveMixDecision::CoverTrafficBackfill);
    assert!(mixer.telemetry.total_cover_packets_emitted > 0);
    let real = mixer.telemetry.total_real_packets_flushed as f64;
    let cover = mixer.telemetry.total_cover_packets_emitted as f64;
    assert!((real + cover) / real > 1.0);
}

#[test]
fn profiles_order_by_anonymity() {
    let fast = MixProfile::Fast.config();
    let normal = MixProfile::Normal.config();
    let high = MixProfile::HighAnonymity.config();
    assert!(fast.target_k < normal.target_k);
    assert!(normal.target_k < high.target_k);
    assert!(fast.max_wait_ms <= normal.max_wait_ms);
    assert!(normal.max_wait_ms <= high.max_wait_ms);
}

#[test]
fn reduced_threshold_is_capped_and_lifted() {
    let mut cfg = AdaptiveMixConfig::production_defaults();
    assert_eq!(cfg.reduced_threshold(), 2_500);
    cfg.reduced_fraction_den = 0;
    assert_eq!(cfg.reduced_threshold(), 25_000);
    cfg.reduced_fraction_num = 0;
    assert_eq!(cfg.reduced_threshold(), 256);
    cfg.min_batch_size = 30_000;
    assert_eq!(cfg.reduced_threshold(), 25_000);
}

#[test]
fn effective_k_defaults_and_middle_of_range() {
    let mut cfg = MixProfile::Normal.config();
    cfg.target_k = 0;
    assert_eq!(cfg.effective_target_k(), 1);
    let mut cfg = MixProfile::Normal.config();
    cfg.adaptive_rate_factor_bps = 2_000_000; // 2000 pps over 50 ms = 100
    assert_eq!(cfg.effective_target_k(), 100);
    cfg.max_wait_ms = 0; // treated as 1 ms: 2 arrivals, lifted to min batch
    assert_eq!(cfg.effective_target_k(), 16);
}

#[test]
fn timeout_without_cover_flushes_reduced_or_holds_empty() {
    let mut cfg = MixProfile::Fast.config();
    cfg.cover_when_underfilled = false;
    assert_eq!(cfg.decide(0, 20), AdaptiveMixDecision::EmergencyHold);
    assert_eq!(cfg.decide(1, 20), AdaptiveMixDecision::ReducedThreshold);
    assert_eq!(cfg.decide(0, 19), AdaptiveMixDecision::EmergencyHold);
    assert_eq!(cfg.decide(5, 19), AdaptiveMixDecision::Hold);
}

#[test]
fn cover_cells_fill_batch_to_k() {
    let cfg = MixProfile::Fast.config();
    assert_eq!(cfg.cover_cells_needed(10), 54);
    assert_eq!(cfg.cover_cells_needed(64), 0);
    assert_eq!(cfg.cover_cells_needed(100), 0);
}

#[test]
fn telemetry_counts_holds_and_max_batch() {
    let mut t = MixTelemetry::default();
    t.record_decision(AdaptiveMixDecision::Hold, 7, 3, 0);
    t.record_decision(AdaptiveMixDecision::CoverTrafficBackfill, 2, 9, 18);
    assert_eq!(t.holds, 1);
    assert_eq!(t.flushes_cover, 1);
    assert_eq!(t.max_batch_seen, 7);
    assert_eq!(t.total_real_packets_flushed, 2);
    assert_eq!(t.total_cover_packets_emitted, 18);
    assert_eq!(t.last_flush_batch_size, 2);
    assert_eq!(t.last_flush_wait_ms, 9);
}

#[test]
fn idle_mixer_without_cover_does_not_age() {
    let mut cfg = MixProfile::Fast.config();
    cfg.cover_when_underfilled = false;
    let mut mixer = AdaptiveMixer::new(cfg);
    assert_eq!(mixer.tick(1_000), AdaptiveMixDecision::EmergencyHold);
    assert_eq!(mixer.wait_ms, 0);
    let mut mixer = AdaptiveMixer::with_profile(MixProfile::Fast);
    assert_eq!(mixer.tick(5), AdaptiveMixDecision::EmergencyHold);
    assert_eq!(mixer.wait_ms, 5);
    assert_eq!(mixer.tick(15), AdaptiveMixDecision::CoverTrafficBackfill);
    assert_eq!(mixer.wait_ms, 0);
    assert_eq!(mixer.telemetry.total_cover_packets_emitted, 64);
}
