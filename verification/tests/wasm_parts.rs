use chronos::wasm::equihash::WebWorkerEquihashSolver;
use chronos::wasm::hydra_tcp::HydraTcpFallbackLayer;
use chronos::wasm::mobile_power::{choose_privacy_tier, MobileDeviceState, PrivacyTierKind};
use chronos::wasm::stego_ws::{SteganographicWebSocketEngine, StegoFrameError};
use chronos::wasm::transport::WebTransportConnection;
use chronos::webrtc_turn::NatTraversalEngine;

#[test]
fn stego_frame_parses_short_and_extended_lengths() {
    let engine = SteganographicWebSocketEngine::new();
    assert_eq!(engine.active_channels.len(), 2);
    assert_eq!(engine.parse_stego_ws_frame(&[0x82, 0x03, 1, 2, 3, 4]).unwrap(), &[1, 2, 3]);
    // the mask bit is ignored
    assert_eq!(engine.parse_stego_ws_frame(&[0x82, 0x82, 7, 8]).unwrap(), &[7, 8]);
    let mut ext = vec![0x82, 126, 0x00, 0x02];
    ext.extend_from_slice(&[9, 9]);
    assert_eq!(engine.parse_stego_ws_frame(&ext).unwrap(), &[9, 9]);
}

#[test]
fn stego_frame_rejects_bad_frames() {
    let engine = SteganographicWebSocketEngine::default();
    assert_eq!(engine.parse_stego_ws_frame(&[0x82]), Err(StegoFrameError::TruncatedData));
    assert_eq!(engine.parse_stego_ws_frame(&[0x81, 0]), Err(StegoFrameError::MalformedHeader));
    assert_eq!(
        engine.parse_stego_ws_frame(&[0x82, 127, 0, 0, 0, 0, 0, 1, 0, 0]),
        Err(StegoFrameError::PayloadTooLarge)
    );
    assert_eq!(engine.parse_stego_ws_frame(&[0x82, 5, 1]), Err(StegoFrameError::TruncatedData));
    assert_eq!(engine.parse_stego_ws_frame(&[0x82, 126, 0]), Err(StegoFrameError::TruncatedData));
}

#[test]
fn mtu_probes_fall_back_on_gre_paths() {
    let mut direct = WebTransportConnection::new("guard.example");
    assert_eq!(direct.execute_dplpmtud_probes(), Ok(1280));
    assert!(direct.is_connected);
    let mut gre = WebTransportConnection::new("corp-gre-tunnel-1");
    assert_eq!(gre.execute_dplpmtud_probes(), Ok(1024));
    assert_eq!(gre.negotiated_mtu_bytes, 1024);
}

#[test]
fn hydra_swarm_reports_active() {
    let h = HydraTcpFallbackLayer::new();
    assert_eq!(h.num_physical_sockets * h.streams_per_socket, 16);
    assert_eq!(h.engage_fallback_swarm().unwrap(), "hydra-tcp-swarm-active");
}

#[test]
fn equihash_nonce_names_epoch() {
    let s = WebWorkerEquihashSolver::new();
    assert_eq!(s.solve_background_puzzle(77), "precomputed_equihash_win_77_nonce_0");
}

#[test]
fn privacy_tier_follows_power_state() {
    let wall = MobileDeviceState { is_charging: true, wifi_connected: true, cellular_5g_active: false, battery_pct: 5 };
    assert_eq!(choose_privacy_tier(&wall).0, PrivacyTierKind::ConstantRate);
    let cell = MobileDeviceState { is_charging: false, wifi_connected: false, cellular_5g_active: true, battery_pct: 31 };
    assert_eq!(choose_privacy_tier(&cell).0, PrivacyTierKind::CoalescedBurst);
    let low = MobileDeviceState { is_charging: false, wifi_connected: true, cellular_5g_active: true, battery_pct: 30 };
    let (tier, msg) = choose_privacy_tier(&low);
    assert_eq!(tier, PrivacyTierKind::AsyncStorageRelay);
    assert!(msg.contains("ORANGE"));
}

#[test]
fn nat_engine_bridges_and_assigns_roles() {
    let mut e = NatTraversalEngine::new();
    assert_eq!(e.turn_reflector_endpoints.len(), 2);
    assert_eq!(e.establish_turn_relay_bridge().unwrap(), "webrtc-turn-bridge-active");
    e.is_behind_cgnat = false;
    assert_eq!(e.establish_turn_relay_bridge().unwrap(), "direct-public-ip-active");
    assert!(e.assign_path_weighting_role(10).starts_with("Tier 1"));
    assert!(e.assign_path_weighting_role(11).starts_with("Tier 2"));
}
