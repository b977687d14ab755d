use chronos::anonymity_metrics::{
    interval_histogram, latencies_us, length_histogram, simulate_adaptive_mix_trace,
    FlowTimingPair,
};
use chronos::mix_policy::MixProfile;
use chronos::traffic_analysis::{synthesize_constant_rate_trace, PacketObservation};

#[test]
fn interval_histogram_bins_gaps() {
    let trace = vec![
        PacketObservation { timestamp_micros: 0, length_bytes: 1 },
        PacketObservation { timestamp_micros: 500, length_bytes: 1 },
        PacketObservation { timestamp_micros: 2500, length_bytes: 1 },
        PacketObservation { timestamp_micros: 100_000, length_bytes: 1 },
    ];
    assert_eq!(interval_histogram(&trace, 1000, 4), vec![1, 0, 1, 1]);
    assert_eq!(interval_histogram(&trace, 0, 4), vec![0, 0, 0, 0]);
    assert_eq!(interval_histogram(&[], 1000, 0), vec![0]);
}

#[test]
fn constant_trace_lands_in_one_bin() {
    let trace = synthesize_constant_rate_trace(10, 1000, 100);
    let hist = interval_histogram(&trace, 1000, 8);
    assert_eq!(hist[1], 9);
    assert_eq!(hist.iter().sum::<u64>(), 9);
}

#[test]
fn length_histogram_bins_lengths() {
    let trace = vec![
        PacketObservation { timestamp_micros: 0, length_bytes: 0 },
        PacketObservation { timestamp_micros: 0, length_bytes: 600 },
        PacketObservation { timestamp_micros: 0, length_bytes: 5000 },
    ];
    assert_eq!(length_histogram(&trace, 1228, 4), vec![1, 1, 0, 1]);
    assert_eq!(length_histogram(&[], 0, 0), vec![0]);
}

#[test]
fn latencies_saturate_at_zero() {
    let pairs = vec![
        FlowTimingPair { packet_id: 0, ingress_us: 10, egress_us: 25 },
        FlowTimingPair { packet_id: 1, ingress_us: 30, egress_us: 20 },
    ];
    assert_eq!(latencies_us(&pairs), vec![15, 0]);
}

#[test]
fn simulate_fast_profile_finishes() {
    let sim = simulate_adaptive_mix_trace(MixProfile::Fast, 32, 5, 1228, 1228);
    assert_eq!(sim.pairs.len(), 32);
    assert!(!sim.egress.is_empty());
    assert!(sim.total_bytes >= sim.payload_bytes);
    for (i, p) in sim.pairs.iter().enumerate() {
        assert_eq!(p.packet_id, i as u64);
        assert!(p.egress_us >= p.ingress_us);
    }
    let t = sim.mixer.telemetry;
    assert!(t.flushes_full + t.flushes_reduced + t.flushes_cover > 0);
}
