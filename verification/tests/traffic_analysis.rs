use chronos::traffic_analysis::{
    observation_intervals, observation_shape, observations_from_csv, observations_to_csv,
    synthesize_constant_rate_trace, PacketObservation,
};

#[test]
fn traffic_harness_accepts_constant_rate_constant_length_trace() {
    let trace = synthesize_constant_rate_trace(8, 5000, 1228);
    let report = observation_shape(&trace);
    assert_eq!(report.packet_count, 8);
    assert_eq!(report.unique_lengths, 1);
    assert!(report.constant_length);
    assert!(report.constant_interval);
    assert_eq!(report.max_interval_jitter_micros, 0);
}

#[test]
fn traffic_harness_detects_length_and_timing_variation() {
    let trace = vec![
        PacketObservation { timestamp_micros: 0, length_bytes: 1000 },
        PacketObservation { timestamp_micros: 5000, length_bytes: 1228 },
        PacketObservation { timestamp_micros: 12_000, length_bytes: 1228 },
    ];
    let report = observation_shape(&trace);
    assert!(!report.constant_length);
    assert!(!report.constant_interval);
    assert_eq!(report.unique_lengths, 2);
    assert_eq!(report.max_interval_jitter_micros, 2000);
}

#[test]
fn traffic_observations_round_trip_csv() {
    let trace = synthesize_constant_rate_trace(3, 10, 1228);
    let csv = observations_to_csv(&trace);
    assert_eq!(observations_from_csv(&csv).unwrap(), trace);
}

#[test]
fn csv_text_is_header_then_rows() {
    let trace = synthesize_constant_rate_trace(2, 7, 40);
    assert_eq!(
        observations_to_csv(&trace),
        "timestamp_micros,length_bytes\n0,40\n7,40\n"
    );
}

#[test]
fn csv_parse_skips_blank_lines_and_reports_errors() {
    let parsed = observations_from_csv("  timestamp_micros,length_bytes \r\n\n 5,6\r\n\u{3000}\n+7,8").unwrap_err();
    assert_eq!(parsed, "invalid digit found in string");
    let ok = observations_from_csv("\u{a0}timestamp_micros,length_bytes\n\n5,6\r\n\u{3000}\n+7,8").unwrap();
    assert_eq!(
        ok,
        vec![
            PacketObservation { timestamp_micros: 5, length_bytes: 6 },
            PacketObservation { timestamp_micros: 7, length_bytes: 8 },
        ]
    );
    assert_eq!(observations_from_csv("1,2\nnocomma").unwrap_err(), "invalid csv line 1");
    assert_eq!(observations_from_csv("x\n").unwrap_err(), "invalid csv line 0");
    assert_eq!(
        observations_from_csv(",5").unwrap_err(),
        "cannot parse integer from empty string"
    );
    assert_eq!(
        observations_from_csv("99999999999999999999,1").unwrap_err(),
        "number too large to fit in target type"
    );
    assert_eq!(observations_from_csv("").unwrap(), vec![]);
}

#[test]
fn intervals_saturate_when_time_goes_backwards() {
    let trace = vec![
        PacketObservation { timestamp_micros: 10, length_bytes: 1 },
        PacketObservation { timestamp_micros: 4, length_bytes: 1 },
        PacketObservation { timestamp_micros: 9, length_bytes: 1 },
    ];
    assert_eq!(observation_intervals(&trace), vec![0, 5]);
    assert_eq!(observation_shape(&trace).max_interval_jitter_micros, 5);
    assert_eq!(observation_intervals(&[]), Vec::<u64>::new());
}
