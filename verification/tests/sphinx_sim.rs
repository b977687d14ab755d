use chronos::sphinx_sim::{
    SimulationOnionCell, SimulationOnionError, SphinxSimulationProcessor, SIMULATION_ONION_PAYLOAD_BYTES,
};

#[test]
fn oversize_simulation_payload_is_rejected_without_truncation() {
    let payload = vec![7u8; SIMULATION_ONION_PAYLOAD_BYTES + 1];
    assert_eq!(
        SimulationOnionCell::new([0; 16], 0, &payload),
        Err(SimulationOnionError::PayloadTooLarge {
            got: SIMULATION_ONION_PAYLOAD_BYTES + 1,
            max: SIMULATION_ONION_PAYLOAD_BYTES,
        })
    );
}

#[test]
fn exact_simulation_payload_limit_is_preserved() {
    let payload = vec![9u8; SIMULATION_ONION_PAYLOAD_BYTES];
    let cell = SimulationOnionCell::new([1; 16], 7, &payload).expect("exact maximum");
    assert_eq!(cell.shard_payload_or_noise, payload.as_slice());
}

fn processor() -> SphinxSimulationProcessor {
    SphinxSimulationProcessor::new([vec![1u8; 32], vec![2u8; 32], vec![3u8; 32], vec![4u8; 32]])
}

#[test]
fn new_cell_pads_payload_and_encodes_sequence_iv() {
    let cell = SimulationOnionCell::new([5; 16], 0x0102_0304_0506_0708, &[1, 2, 3]).unwrap();
    assert_eq!(cell.monotonic_seq_iv, [0, 0, 0, 0, 1, 2, 3, 4, 5, 6, 7, 8]);
    assert_eq!(&cell.shard_payload_or_noise[..3], &[1, 2, 3]);
    assert!(cell.shard_payload_or_noise[3..].iter().all(|b| *b == 0));
    assert!(cell.simulated_header.iter().all(|b| *b == 0));
    assert_eq!(cell.integrity_check, [0u8; 16]);
}

#[test]
fn peeling_all_four_hops_restores_a_zero_header() {
    let p = processor();
    let mut cell = p.encapsulate([9; 16], 3, b"hello").unwrap();
    assert!(cell.simulated_header.iter().any(|b| *b != 0));
    assert_ne!(cell.integrity_check, [0u8; 16]);
    let mut tags = Vec::new();
    for hop in 0..4 {
        let (tag, _port) = p.decapsulate_hop(hop, &mut cell).unwrap();
        assert_eq!(cell.mutated_session_tag, tag);
        tags.push(tag);
    }
    assert!(cell.simulated_header.iter().all(|b| *b == 0));
    assert_ne!(tags[0], tags[1]);
    assert_eq!(&cell.shard_payload_or_noise[..5], b"hello");
}

#[test]
fn encapsulation_is_deterministic_and_rejects_oversize() {
    let p = processor();
    let a = p.encapsulate([1; 16], 1, b"x").unwrap();
    let b = p.encapsulate([1; 16], 1, b"x").unwrap();
    assert_eq!(a, b);
    let big = vec![0u8; SIMULATION_ONION_PAYLOAD_BYTES + 2];
    assert_eq!(
        p.encapsulate([1; 16], 1, &big),
        Err(SimulationOnionError::PayloadTooLarge { got: SIMULATION_ONION_PAYLOAD_BYTES + 2, max: 944 })
    );
}

#[test]
fn invalid_hop_index_leaves_cell_unchanged() {
    let p = processor();
    let mut cell = p.encapsulate([1; 16], 1, b"x").unwrap();
    let before = cell;
    assert_eq!(
        p.decapsulate_hop(4, &mut cell),
        Err(SimulationOnionError::InvalidHopIndex { got: 4, max: 3 })
    );
    assert_eq!(cell, before);
}
