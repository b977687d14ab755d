use chronos::dpf_store::{
    combine_point_shares, evaluate_two_server_pir, generate_two_server_point_function,
    DpfQueryRequest, DpfStorageRelayEngine, EpochSnapshotMatrix,
};

fn engine_with_epoch(bucket_count: usize) -> DpfStorageRelayEngine {
    let mut engine = DpfStorageRelayEngine::new();
    for idx in 0..bucket_count {
        engine.push_shard_to_staging(idx as u64, vec![idx as u8; 32]);
    }
    engine.commit_epoch_snapshot().expect("commit");
    engine
}

#[test]
fn query_request_round_trips() {
    let q = DpfQueryRequest { epoch_id: 7, bucket_indices: vec![1, 2, 3] };
    assert_eq!(DpfQueryRequest::decode(&q.encode()).unwrap(), q);
}

#[test]
fn query_decode_reports_magic_and_length() {
    assert_eq!(DpfQueryRequest::decode(b"short").unwrap_err(), "INVALID_DPF_QUERY_MAGIC");
    let mut bytes = DpfQueryRequest { epoch_id: 1, bucket_indices: vec![9] }.encode();
    bytes.push(0);
    assert_eq!(DpfQueryRequest::decode(&bytes).unwrap_err(), "INVALID_DPF_QUERY_LENGTH");
    let mut wrong = bytes.clone();
    wrong[0] = b'X';
    assert_eq!(DpfQueryRequest::decode(&wrong).unwrap_err(), "INVALID_DPF_QUERY_MAGIC");
}

#[test]
fn two_server_point_function_reconstructs_only_target_bit() {
    let (a, b) = generate_two_server_point_function(3, 8, 42);
    let combined = combine_point_shares(&a, &b);
    assert_eq!(combined.iter().filter(|&&bit| bit == 1).count(), 1);
    assert_eq!(combined[3], 1);
    assert_ne!(a.bits, combined);
    assert_ne!(b.bits, combined);
}

#[test]
fn two_server_pir_recovers_target_bucket_from_shared_queries() {
    let left = engine_with_epoch(8);
    let right = engine_with_epoch(8);
    let (a, b) = generate_two_server_point_function(5, 8, 99);
    let recovered = evaluate_two_server_pir(&left, &right, 1, &a, &b).expect("pir");
    assert_eq!(recovered[0], 5);
}

#[test]
fn two_server_pir_rejects_snapshot_mismatch() {
    let left = engine_with_epoch(8);
    let mut right = DpfStorageRelayEngine::new();
    right.push_shard_to_staging(5, vec![5u8; 32]);
    right.commit_epoch_snapshot().expect("commit");
    let (a, b) = generate_two_server_point_function(5, 8, 99);
    assert_eq!(
        evaluate_two_server_pir(&left, &right, 1, &a, &b),
        Err("PIR_SNAPSHOT_ROOT_MISMATCH".to_string())
    );
}

#[test]
fn commit_labels_and_query_reads_buckets() {
    let mut engine = DpfStorageRelayEngine::new();
    engine.push_shard_to_staging(1, vec![0xAA; 32]);
    engine.push_shard_to_staging(1, vec![0xAB; 2]);
    let root = engine.commit_epoch_snapshot().expect("commit");
    // "1:2," is 4 bytes long; 4 * 42 = 168.
    assert_eq!(root, "0x99AA_1_168_EF");
    assert_eq!(engine.current_epoch, 2);
    assert!(engine.staging_buffer.is_empty());
    let response = engine
        .evaluate_dpf_query_request(&DpfQueryRequest { epoch_id: 1, bucket_indices: vec![1, 7] })
        .unwrap();
    assert_eq!(response.merkle_root_hash, root);
    assert_eq!(response.xor_result.len(), 4096);
    assert_eq!(&response.xor_result[..3], &[0xAB, 0xAB, 0]);
    assert_eq!(engine.evaluate_dpf_query(9, &[1]).unwrap_err(), "EPOCH_NOT_FOUND");
}

#[test]
fn snapshot_summary_names_epoch_root_and_size() {
    let s = EpochSnapshotMatrix {
        epoch_id: 3,
        merkle_root_hash: "root".to_string(),
        shard_buckets: vec![(1, vec![1]), (2, vec![2])],
    };
    assert_eq!(s.get_summary(), "Epoch #3: Merkle Root root across 2 buckets");
}

#[test]
fn snapshot_bytes_round_trip_and_layout() {
    let s = EpochSnapshotMatrix {
        epoch_id: 7,
        merkle_root_hash: "rt".to_string(),
        shard_buckets: vec![(3, vec![0xAA, 0xBB]), (1, vec![])],
    };
    let bytes = s.to_snapshot_bytes();
    let mut want: Vec<u8> = b"CHDPF001".to_vec();
    want.extend_from_slice(&7u64.to_be_bytes());
    want.extend_from_slice(&2u32.to_be_bytes());
    want.extend_from_slice(b"rt");
    want.extend_from_slice(&2u32.to_be_bytes());
    want.extend_from_slice(&3u64.to_be_bytes());
    want.extend_from_slice(&2u32.to_be_bytes());
    want.extend_from_slice(&[0xAA, 0xBB]);
    want.extend_from_slice(&1u64.to_be_bytes());
    want.extend_from_slice(&0u32.to_be_bytes());
    assert_eq!(bytes, want);
    let back = EpochSnapshotMatrix::from_snapshot_bytes(&bytes).expect("read");
    assert_eq!(back.epoch_id, 7);
    assert_eq!(back.merkle_root_hash, "rt");
    assert_eq!(back.shard_buckets, s.shard_buckets);
}

#[test]
fn snapshot_reading_refuses_bad_files_and_replaces_duplicates() {
    let engine = engine_with_epoch(3);
    let bytes = engine.active_snapshots[0].to_snapshot_bytes();
    let mut bad = bytes.clone();
    bad[0] = b'X';
    assert_eq!(EpochSnapshotMatrix::from_snapshot_bytes(&bad).err().unwrap(), "INVALID_SNAPSHOT_MAGIC");
    assert_eq!(
        EpochSnapshotMatrix::from_snapshot_bytes(&bytes[..bytes.len() - 1]).err().unwrap(),
        "failed to fill whole buffer"
    );
    assert_eq!(EpochSnapshotMatrix::from_snapshot_bytes(b"CHD").err().unwrap(), "failed to fill whole buffer");
    let mut invalid_root: Vec<u8> = b"CHDPF001".to_vec();
    invalid_root.extend_from_slice(&1u64.to_be_bytes());
    invalid_root.extend_from_slice(&1u32.to_be_bytes());
    invalid_root.push(0xFF);
    assert!(EpochSnapshotMatrix::from_snapshot_bytes(&invalid_root).is_err());
    let mut dup: Vec<u8> = b"CHDPF001".to_vec();
    dup.extend_from_slice(&9u64.to_be_bytes());
    dup.extend_from_slice(&0u32.to_be_bytes());
    dup.extend_from_slice(&3u32.to_be_bytes());
    for (idx, byte) in [(5u64, 1u8), (6, 2), (5, 3)] {
        dup.extend_from_slice(&idx.to_be_bytes());
        dup.extend_from_slice(&1u32.to_be_bytes());
        dup.push(byte);
    }
    dup.extend_from_slice(b"trailing");
    let read = EpochSnapshotMatrix::from_snapshot_bytes(&dup).expect("read");
    assert_eq!(read.shard_buckets, vec![(5, vec![3]), (6, vec![2])]);
    let mut fresh = DpfStorageRelayEngine::new();
    fresh.install_snapshot(read);
    assert_eq!(fresh.current_epoch, 10);
    assert_eq!(fresh.active_snapshots.len(), 1);
}
