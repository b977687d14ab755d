use chronos::directory::{
    apply_failed_nodes, global_consensus, hex_nibble, parse_hex_array, DirectoryApiConfig, DirectoryApiError, HierarchicalBftMesh,
    RegionalSuperQuorum,
};

#[test]
fn mesh_has_ten_regions_and_two_logs() {
    let mesh = HierarchicalBftMesh::new();
    assert_eq!(mesh.regional_quorums.len(), 10);
    assert_eq!(mesh.regional_quorums[0].region_id, 1);
    assert_eq!(mesh.regional_quorums[9].continent_name, "Middle East (Dubai IX)");
    assert!(mesh.regional_quorums.iter().all(|q| q.total_validators == 100));
    assert_eq!(mesh.ct_log_endpoints.len(), 2);
    let q = RegionalSuperQuorum::new(4, "x", 7);
    assert_eq!((q.region_id, q.total_validators, q.active_signatures), (4, 7, 0));
}

#[test]
fn api_defaults_are_restrictive() {
    let c = DirectoryApiConfig::default();
    assert!(!c.allow_unsafe_plaintext_mutation);
    assert!(!c.allow_remote_prune);
    assert_eq!(c.max_record_lifetime_seconds, 86_400);
}

#[test]
fn hex_arrays_parse_exactly() {
    assert_eq!(parse_hex_array::<2>("0aFf"), Ok([0x0a, 0xff]));
    assert_eq!(parse_hex_array::<2>("0aF"), Err(DirectoryApiError::BadHex));
    assert_eq!(parse_hex_array::<2>("0aFg"), Err(DirectoryApiError::BadHex));
    assert_eq!(hex_nibble(b'7'), Some(7));
    assert_eq!(hex_nibble(b'z'), None);
}

#[test]
fn failed_nodes_reduce_signatures_and_decide_the_majority() {
    let mut q = RegionalSuperQuorum::new(3, "Test Region", 100);
    assert!(apply_failed_nodes(&mut q, 5));
    assert_eq!(q.active_signatures, 95);
    assert!(apply_failed_nodes(&mut q, 34));
    assert_eq!(q.active_signatures, 66);
    assert!(!apply_failed_nodes(&mut q, 35));
    assert_eq!(q.active_signatures, 65);
    assert!(!apply_failed_nodes(&mut q, 1000));
    assert_eq!(q.active_signatures, 0);
    assert!(global_consensus(7) && global_consensus(10) && !global_consensus(6));
}
