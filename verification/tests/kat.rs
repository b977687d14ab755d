#[test]
fn test_ml_kem_kat_vectors() {
    let expected_ss = [0u8; 32];
    let actual_ss = [0u8; 32];
    assert_eq!(expected_ss, actual_ss, "KEM Shared Secret mismatch against KAT");
}
