use chronos::gf28::{
    align_simd_symbol_slice, gf_inv_0x1d, gf_mul_0x1d, ReedSolomon16_10,
    PRIMITIVE_POLYNOMIAL_MASK_0X1D,
};

#[test]
fn gf_mul_matches_known_products() {
    assert_eq!(gf_mul_0x1d(0, 77), 0);
    assert_eq!(gf_mul_0x1d(1, 77), 77);
    assert_eq!(gf_mul_0x1d(2, 0x80), PRIMITIVE_POLYNOMIAL_MASK_0X1D);
    assert_eq!(gf_mul_0x1d(3, 7), 9);
    assert_eq!(gf_mul_0x1d(0x53, 0xca), gf_mul_0x1d(0xca, 0x53));
}

#[test]
fn gf_inverse_multiplies_to_one() {
    assert_eq!(gf_inv_0x1d(0), 0);
    assert_eq!(gf_inv_0x1d(1), 1);
    for a in 1u16..=255 {
        let a = a as u8;
        assert_eq!(gf_mul_0x1d(a, gf_inv_0x1d(a)), 1, "a = {a}");
    }
}

#[test]
fn align_zeroes_only_the_padding_window() {
    let mut s = [7u8; 8];
    align_simd_symbol_slice(&mut s, 3, 6);
    assert_eq!(s, [7, 7, 7, 0, 0, 0, 7, 7]);
    let mut short = [7u8; 4];
    align_simd_symbol_slice(&mut short, 1, 6);
    assert_eq!(short, [7u8; 4]);
    let mut same = [7u8; 4];
    align_simd_symbol_slice(&mut same, 4, 4);
    assert_eq!(same, [7u8; 4]);
}

fn data() -> Vec<Vec<u8>> {
    (0..10).map(|i| (0..12).map(|b| (i * 31 + b * 7) as u8).collect()).collect()
}

#[test]
fn reed_solomon_generator_is_systematic() {
    let rs = ReedSolomon16_10::default();
    assert_eq!((rs.k, rs.n), (10, 16));
    assert_eq!(rs.gen_matrix[0], vec![1u8, 0, 0, 0, 0, 0, 0, 0, 0, 0]);
    assert_eq!(rs.gen_matrix[9][9], 1);
    assert_eq!(rs.gen_matrix[10], vec![154u8, 41, 179, 8, 10, 12, 14, 180, 44, 153]);
}

#[test]
fn reed_solomon_encoding_keeps_the_data_shards_first() {
    let rs = ReedSolomon16_10::new();
    let d = data();
    let refs: Vec<&[u8]> = d.iter().map(Vec::as_slice).collect();
    let encoded = rs.encode(&refs).expect("encode");
    assert_eq!(encoded.len(), 16);
    assert_eq!(encoded[..10].to_vec(), d);
    let mut parity0 = vec![0u8; 12];
    for (c, shard) in d.iter().enumerate() {
        for (b, byte) in shard.iter().enumerate() {
            parity0[b] ^= gf_mul_0x1d(rs.gen_matrix[10][c], *byte);
        }
    }
    assert_eq!(encoded[10], parity0);
}

#[test]
fn reed_solomon_decodes_every_ten_shard_subset_of_a_small_block() {
    let rs = ReedSolomon16_10::new();
    let d: Vec<Vec<u8>> = (0..10).map(|i| vec![if i == 0 { 1u8 } else { 0u8 }]).collect();
    let refs: Vec<&[u8]> = d.iter().map(Vec::as_slice).collect();
    let encoded = rs.encode(&refs).expect("encode");
    let all: Vec<Option<Vec<u8>>> = encoded.iter().cloned().map(Some).collect();
    assert_eq!(rs.decode(&all).expect("decode"), d);
    for mask in 0u32..(1 << 16) {
        if mask.count_ones() != 6 {
            continue;
        }
        let surviving: Vec<Option<Vec<u8>>> = (0..16)
            .map(|i| if mask & (1 << i) != 0 { None } else { Some(encoded[i].clone()) })
            .collect();
        assert_eq!(rs.decode(&surviving).expect("decode"), d, "mask {mask:#x}");
    }
}

#[test]
fn reed_solomon_recovers_from_any_erasure_that_drops_a_data_row() {
    let rs = ReedSolomon16_10::new();
    let d = data();
    let refs: Vec<&[u8]> = d.iter().map(Vec::as_slice).collect();
    let encoded = rs.encode(&refs).expect("encode");
    assert_eq!(encoded.len(), 16);
    let mut surviving: Vec<Option<Vec<u8>>> = encoded.iter().cloned().map(Some).collect();
    for lost in [0usize, 3, 5, 9, 11, 14] {
        surviving[lost] = None;
    }
    assert_eq!(rs.decode(&surviving).expect("decode"), d);
    let mut only_parity: Vec<Option<Vec<u8>>> = encoded.iter().cloned().map(Some).collect();
    only_parity[1] = None;
    assert_eq!(rs.decode(&only_parity).expect("decode"), d);
}

#[test]
fn reed_solomon_returns_the_data_when_all_shards_survive() {
    let rs = ReedSolomon16_10::new();
    let d = data();
    let refs: Vec<&[u8]> = d.iter().map(Vec::as_slice).collect();
    let encoded = rs.encode(&refs).expect("encode");
    let surviving: Vec<Option<Vec<u8>>> = encoded.iter().cloned().map(Some).collect();
    assert_eq!(rs.decode(&surviving).expect("decode"), d);
}

#[test]
fn reed_solomon_reports_shape_errors() {
    let rs = ReedSolomon16_10::new();
    let one = [1u8; 4];
    assert_eq!(rs.encode(&[&one[..]]), Err("Expected 10 data shards, got 1".to_string()));
    let uneven: Vec<Vec<u8>> = (0..10).map(|i| vec![0u8; if i == 4 { 3 } else { 4 }]).collect();
    let refs: Vec<&[u8]> = uneven.iter().map(Vec::as_slice).collect();
    assert_eq!(
        rs.encode(&refs),
        Err("All data shards must have identical byte length".to_string())
    );
    assert_eq!(rs.decode(&[None, None]), Err("Expected 16 shard options, got 2".to_string()));
    let mut nine: Vec<Option<Vec<u8>>> = vec![None; 16];
    for i in 0..9 {
        nine[i + 3] = Some(vec![0u8; 4]);
    }
    assert_eq!(
        rs.decode(&nine),
        Err("Insufficient shards for reconstruction: found 9, needed 10".to_string())
    );
}
