use h4_engine::encoding::{read_le, write_le};

#[test]
fn write_le_matches_std_encoding() {
    assert_eq!(write_le(0x1122_3344_5566_7788, 8), 0x1122_3344_5566_7788u64.to_le_bytes().to_vec());
    assert_eq!(write_le(0xBEEF, 2), vec![0xEF, 0xBE]);
    assert_eq!(write_le(0x1_0000_00FF, 1), vec![0xFF]);
    assert!(write_le(5, 0).is_empty());
}

#[test]
fn read_le_matches_std_decoding() {
    let b = [0x78u8, 0x56, 0x34, 0x12];
    assert_eq!(read_le(&b), u32::from_le_bytes(b) as u64);
    assert_eq!(read_le(&[]), 0);
    assert_eq!(read_le(&u64::MAX.to_le_bytes()), u64::MAX);
}

#[test]
fn values_that_fit_read_back() {
    for &(v, n) in &[(0u64, 1usize), (255, 1), (0xABCD, 2), (0xDEAD_BEEF, 4), (u64::MAX, 8), (12345, 8)] {
        assert_eq!(read_le(&write_le(v, n)), v);
    }
}
