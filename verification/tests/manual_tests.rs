use h4_engine::manual::ManualScanner;
use h4_engine::region::{
    chunk_read_len, next_region_address, pointer_next_offset,
    pointer_next_region, region_is_scannable, value_next_offset, MEM_COMMIT, PAGE_GUARD,
    PAGE_NOACCESS,
};

#[test]
fn pointer_bytes_are_little_endian() {
    assert_eq!(ManualScanner::pointer_bytes(0x1122_3344_5566_7788), 0x1122_3344_5566_7788u64.to_le_bytes().to_vec());
}

#[test]
fn scannable_regions() {
    assert!(region_is_scannable(MEM_COMMIT, 0x04));
    assert!(!region_is_scannable(0x2000, 0x04));
    assert!(!region_is_scannable(MEM_COMMIT, PAGE_NOACCESS));
    assert!(!region_is_scannable(MEM_COMMIT, 0x04 | PAGE_GUARD));
}

#[test]
fn chunk_lengths() {
    assert_eq!(chunk_read_len(10, 0, 4), 4);
    assert_eq!(chunk_read_len(10, 8, 4), 2);
}

#[test]
fn chunk_offsets_overlap_by_one_less_than_the_value() {
    assert_eq!(value_next_offset(0, 100, 4, 1000), Some(97));
    assert_eq!(value_next_offset(0, 100, 4, 98), Some(97));
    assert_eq!(value_next_offset(0, 100, 4, 97), None);
    assert_eq!(value_next_offset(0, 3, 4, 1000), None);
    assert_eq!(pointer_next_offset(0, 100, 1000), Some(100));
    assert_eq!(pointer_next_offset(900, 100, 1000), None);
}

#[test]
fn region_walk() {
    assert_eq!(next_region_address(0x1000, 0x1000), Some(0x2000));
    assert_eq!(next_region_address(usize::MAX - 0xFFF, 0x1000), None);
    assert_eq!(pointer_next_region(usize::MAX, 2), 1);
}
