use touchhle::mem64::{Mem64, Permissions};

#[test]
fn allocations_skip_loaded_regions() {
    let mut mem = Mem64::new();
    mem.map_zeroed(0x1_0000_0000, 0x2000).unwrap();
    let allocation = mem.alloc_zeroed(0x100).unwrap();
    assert_eq!(allocation, 0x1_0000_2000);
}

#[test]
fn accesses_are_checked_at_region_boundaries() {
    let mut mem = Mem64::new();
    mem.map_zeroed(0x1_0000_0000, 0x10).unwrap();
    assert!(mem.write_u64(0x1_0000_0008, 1).is_ok());
    assert!(mem.write_u64(0x1_0000_0009, 1).is_err());
    assert!(mem.read_u32(0x1_0000_000e).is_err());
}

#[test]
fn permissions_separate_code_and_data_access() {
    let mut mem = Mem64::new();
    mem.map_zeroed_with_permissions(0x1_0000_0000, 0x1000, Permissions::read_execute())
        .unwrap();
    assert!(mem.read_code_u32(0x1_0000_0000).is_ok());
    assert!(mem.write_u32(0x1_0000_0000, 1).is_err());
    assert!(mem.read_u32(0x1_0000_0000).is_ok());
}

#[test]
fn free_releases_only_emulator_allocations() {
    let mut mem = Mem64::new();
    let address = mem.alloc_zeroed(32).unwrap();
    assert!(mem.free(address));
    assert!(mem.read_u8(address).is_err());
    assert!(!mem.free(address));
}

#[test]
fn bulk_operations_cross_adjacent_mappings() {
    let mut mem = Mem64::new();
    mem.map_zeroed(0x1_0000_0000, 0x10).unwrap();
    mem.map_zeroed(0x1_0000_0010, 0x10).unwrap();
    mem.write_bytes(0x1_0000_000c, &[1, 2, 3, 4, 5, 6, 7, 8])
        .unwrap();
    assert_eq!(
        mem.read_bytes(0x1_0000_000c, 8).unwrap(),
        [1, 2, 3, 4, 5, 6, 7, 8]
    );
    mem.fill_bytes(0x1_0000_000e, 0xaa, 4).unwrap();
    assert_eq!(mem.read_bytes(0x1_0000_000e, 4).unwrap(), [0xaa; 4]);
}

#[test]
fn allocations_are_sixteen_byte_aligned_and_not_reused() {
    let mut mem = Mem64::new();
    let a = mem.alloc_zeroed(5).unwrap();
    let b = mem.alloc_zeroed(17).unwrap();
    assert_eq!(a % 16, 0);
    assert_eq!(b % 16, 0);
    assert!(b >= a + 16);
    assert_eq!(mem.allocation_size(b), Some(32));
}
