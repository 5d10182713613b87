use touchhle::libc::cxxabi::{
    exact_dynamic_type_cast, guest_add_signed, push_rtti_subobject, rtti_cast_by_matches,
    rtti_cast_from_subobjects, rtti_path_is_public, RttiSubobject,
};

fn node(
    type_info: u32,
    object: u32,
    parent: Option<usize>,
    public_from_parent: bool,
    public_from_root: bool,
    depth: u8,
) -> RttiSubobject {
    RttiSubobject {
        type_info,
        object,
        parent,
        public_from_parent,
        public_from_root,
        depth,
    }
}

#[test]
fn public_base_downcasts_to_derived() {
    let nodes = vec![
        node(10, 0x1000, None, true, true, 0),
        node(20, 0x1010, Some(0), true, true, 1),
    ];
    assert_eq!(
        rtti_cast_from_subobjects(&nodes, 20, 0x1010, 10, |left, right| left == right),
        Some(0x1000)
    );
}

#[test]
fn private_base_does_not_downcast() {
    let nodes = vec![
        node(10, 0x1000, None, true, true, 0),
        node(20, 0x1010, Some(0), false, false, 1),
    ];
    assert_eq!(
        rtti_cast_from_subobjects(&nodes, 20, 0x1010, 10, |left, right| left == right),
        None
    );
}

#[test]
fn public_sibling_base_crosscasts() {
    let nodes = vec![
        node(30, 0x1000, None, true, true, 0),
        node(10, 0x1010, Some(0), true, true, 1),
        node(20, 0x1020, Some(0), true, true, 1),
    ];
    assert_eq!(
        rtti_cast_from_subobjects(&nodes, 10, 0x1010, 20, |left, right| left == right),
        Some(0x1020)
    );
}

#[test]
fn ambiguous_public_sibling_targets_fail() {
    let nodes = vec![
        node(30, 0x1000, None, true, true, 0),
        node(20, 0x1010, Some(0), true, true, 1),
        node(10, 0x1020, Some(0), true, true, 1),
        node(10, 0x1030, Some(0), true, true, 1),
    ];
    assert_eq!(
        rtti_cast_from_subobjects(&nodes, 20, 0x1010, 10, |left, right| left == right),
        None
    );
}

#[test]
fn missing_source_subobject_fails() {
    let nodes = vec![node(10, 0x1000, None, true, true, 0)];
    assert_eq!(
        rtti_cast_from_subobjects(&nodes, 20, 0x1000, 10, |left, right| left == right),
        None
    );
}

#[test]
fn private_source_blocks_crosscast() {
    let nodes = vec![
        node(30, 0x1000, None, true, true, 0),
        node(10, 0x1010, Some(0), false, false, 1),
        node(20, 0x1020, Some(0), true, true, 1),
    ];
    assert_eq!(
        rtti_cast_from_subobjects(&nodes, 10, 0x1010, 20, |left, right| left == right),
        None
    );
}

#[test]
fn repeated_downcast_address_is_not_ambiguous() {
    // Two target nodes at the same address count as one candidate.
    let nodes = vec![
        node(10, 0x1000, None, true, true, 0),
        node(10, 0x1000, Some(0), true, true, 1),
        node(20, 0x1000, Some(1), true, true, 2),
    ];
    assert_eq!(
        rtti_cast_from_subobjects(&nodes, 20, 0x1000, 10, |left, right| left == right),
        Some(0x1000)
    );
}

#[test]
fn path_walks_only_public_bases() {
    let nodes = vec![
        node(10, 0x1000, None, true, true, 0),
        node(20, 0x1010, Some(0), true, true, 1),
        node(30, 0x1020, Some(1), false, false, 2),
    ];
    assert!(rtti_path_is_public(&nodes, 0, 1));
    assert!(rtti_path_is_public(&nodes, 2, 2));
    assert!(!rtti_path_is_public(&nodes, 0, 2));
    assert!(!rtti_path_is_public(&nodes, 1, 0));
}

#[test]
fn pushed_subobject_inherits_access_and_depth() {
    let mut nodes = vec![node(10, 0x1000, None, true, true, 0)];
    assert_eq!(push_rtti_subobject(&mut nodes, 20, 0x1008, 0, false), Some(()));
    assert_eq!(nodes.len(), 2);
    assert_eq!(nodes[1].parent, Some(0));
    assert!(!nodes[1].public_from_root);
    assert_eq!(nodes[1].depth, 1);
    assert_eq!(push_rtti_subobject(&mut nodes, 30, 0x1010, 5, true), None);
    assert_eq!(nodes.len(), 2);
}

#[test]
fn subobject_depth_is_bounded() {
    let mut nodes = vec![node(10, 0x1000, None, true, true, 64)];
    assert_eq!(push_rtti_subobject(&mut nodes, 20, 0x1008, 0, true), None);
    assert_eq!(nodes.len(), 1);
}

#[test]
fn signed_offsets_stay_in_guest_space() {
    assert_eq!(guest_add_signed(0x1000, -0x10), Some(0xff0));
    assert_eq!(guest_add_signed(0x10, -0x20), None);
    assert_eq!(guest_add_signed(u32::MAX, 1), None);
    assert_eq!(guest_add_signed(u32::MAX - 1, 1), Some(u32::MAX));
}

#[test]
fn exact_cast_follows_offset_hint() {
    assert_eq!(exact_dynamic_type_cast(0x2000, -8, 8), Some(0x2000));
    assert_eq!(exact_dynamic_type_cast(0x2000, -4, 8), None);
    assert_eq!(exact_dynamic_type_cast(0x2000, 0, -1), None);
    assert_eq!(exact_dynamic_type_cast(0x2000, 0, 0), Some(0x2000));
}

use touchhle::libc::cxxabi::{
    cxa_allocate_exception, cxa_guard_abort, cxa_guard_acquire, cxa_guard_release,
    free_exception_storage, AtExitRegistry, ThrowLoopDetector, CXA_EXCEPTION_HEADER_SIZE,
};
use touchhle::mem::Mem;

#[test]
fn guard_runs_initialiser_once() {
    let mut mem = Mem::new();
    let guard = mem.alloc_zeroed(8);
    assert_eq!(cxa_guard_acquire(&mut mem, guard), Ok(1));
    assert_eq!(mem.read_bytes(guard, 1), Ok(vec![1]));
    assert_eq!(cxa_guard_acquire(&mut mem, guard), Ok(0));
    cxa_guard_abort(&mut mem, guard).unwrap();
    assert_eq!(mem.read_bytes(guard, 1), Ok(vec![0]));
    assert_eq!(cxa_guard_acquire(&mut mem, guard), Ok(1));
    cxa_guard_release(&mut mem, guard).unwrap();
    assert_eq!(cxa_guard_acquire(&mut mem, guard), Ok(0));
}

#[test]
fn guard_on_unmapped_memory_fails() {
    let mut mem = Mem::new();
    assert!(cxa_guard_acquire(&mut mem, 0x1234).is_err());
    assert!(cxa_guard_release(&mut mem, 0x1234).is_err());
    assert!(cxa_guard_abort(&mut mem, 0x10).is_err());
}

#[test]
fn exception_storage_sits_behind_header() {
    let mut mem = Mem::new();
    let thrown = cxa_allocate_exception(&mut mem, 16);
    assert_eq!(thrown, 0x1000 + CXA_EXCEPTION_HEADER_SIZE);
    let base = thrown - CXA_EXCEPTION_HEADER_SIZE;
    assert_eq!(mem.allocation_size(base), Some(0x70));
    free_exception_storage(&mut mem, thrown);
    assert_eq!(mem.allocation_size(base), None);
}

#[test]
fn oversized_exception_is_null() {
    let mut mem = Mem::new();
    assert_eq!(cxa_allocate_exception(&mut mem, u32::MAX - 0x10), 0);
    assert_eq!(cxa_allocate_exception(&mut mem, 0xffff_f000), 0);
    assert_eq!(mem.allocation_size(0x1000), None);
}

#[test]
fn foreign_exception_pointer_is_left_alone() {
    let mut mem = Mem::new();
    let block = mem.alloc_zeroed(0x100);
    free_exception_storage(&mut mem, block + 0x10);
    assert_eq!(mem.allocation_size(block), Some(0x100));
    free_exception_storage(&mut mem, 0x20);
}

#[test]
fn throw_detector_counts_consecutive_keys() {
    let mut detector = ThrowLoopDetector::new();
    assert_eq!(detector.note_exception_throw(b"std::bad_alloc"), 1);
    assert_eq!(detector.note_exception_throw(b"std::bad_alloc"), 2);
    assert_eq!(detector.note_exception_throw(b"std::bad_alloc"), 3);
    assert_eq!(detector.note_exception_throw(b"sjlj:0x1000"), 1);
    assert_eq!(detector.note_exception_throw(b"std::bad_alloc"), 1);
}

#[test]
fn finalize_runs_matching_handlers_newest_first() {
    let mut registry = AtExitRegistry::new();
    assert_eq!(registry.cxa_atexit(0x100, 1, 7), 0);
    assert_eq!(registry.cxa_atexit(0x200, 2, 8), 0);
    assert_eq!(registry.cxa_atexit(0x300, 3, 7), 0);
    assert_eq!(registry.cxa_finalize(7), vec![(0x300, 3, 7), (0x100, 1, 7)]);
    assert_eq!(registry.cxa_finalize(7), vec![]);
    assert_eq!(registry.cxa_atexit(0x400, 4, 9), 0);
    assert_eq!(registry.cxa_finalize(0), vec![(0x400, 4, 9), (0x200, 2, 8)]);
    assert_eq!(registry.cxa_finalize(0), vec![]);
}

#[test]
fn casts_follow_the_given_type_comparisons() {
    let chain = vec![
        node(10, 0x1000, None, true, true, 0),
        node(20, 0x1010, Some(0), true, true, 1),
    ];
    assert_eq!(rtti_cast_by_matches(&chain, 0x1010, &[false, true], &[true, false]), Some(0x1000));
    // The same hierarchy, with the comparisons saying that no node has the
    // destination type, or none at the source address has the source type.
    assert_eq!(rtti_cast_by_matches(&chain, 0x1010, &[false, true], &[false, false]), None);
    assert_eq!(rtti_cast_by_matches(&chain, 0x1010, &[false, false], &[true, false]), None);
    let private = vec![
        node(10, 0x1000, None, true, true, 0),
        node(20, 0x1010, Some(0), false, false, 1),
    ];
    assert_eq!(rtti_cast_by_matches(&private, 0x1010, &[false, true], &[true, false]), None);
    let siblings = vec![
        node(30, 0x1000, None, true, true, 0),
        node(10, 0x1010, Some(0), true, true, 1),
        node(20, 0x1020, Some(0), true, true, 1),
    ];
    assert_eq!(
        rtti_cast_by_matches(&siblings, 0x1010, &[false, true, false], &[false, false, true]),
        Some(0x1020)
    );
    let ambiguous = vec![
        node(30, 0x1000, None, true, true, 0),
        node(20, 0x1010, Some(0), true, true, 1),
        node(10, 0x1020, Some(0), true, true, 1),
        node(10, 0x1030, Some(0), true, true, 1),
    ];
    assert_eq!(
        rtti_cast_by_matches(&ambiguous, 0x1010, &[false, true, false, false], &[false, false, true, true]),
        None
    );
}
