use touchhle::mem::{Mem, HEAP_BASE};
use touchhle::objc::objects::{nil, HostObject, ObjC, TrivialHostObject, OBJC_OBJECT_SIZE};

#[test]
fn objects_are_allocated_with_their_class_size() {
    let mut objc = ObjC::new();
    let mut mem = Mem::new();
    let class = objc.alloc_static_object(0, HostObject::Class { instance_size: 48 }, &mut mem);
    assert_ne!(class, nil);
    assert_eq!(class, HEAP_BASE);
    assert_eq!(objc.class_instance_size(class), 48);
    assert_eq!(objc.class_instance_size(0x1234), 4);
    assert_eq!(OBJC_OBJECT_SIZE, 4);
    let obj = objc.alloc_object(class, HostObject::Other { kind: 7 }, &mut mem);
    assert_ne!(obj, nil);
    assert_eq!(obj, HEAP_BASE + 16);
    assert_eq!(ObjC::read_isa(obj, &mem), Ok(class));
    assert_eq!(ObjC::read_isa(nil, &mem), Ok(nil));
    assert_eq!(mem.allocation_size(obj), Some(48));
    assert_eq!(objc.get_host_object(obj), Some(HostObject::Other { kind: 7 }));
    assert_eq!(objc.get_refcount(obj), 1);
}

#[test]
fn objects_without_a_class_record_take_a_bare_isa() {
    let mut objc = ObjC::new();
    let mut mem = Mem::new();
    let obj = objc.alloc_object(0x1234, HostObject::Trivial(TrivialHostObject), &mut mem);
    assert_eq!(ObjC::read_isa(obj, &mem), Ok(0x1234));
    assert_eq!(mem.read_bytes(obj, 4), Ok(vec![0x34, 0x12, 0, 0]));
    assert_eq!(mem.read_u32(obj + 4), Ok(0));
    assert_eq!(mem.allocation_size(obj), Some(16));
}

#[test]
fn allocation_fails_only_without_room() {
    let mut objc = ObjC::new();
    let mut mem = Mem::new();
    let class = objc.alloc_static_object(0, HostObject::Class { instance_size: 0xffff_f000 }, &mut mem);
    let obj = objc.alloc_object(class, HostObject::Trivial(TrivialHostObject), &mut mem);
    assert_eq!(obj, nil);
    assert_eq!(objc.get_host_object(nil), None);
}

#[test]
fn refcounts_go_up_and_down() {
    let mut objc = ObjC::new();
    let mut mem = Mem::new();
    let obj = objc.alloc_object(0, HostObject::Trivial(TrivialHostObject), &mut mem);
    objc.increment_refcount(obj);
    objc.increment_refcount(obj);
    assert_eq!(objc.get_refcount(obj), 3);
    assert!(!objc.decrement_refcount(obj));
    assert!(!objc.decrement_refcount(obj));
    assert!(objc.decrement_refcount(obj));
    // After the last reference the count is gone.
    assert!(!objc.decrement_refcount(obj));
    assert_eq!(objc.get_refcount(nil), 1);
    assert!(!objc.decrement_refcount(nil));
}

#[test]
fn static_objects_are_not_counted() {
    let mut objc = ObjC::new();
    objc.register_static_object(0x4000, HostObject::Trivial(TrivialHostObject));
    objc.register_static_object(nil, HostObject::Trivial(TrivialHostObject));
    assert_eq!(objc.get_host_object(nil), None);
    objc.increment_refcount(0x4000);
    assert_eq!(objc.get_refcount(0x4000), 1);
    assert!(!objc.decrement_refcount(0x4000));
}

#[test]
fn object_copy_is_shallow_and_fresh() {
    let mut objc = ObjC::new();
    let mut mem = Mem::new();
    let class = objc.alloc_static_object(0, HostObject::Class { instance_size: 16 }, &mut mem);
    let obj = objc.alloc_object(class, HostObject::Other { kind: 1 }, &mut mem);
    mem.write_u32(obj + 8, 0xdead_beef).unwrap();
    let copy = objc.object_copy(obj, 16, &mut mem).unwrap();
    assert_ne!(copy, obj);
    assert_eq!(ObjC::read_isa(copy, &mem), Ok(class));
    assert_eq!(mem.read_u32(copy + 8), Ok(0xdead_beef));
    assert_eq!(mem.read_u32(copy + 16), Ok(0));
    assert_eq!(mem.allocation_size(copy), Some(32));
    assert_eq!(objc.get_host_object(copy), Some(HostObject::Trivial(TrivialHostObject)));
    assert_eq!(objc.get_refcount(copy), 1);
    assert_eq!(objc.object_copy(nil, 0, &mut mem), Ok(nil));
    // An object outside the heap cannot be read.
    assert!(objc.object_copy(0x10, 0, &mut mem).is_err());
}

#[test]
fn dealloc_frees_registered_objects() {
    let mut objc = ObjC::new();
    let mut mem = Mem::new();
    let obj = objc.alloc_object(0, HostObject::Trivial(TrivialHostObject), &mut mem);
    objc.dealloc_object(obj, &mut mem);
    assert_eq!(objc.get_host_object(obj), None);
    assert_eq!(mem.allocation_size(obj), None);
    objc.dealloc_object(nil, &mut mem);
}

#[test]
fn dealloc_sets_weak_references_to_nil() {
    let mut objc = ObjC::new();
    let mut mem = Mem::new();
    let obj = objc.alloc_object(0, HostObject::Trivial(TrivialHostObject), &mut mem);
    let other = objc.alloc_object(0, HostObject::Trivial(TrivialHostObject), &mut mem);
    let holder = objc.alloc_object(0, HostObject::Trivial(TrivialHostObject), &mut mem);
    mem.write_u32(holder + 4, obj).unwrap();
    mem.write_u32(holder + 8, other).unwrap();
    objc.register_weak_slot(holder + 4);
    objc.register_weak_slot(holder + 8);
    objc.dealloc_object(obj, &mut mem);
    assert_eq!(mem.read_u32(holder + 4), Ok(nil));
    assert_eq!(mem.read_u32(holder + 8), Ok(other));
}
