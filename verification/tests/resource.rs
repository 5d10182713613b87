use touchhle::libc::errno::{EFAULT, EINVAL};
use touchhle::libc::sys::resource::{default_limits, State, MB, RLIM_INFINITY};
use touchhle::mem64::Mem64;

#[test]
fn darwin_resource_limit_slots_use_darwin_order() {
    let default_limits = default_limits();
    assert_eq!(default_limits.len(), 9);
    assert_eq!(default_limits[3].rlim_cur, 8 * MB);
    assert_eq!(default_limits[5].rlim_cur, RLIM_INFINITY);
    assert_eq!(default_limits[7].rlim_cur, 256);
    assert_eq!(default_limits[8].rlim_cur, 256);
}

#[test]
fn getrlimit_writes_the_slot() {
    let state = State::new();
    let mut mem = Mem64::new();
    let buf = mem.alloc_zeroed(16).unwrap();
    assert_eq!(state.getrlimit(&mut mem, 8, buf), (0, 0));
    assert_eq!(mem.read_u64(buf), Ok(256));
    assert_eq!(mem.read_u64(buf + 8), Ok(10_240));
    assert_eq!(state.getrlimit(&mut mem, 9, buf), (-1, EINVAL));
    assert_eq!(state.getrlimit(&mut mem, -1, buf), (-1, EINVAL));
    assert_eq!(state.getrlimit(&mut mem, 0, 0), (-1, EFAULT));
    assert_eq!(state.getrlimit(&mut mem, 0, buf + 8), (-1, EFAULT));
}

#[test]
fn setrlimit_checks_soft_below_hard() {
    let mut state = State::new();
    let mut mem = Mem64::new();
    let buf = mem.alloc_zeroed(16).unwrap();
    mem.write_u64(buf, 512).unwrap();
    mem.write_u64(buf + 8, 1024).unwrap();
    assert_eq!(state.setrlimit(&mem, 8, buf), (0, 0));
    let out = mem.alloc_zeroed(16).unwrap();
    assert_eq!(state.getrlimit(&mut mem, 8, out), (0, 0));
    assert_eq!(mem.read_u64(out), Ok(512));
    mem.write_u64(buf, 2048).unwrap();
    assert_eq!(state.setrlimit(&mem, 8, buf), (-1, EINVAL));
    assert_eq!(state.setrlimit(&mem, 8, 0x10), (-1, EFAULT));
    assert_eq!(state.getrlimit(&mut mem, 8, out), (0, 0));
    assert_eq!(mem.read_u64(out), Ok(512));
}
