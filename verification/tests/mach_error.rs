use touchhle::libc::mach::error::{do_compat, lookup, State};
use touchhle::mem64::Mem64;

#[test]
fn kernel_codes_have_their_strings() {
    assert_eq!(lookup(0), Some("(os/kern) successful"));
    assert_eq!(lookup(4), Some("(os/kern) invalid argument"));
    assert_eq!(lookup(56), Some("(os/kern) result not found"));
    assert_eq!(lookup(57), Some("unknown error code"));
}

#[test]
fn old_ipc_numbers_are_recoded() {
    assert_eq!(do_compat(-102), (3 << 26) | 2);
    assert_eq!(lookup(-102), Some("(ipc/send) invalid port"));
    assert_eq!(lookup(-203), Some("(ipc/rcv) receive timed out"));
    assert_eq!(do_compat(1005), (2 << 26) | 5);
    assert_eq!(do_compat(42), 42);
}

#[test]
fn subsystems_and_systems_fall_back() {
    let unix_enoent = (0 << 26) | (3 << 14) | 2;
    assert_eq!(lookup(unix_enoent), Some("(os/unix) file or directory does not exist"));
    assert_eq!(lookup((0 << 26) | (3 << 14)), Some("unknown error code"));
    assert_eq!(lookup((0 << 26) | (9 << 14)), Some("(operating system/?) unknown subsystem error"));
    assert_eq!(lookup((4 << 26) | (1 << 14) | 16), Some("(ipc/rcv) DIPC transport error"));
    assert_eq!(lookup((4 << 26) | (7 << 14)), Some("(ipc/?) unknown subsystem error"));
    assert_eq!(lookup(7 << 26), Some("unknown error code"));
    assert_eq!(lookup(5 << 26), None);
    assert_eq!(lookup(0x20 << 26), None);
}

#[test]
fn error_strings_are_copied_once() {
    let mut state = State::new();
    let mut mem = Mem64::new();
    let p = state.mach_error_string(&mut mem, 1).unwrap();
    assert_ne!(p, 0);
    let text = b"(os/kern) invalid address";
    assert_eq!(mem.read_bytes(p, text.len() as u64 + 1).unwrap(), [&text[..], &[0]].concat());
    assert_eq!(state.mach_error_string(&mut mem, 1), Ok(p));
    assert_eq!(state.mach_error_string(&mut mem, 5 << 26), Ok(0));
    let q = state.mach_error_string(&mut mem, 2).unwrap();
    assert_ne!(q, p);
}
