//! The `csops(2)` code-signing inspection API.
//!
//! Code signing is not carried out, but the guest executable is a real
//! Mach-O image, so the read-only `CS_OPS_STATUS` operation answers for the
//! running app: valid and ad-hoc signed, with no platform or enforcement
//! privileges.
use crate::libc::errno::{EFAULT, EINVAL, ESRCH};
use vstd::prelude::*;

verus! {

pub const CS_OPS_STATUS: u32 = 0;

pub const CS_VALID: u32 = 0x0000_0001;

pub const CS_ADHOC: u32 = 0x0000_0002;

/// What a `csops` call does: its return value, the `errno` it leaves, and
/// the status word written to the caller's buffer, if any.
#[derive(Clone, Copy, Debug, PartialEq, Eq)]
pub struct CsopsOutcome {
    pub result: i32,
    pub errno: i32,
    pub status_written: Option<u32>,
}

/// `csops(pid, ops, useraddr, usersize)` in a process whose id is
/// `current_pid`: only the calling process (pid 0 or its own) can be
/// asked, only `CS_OPS_STATUS` is known, and its answer needs a buffer of
/// at least four bytes at a non-null address.
pub open spec fn csops_outcome(
    pid: i32,
    current_pid: i32,
    ops: u32,
    useraddr_is_null: bool,
    usersize: u32,
) -> CsopsOutcome {
    let target = if pid == 0 {
        current_pid
    } else {
        pid
    };
    if target != current_pid {
        CsopsOutcome { result: -1i32, errno: ESRCH, status_written: None }
    } else if ops != CS_OPS_STATUS || usersize < 4 {
        CsopsOutcome { result: -1i32, errno: EINVAL, status_written: None }
    } else if useraddr_is_null {
        CsopsOutcome { result: -1i32, errno: EFAULT, status_written: None }
    } else {
        CsopsOutcome { result: 0, errno: 0, status_written: Some(CS_VALID | CS_ADHOC) }
    }
}

/// `csops`.
pub fn csops(pid: i32, current_pid: i32, ops: u32, useraddr_is_null: bool, usersize: u32) -> (r:
    CsopsOutcome)
    ensures
        r == csops_outcome(pid, current_pid, ops, useraddr_is_null, usersize),
{
    let target = if pid == 0 {
        current_pid
    } else {
        pid
    };
    if target != current_pid {
        return CsopsOutcome { result: -1, errno: ESRCH, status_written: None };
    }
    if ops != CS_OPS_STATUS || usersize < 4 {
        return CsopsOutcome { result: -1, errno: EINVAL, status_written: None };
    }
    if useraddr_is_null {
        return CsopsOutcome { result: -1, errno: EFAULT, status_written: None };
    }
    CsopsOutcome { result: 0, errno: 0, status_written: Some(CS_VALID | CS_ADHOC) }
}

} // verus!
