//! `errno.h`: the error numbers that the runtime services report, with
//! their Darwin values.
use vstd::prelude::*;

verus! {

/// No such file or directory.
pub const ENOENT: i32 = 2;
/// No such process.
pub const ESRCH: i32 = 3;
/// Bad file descriptor.
pub const EBADF: i32 = 9;
/// Permission denied.
pub const EACCES: i32 = 13;
/// Bad address.
pub const EFAULT: i32 = 14;
/// File exists.
pub const EEXIST: i32 = 17;
/// Invalid argument.
pub const EINVAL: i32 = 22;
/// Result too large.
pub const ERANGE: i32 = 34;
/// Resource temporarily unavailable.
pub const EAGAIN: i32 = 35;

} // verus!
