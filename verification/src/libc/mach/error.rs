//! `mach/mach_error.h`: `mach_error_string`.
//!
//! Follows XNU's `libsyscall/mach/mach_error_string.c`: pre-Mach-3 error
//! numbers are recoded first (`do_compat`), then the code is split into
//! the fields `| system(6) | subsystem(12) | code(14) |` of
//! `<mach/error.h>` and looked up in the string tables of
//! `err_kern.sub`, `err_ipc.sub` and `err_mach_ipc.sub` (wording and typos
//! included). The user-space (1), server (2), vm (7), libkern (0x37) and
//! iokit (0x38) tables are not carried: they answer "unknown error code",
//! as for a code out of range. The empty systems answer a null pointer.
use crate::mem64::{bytes_at, range_ok, Mem64};
use vstd::prelude::*;
use vstd::string::StringSliceAdditionalSpecFns;

verus! {

/// `NO_SUCH_ERROR` of `errorlib.h`.
pub open spec fn no_such_error() -> Seq<char> {
    "unknown error code"@
}

/// `bad_sub` of system 0.
pub open spec fn bad_sub_os() -> Seq<char> {
    "(operating system/?) unknown subsystem error"@
}

/// `bad_sub` of systems 3 and 4.
pub open spec fn bad_sub_ipc() -> Seq<char> {
    "(ipc/?) unknown subsystem error"@
}

/// The `MOD` of old IPC send errors.
pub const IPC_SEND_MOD: i32 = (3 << 26) | (0 << 14);
/// The `MOD` of old IPC receive errors.
pub const IPC_RCV_MOD: i32 = (3 << 26) | (1 << 14);
/// The `MOD` of Mach IPC MIG errors.
pub const MACH_IPC_MIG_MOD: i32 = (4 << 26) | (2 << 14);
/// The `MOD` of the net-name server's errors.
pub const SERV_NETNAME_MOD: i32 = (2 << 26) | (0 << 14);
/// The `MOD` of the environment server's errors.
pub const SERV_ENV_MOD: i32 = (2 << 26) | (1 << 14);
/// The `MOD` of the exec server's errors.
pub const SERV_EXECD_MOD: i32 = (2 << 26) | (2 << 14);

/// The strings of `err_codes_kern` (system 0, subsystem 0).
pub open spec fn kern_string(code: int) -> Option<Seq<char>> {
    if code == 0 {
        Some("(os/kern) successful"@)
    } else if code == 1 {
        Some("(os/kern) invalid address"@)
    } else if code == 2 {
        Some("(os/kern) protection failure"@)
    } else if code == 3 {
        Some("(os/kern) no space available"@)
    } else if code == 4 {
        Some("(os/kern) invalid argument"@)
    } else if code == 5 {
        Some("(os/kern) failure"@)
    } else if code == 6 {
        Some("(os/kern) resource shortage"@)
    } else if code == 7 {
        Some("(os/kern) not receiver"@)
    } else if code == 8 {
        Some("(os/kern) no access"@)
    } else if code == 9 {
        Some("(os/kern) memory failure"@)
    } else if code == 10 {
        Some("(os/kern) memory error"@)
    } else if code == 11 {
        Some("(os/kern) already in set"@)
    } else if code == 12 {
        Some("(os/kern) not in set"@)
    } else if code == 13 {
        Some("(os/kern) name exists"@)
    } else if code == 14 {
        Some("(os/kern) aborted"@)
    } else if code == 15 {
        Some("(os/kern) invalid name"@)
    } else if code == 16 {
        Some("(os/kern) invalid task"@)
    } else if code == 17 {
        Some("(os/kern) invalid right"@)
    } else if code == 18 {
        Some("(os/kern) invalid value"@)
    } else if code == 19 {
        Some("(os/kern) urefs overflow"@)
    } else if code == 20 {
        Some("(os/kern) invalid capability"@)
    } else if code == 21 {
        Some("(os/kern) right exists"@)
    } else if code == 22 {
        Some("(os/kern) invalid host"@)
    } else if code == 23 {
        Some("(os/kern) memory present"@)
    } else if code == 24 {
        Some("(os/kern) memory data moved"@)
    } else if code == 25 {
        Some("(os/kern) memory restart copy"@)
    } else if code == 26 {
        Some("(os/kern) invalid processor set"@)
    } else if code == 27 {
        Some("(os/kern) policy limit"@)
    } else if code == 28 {
        Some("(os/kern) invalid policy"@)
    } else if code == 29 {
        Some("(os/kern) invalid object"@)
    } else if code == 30 {
        Some("(os/kern) already waiting"@)
    } else if code == 31 {
        Some("(os/kern) default set"@)
    } else if code == 32 {
        Some("(os/kern) exception protected"@)
    } else if code == 33 {
        Some("(os/kern) invalid ledger"@)
    } else if code == 34 {
        Some("(os/kern) invalid memory control"@)
    } else if code == 35 {
        Some("(os/kern) invalid security"@)
    } else if code == 36 {
        Some("(os/kern) not depressed"@)
    } else if code == 37 {
        Some("(os/kern) object terminated"@)
    } else if code == 38 {
        Some("(os/kern) lock set destroyed"@)
    } else if code == 39 {
        Some("(os/kern) lock unstable"@)
    } else if code == 40 {
        Some("(os/kern) lock owned by another"@)
    } else if code == 41 {
        Some("(os/kern) lock owned by self"@)
    } else if code == 42 {
        Some("(os/kern) semaphore destroyed"@)
    } else if code == 43 {
        Some("(os/kern) RPC terminated"@)
    } else if code == 44 {
        Some("(os/kern) terminate orphan"@)
    } else if code == 45 {
        Some("(os/kern) let orphan continue"@)
    } else if code == 46 {
        Some("(os/kern) service not supported"@)
    } else if code == 47 {
        Some("(os/kern) remote node down"@)
    } else if code == 48 {
        Some("(os/kern) thread not waiting"@)
    } else if code == 49 {
        Some("(os/kern) operation timed out"@)
    } else if code == 50 {
        Some("(os/kern) code signing error"@)
    } else if code == 51 {
        Some("(os/kern) policy is static"@)
    } else if code == 52 {
        Some("(os/kern) insufficient input buffer size"@)
    } else if code == 53 {
        Some("(os/kern) denied by security policy"@)
    } else if code == 54 {
        Some("(os/kern) missing kernel collection"@)
    } else if code == 55 {
        Some("(os/kern) invalid kernel collection"@)
    } else if code == 56 {
        Some("(os/kern) result not found"@)
    } else {
        None
    }
}

/// Looks up a string of `err_codes_kern` (system 0, subsystem 0).
fn kern_table(code: usize) -> (r: Option<&'static str>)
    ensures
        match r {
            Some(s) => kern_string(code as int) == Some(s@),
            None => kern_string(code as int) is None,
        },
{
    match code {
        0 => Some("(os/kern) successful"),
        1 => Some("(os/kern) invalid address"),
        2 => Some("(os/kern) protection failure"),
        3 => Some("(os/kern) no space available"),
        4 => Some("(os/kern) invalid argument"),
        5 => Some("(os/kern) failure"),
        6 => Some("(os/kern) resource shortage"),
        7 => Some("(os/kern) not receiver"),
        8 => Some("(os/kern) no access"),
        9 => Some("(os/kern) memory failure"),
        10 => Some("(os/kern) memory error"),
        11 => Some("(os/kern) already in set"),
        12 => Some("(os/kern) not in set"),
        13 => Some("(os/kern) name exists"),
        14 => Some("(os/kern) aborted"),
        15 => Some("(os/kern) invalid name"),
        16 => Some("(os/kern) invalid task"),
        17 => Some("(os/kern) invalid right"),
        18 => Some("(os/kern) invalid value"),
        19 => Some("(os/kern) urefs overflow"),
        20 => Some("(os/kern) invalid capability"),
        21 => Some("(os/kern) right exists"),
        22 => Some("(os/kern) invalid host"),
        23 => Some("(os/kern) memory present"),
        24 => Some("(os/kern) memory data moved"),
        25 => Some("(os/kern) memory restart copy"),
        26 => Some("(os/kern) invalid processor set"),
        27 => Some("(os/kern) policy limit"),
        28 => Some("(os/kern) invalid policy"),
        29 => Some("(os/kern) invalid object"),
        30 => Some("(os/kern) already waiting"),
        31 => Some("(os/kern) default set"),
        32 => Some("(os/kern) exception protected"),
        33 => Some("(os/kern) invalid ledger"),
        34 => Some("(os/kern) invalid memory control"),
        35 => Some("(os/kern) invalid security"),
        36 => Some("(os/kern) not depressed"),
        37 => Some("(os/kern) object terminated"),
        38 => Some("(os/kern) lock set destroyed"),
        39 => Some("(os/kern) lock unstable"),
        40 => Some("(os/kern) lock owned by another"),
        41 => Some("(os/kern) lock owned by self"),
        42 => Some("(os/kern) semaphore destroyed"),
        43 => Some("(os/kern) RPC terminated"),
        44 => Some("(os/kern) terminate orphan"),
        45 => Some("(os/kern) let orphan continue"),
        46 => Some("(os/kern) service not supported"),
        47 => Some("(os/kern) remote node down"),
        48 => Some("(os/kern) thread not waiting"),
        49 => Some("(os/kern) operation timed out"),
        50 => Some("(os/kern) code signing error"),
        51 => Some("(os/kern) policy is static"),
        52 => Some("(os/kern) insufficient input buffer size"),
        53 => Some("(os/kern) denied by security policy"),
        54 => Some("(os/kern) missing kernel collection"),
        55 => Some("(os/kern) invalid kernel collection"),
        56 => Some("(os/kern) result not found"),
        _ => None,
    }
}

/// The strings of `err_codes_unix` (system 0, subsystem 3; the index is the errno value).
pub open spec fn unix_string(code: int) -> Option<Seq<char>> {
    if code == 0 {
        Some("unknown error code"@)
    } else if code == 1 {
        Some("(os/unix) no rights to object"@)
    } else if code == 2 {
        Some("(os/unix) file or directory does not exist"@)
    } else if code == 3 {
        Some("(os/unix) no such process"@)
    } else if code == 4 {
        Some("(os/unix) interrupted system call"@)
    } else if code == 5 {
        Some("(os/unix) i/o error"@)
    } else if code == 6 {
        Some("(os/unix) device does not exist"@)
    } else if code == 7 {
        Some("(os/unix) argument list is too long"@)
    } else if code == 8 {
        Some("(os/unix) invalid executable object format"@)
    } else if code == 9 {
        Some("(os/unix) bad file descriptor number"@)
    } else if code == 10 {
        Some("(os/unix) no child processes are present"@)
    } else if code == 11 {
        Some("(os/unix) no more processes are available"@)
    } else if code == 12 {
        Some("(os/unix) insufficient memory"@)
    } else if code == 13 {
        Some("(os/unix) access denied"@)
    } else if code == 14 {
        Some("(os/unix) memory access fault"@)
    } else if code == 15 {
        Some("(os/unix) block device required for operation"@)
    } else if code == 16 {
        Some("(os/unix) mount device busy"@)
    } else if code == 17 {
        Some("(os/unix) file already exists"@)
    } else if code == 18 {
        Some("(os/unix) cross device link"@)
    } else if code == 19 {
        Some("(os/unix) device does not exist"@)
    } else if code == 20 {
        Some("(os/unix) object is not a directory"@)
    } else if code == 21 {
        Some("(os/unix) object is a directory"@)
    } else if code == 22 {
        Some("(os/unix) invalid argument"@)
    } else if code == 23 {
        Some("(os/unix) internal file table overflow"@)
    } else if code == 24 {
        Some("(os/unix) maximum number of open files reached"@)
    } else if code == 25 {
        Some("(os/unix) object is not a tty-like device"@)
    } else if code == 26 {
        Some("(os/unix) executable object is in use"@)
    } else if code == 27 {
        Some("(os/unix) file is too large"@)
    } else if code == 28 {
        Some("(os/unix) no space is left on device"@)
    } else if code == 29 {
        Some("(os/unix) illegal seek attempt"@)
    } else if code == 30 {
        Some("(os/unix) read-only file system"@)
    } else if code == 31 {
        Some("(os/unix) too many links"@)
    } else if code == 32 {
        Some("(os/unix) broken pipe"@)
    } else if code == 33 {
        Some("(os/unix) argument is too large"@)
    } else if code == 34 {
        Some("(os/unix) result is out of range"@)
    } else if code == 35 {
        Some("(os/unix) operation on device would block"@)
    } else if code == 36 {
        Some("(os/unix) operation is now in progress"@)
    } else if code == 37 {
        Some("(os/unix) operation is already in progress"@)
    } else if code == 38 {
        Some("(os/unix) socket operation attempted on non-socket object"@)
    } else if code == 39 {
        Some("(os/unix) destination address is required"@)
    } else if code == 40 {
        Some("(os/unix) message is too long"@)
    } else if code == 41 {
        Some("(os/unix) protocol type is incorrect for socket"@)
    } else if code == 42 {
        Some("(os/unix) protocol type is not availaible"@)
    } else if code == 43 {
        Some("(os/unix) protocol type is not supported"@)
    } else if code == 44 {
        Some("(os/unix) socket type is not supported"@)
    } else if code == 45 {
        Some("(os/unix) operation is not supported on sockets"@)
    } else if code == 46 {
        Some("(os/unix) protocol family is not supported"@)
    } else if code == 47 {
        Some("(os/unix) address family is not supported by protocol family"@)
    } else if code == 48 {
        Some("(os/unix) address is already in use"@)
    } else if code == 49 {
        Some("(os/unix) can't assign requested address"@)
    } else if code == 50 {
        Some("(os/unix) network is down"@)
    } else if code == 51 {
        Some("(os/unix) network is unreachable"@)
    } else if code == 52 {
        Some("(os/unix) network dropped connection on reset"@)
    } else if code == 53 {
        Some("(os/unix) software aborted connection"@)
    } else if code == 54 {
        Some("(os/unix) connection reset by peer"@)
    } else if code == 55 {
        Some("(os/unix) no buffer space is available"@)
    } else if code == 56 {
        Some("(os/unix) socket is already connected"@)
    } else if code == 57 {
        Some("(os/unix) socket is not connected"@)
    } else if code == 58 {
        Some("(os/unix) can't send after socket shutdown"@)
    } else if code == 59 {
        Some("(os/unix) too many references; can't splice"@)
    } else if code == 60 {
        Some("(os/unix) connection timed out"@)
    } else if code == 61 {
        Some("(os/unix) connection was refused"@)
    } else if code == 62 {
        Some("(os/unix) too many levels of symbolic links"@)
    } else if code == 63 {
        Some("(os/unix) file name exceeds system maximum limit"@)
    } else if code == 64 {
        Some("(os/unix) host is down"@)
    } else if code == 65 {
        Some("(os/unix) there is no route to host"@)
    } else if code == 66 {
        Some("(os/unix) directory is not empty"@)
    } else if code == 67 {
        Some("(os/unix) quota on number of processes exceeded"@)
    } else if code == 68 {
        Some("(os/unix) quota on number of users exceeded"@)
    } else if code == 69 {
        Some("(os/unix) quota on available disk space exceeded"@)
    } else {
        None
    }
}

/// Looks up a string of `err_codes_unix` (system 0, subsystem 3; the index is the errno value).
fn unix_table(code: usize) -> (r: Option<&'static str>)
    ensures
        match r {
            Some(s) => unix_string(code as int) == Some(s@),
            None => unix_string(code as int) is None,
        },
{
    match code {
        0 => Some("unknown error code"),
        1 => Some("(os/unix) no rights to object"),
        2 => Some("(os/unix) file or directory does not exist"),
        3 => Some("(os/unix) no such process"),
        4 => Some("(os/unix) interrupted system call"),
        5 => Some("(os/unix) i/o error"),
        6 => Some("(os/unix) device does not exist"),
        7 => Some("(os/unix) argument list is too long"),
        8 => Some("(os/unix) invalid executable object format"),
        9 => Some("(os/unix) bad file descriptor number"),
        10 => Some("(os/unix) no child processes are present"),
        11 => Some("(os/unix) no more processes are available"),
        12 => Some("(os/unix) insufficient memory"),
        13 => Some("(os/unix) access denied"),
        14 => Some("(os/unix) memory access fault"),
        15 => Some("(os/unix) block device required for operation"),
        16 => Some("(os/unix) mount device busy"),
        17 => Some("(os/unix) file already exists"),
        18 => Some("(os/unix) cross device link"),
        19 => Some("(os/unix) device does not exist"),
        20 => Some("(os/unix) object is not a directory"),
        21 => Some("(os/unix) object is a directory"),
        22 => Some("(os/unix) invalid argument"),
        23 => Some("(os/unix) internal file table overflow"),
        24 => Some("(os/unix) maximum number of open files reached"),
        25 => Some("(os/unix) object is not a tty-like device"),
        26 => Some("(os/unix) executable object is in use"),
        27 => Some("(os/unix) file is too large"),
        28 => Some("(os/unix) no space is left on device"),
        29 => Some("(os/unix) illegal seek attempt"),
        30 => Some("(os/unix) read-only file system"),
        31 => Some("(os/unix) too many links"),
        32 => Some("(os/unix) broken pipe"),
        33 => Some("(os/unix) argument is too large"),
        34 => Some("(os/unix) result is out of range"),
        35 => Some("(os/unix) operation on device would block"),
        36 => Some("(os/unix) operation is now in progress"),
        37 => Some("(os/unix) operation is already in progress"),
        38 => Some("(os/unix) socket operation attempted on non-socket object"),
        39 => Some("(os/unix) destination address is required"),
        40 => Some("(os/unix) message is too long"),
        41 => Some("(os/unix) protocol type is incorrect for socket"),
        42 => Some("(os/unix) protocol type is not availaible"),
        43 => Some("(os/unix) protocol type is not supported"),
        44 => Some("(os/unix) socket type is not supported"),
        45 => Some("(os/unix) operation is not supported on sockets"),
        46 => Some("(os/unix) protocol family is not supported"),
        47 => Some("(os/unix) address family is not supported by protocol family"),
        48 => Some("(os/unix) address is already in use"),
        49 => Some("(os/unix) can't assign requested address"),
        50 => Some("(os/unix) network is down"),
        51 => Some("(os/unix) network is unreachable"),
        52 => Some("(os/unix) network dropped connection on reset"),
        53 => Some("(os/unix) software aborted connection"),
        54 => Some("(os/unix) connection reset by peer"),
        55 => Some("(os/unix) no buffer space is available"),
        56 => Some("(os/unix) socket is already connected"),
        57 => Some("(os/unix) socket is not connected"),
        58 => Some("(os/unix) can't send after socket shutdown"),
        59 => Some("(os/unix) too many references; can't splice"),
        60 => Some("(os/unix) connection timed out"),
        61 => Some("(os/unix) connection was refused"),
        62 => Some("(os/unix) too many levels of symbolic links"),
        63 => Some("(os/unix) file name exceeds system maximum limit"),
        64 => Some("(os/unix) host is down"),
        65 => Some("(os/unix) there is no route to host"),
        66 => Some("(os/unix) directory is not empty"),
        67 => Some("(os/unix) quota on number of processes exceeded"),
        68 => Some("(os/unix) quota on number of users exceeded"),
        69 => Some("(os/unix) quota on available disk space exceeded"),
        _ => None,
    }
}

/// The strings of old IPC send errors (system 3, subsystem 0).
pub open spec fn ipc_send_string(code: int) -> Option<Seq<char>> {
    if code == 0 {
        Some("(ipc/send) unknown error"@)
    } else if code == 1 {
        Some("(ipc/send) invalid memory"@)
    } else if code == 2 {
        Some("(ipc/send) invalid port"@)
    } else if code == 3 {
        Some("(ipc/send) timed out"@)
    } else if code == 4 {
        Some("(ipc/send) unused error"@)
    } else if code == 5 {
        Some("(ipc/send) will notify"@)
    } else if code == 6 {
        Some("(ipc/send) notify in progress"@)
    } else if code == 7 {
        Some("(ipc/send) kernel refused message"@)
    } else if code == 8 {
        Some("(ipc/send) send interrupted"@)
    } else if code == 9 {
        Some("(ipc/send) send message too large"@)
    } else if code == 10 {
        Some("(ipc/send) send message too small"@)
    } else if code == 11 {
        Some("(ipc/send) message size changed while being copied"@)
    } else {
        None
    }
}

/// Looks up a string of old IPC send errors (system 3, subsystem 0).
fn ipc_send_table(code: usize) -> (r: Option<&'static str>)
    ensures
        match r {
            Some(s) => ipc_send_string(code as int) == Some(s@),
            None => ipc_send_string(code as int) is None,
        },
{
    match code {
        0 => Some("(ipc/send) unknown error"),
        1 => Some("(ipc/send) invalid memory"),
        2 => Some("(ipc/send) invalid port"),
        3 => Some("(ipc/send) timed out"),
        4 => Some("(ipc/send) unused error"),
        5 => Some("(ipc/send) will notify"),
        6 => Some("(ipc/send) notify in progress"),
        7 => Some("(ipc/send) kernel refused message"),
        8 => Some("(ipc/send) send interrupted"),
        9 => Some("(ipc/send) send message too large"),
        10 => Some("(ipc/send) send message too small"),
        11 => Some("(ipc/send) message size changed while being copied"),
        _ => None,
    }
}

/// The strings of old IPC receive errors (system 3, subsystem 1).
pub open spec fn ipc_rcv_string(code: int) -> Option<Seq<char>> {
    if code == 0 {
        Some("(ipc/rcv) unknown error"@)
    } else if code == 1 {
        Some("(ipc/rcv) invalid memory"@)
    } else if code == 2 {
        Some("(ipc/rcv) invalid port"@)
    } else if code == 3 {
        Some("(ipc/rcv) receive timed out"@)
    } else if code == 4 {
        Some("(ipc/rcv) message too large"@)
    } else if code == 5 {
        Some("(ipc/rcv) no space for message data"@)
    } else if code == 6 {
        Some("(ipc/rcv) only sender remaining"@)
    } else if code == 7 {
        Some("(ipc/rcv) receive interrupted"@)
    } else if code == 8 {
        Some("(ipc/rcv) port receiver changed or port became enabled"@)
    } else {
        None
    }
}

/// Looks up a string of old IPC receive errors (system 3, subsystem 1).
fn ipc_rcv_table(code: usize) -> (r: Option<&'static str>)
    ensures
        match r {
            Some(s) => ipc_rcv_string(code as int) == Some(s@),
            None => ipc_rcv_string(code as int) is None,
        },
{
    match code {
        0 => Some("(ipc/rcv) unknown error"),
        1 => Some("(ipc/rcv) invalid memory"),
        2 => Some("(ipc/rcv) invalid port"),
        3 => Some("(ipc/rcv) receive timed out"),
        4 => Some("(ipc/rcv) message too large"),
        5 => Some("(ipc/rcv) no space for message data"),
        6 => Some("(ipc/rcv) only sender remaining"),
        7 => Some("(ipc/rcv) receive interrupted"),
        8 => Some("(ipc/rcv) port receiver changed or port became enabled"),
        _ => None,
    }
}

/// The strings of old IPC MIG errors (system 3, subsystem 2).
pub open spec fn ipc_mig_string(code: int) -> Option<Seq<char>> {
    if code == 0 {
        Some("(ipc/mig) type check failure in message interface"@)
    } else if code == 1 {
        Some("(ipc/mig) wrong return message ID"@)
    } else if code == 2 {
        Some("(ipc/mig) server detected error"@)
    } else if code == 3 {
        Some("(ipc/mig) bad message ID"@)
    } else if code == 4 {
        Some("(ipc/mig) server found wrong arguments"@)
    } else if code == 5 {
        Some("(ipc/mig) no reply should be sent"@)
    } else if code == 6 {
        Some("(ipc/mig) server raised exception"@)
    } else if code == 7 {
        Some("(ipc/mig) user specified array not large enough for return info"@)
    } else {
        None
    }
}

/// Looks up a string of old IPC MIG errors (system 3, subsystem 2).
fn ipc_mig_table(code: usize) -> (r: Option<&'static str>)
    ensures
        match r {
            Some(s) => ipc_mig_string(code as int) == Some(s@),
            None => ipc_mig_string(code as int) is None,
        },
{
    match code {
        0 => Some("(ipc/mig) type check failure in message interface"),
        1 => Some("(ipc/mig) wrong return message ID"),
        2 => Some("(ipc/mig) server detected error"),
        3 => Some("(ipc/mig) bad message ID"),
        4 => Some("(ipc/mig) server found wrong arguments"),
        5 => Some("(ipc/mig) no reply should be sent"),
        6 => Some("(ipc/mig) server raised exception"),
        7 => Some("(ipc/mig) user specified array not large enough for return info"),
        _ => None,
    }
}

/// The strings of Mach IPC send errors (system 4, subsystem 0).
pub open spec fn mach_send_string(code: int) -> Option<Seq<char>> {
    if code == 0 {
        Some("(ipc/send) no error"@)
    } else if code == 1 {
        Some("(ipc/send) send in progress"@)
    } else if code == 2 {
        Some("(ipc/send) invalid data"@)
    } else if code == 3 {
        Some("(ipc/send) invalid destination port"@)
    } else if code == 4 {
        Some("(ipc/send) timed out"@)
    } else if code == 5 {
        Some("(ipc/send) invalid voucher"@)
    } else if code == 6 {
        Some("(ipc/send) unused error"@)
    } else if code == 7 {
        Some("(ipc/send) interrupted"@)
    } else if code == 8 {
        Some("(ipc/send) msg too small"@)
    } else if code == 9 {
        Some("(ipc/send) invalid reply port"@)
    } else if code == 10 {
        Some("(ipc/send) invalid port right"@)
    } else if code == 11 {
        Some("(ipc/send) invalid notify port"@)
    } else if code == 12 {
        Some("(ipc/send) invalid memory"@)
    } else if code == 13 {
        Some("(ipc/send) no msg buffer"@)
    } else if code == 14 {
        Some("(ipc/send) msg too large"@)
    } else if code == 15 {
        Some("(ipc/send) invalid msg-type"@)
    } else if code == 16 {
        Some("(ipc/send) invalid msg-header"@)
    } else if code == 17 {
        Some("(ipc/send) invalid msg-trailer"@)
    } else if code == 18 {
        Some("(ipc/send) invalid context for reply"@)
    } else if code == 19 {
        Some("(ipc/send) unused error"@)
    } else if code == 20 {
        Some("(ipc/send) unused error"@)
    } else if code == 21 {
        Some("(ipc/send) out-of-line buffer too large"@)
    } else if code == 22 {
        Some("(ipc/send) destination does not accept OOL ports"@)
    } else {
        None
    }
}

/// Looks up a string of Mach IPC send errors (system 4, subsystem 0).
fn mach_send_table(code: usize) -> (r: Option<&'static str>)
    ensures
        match r {
            Some(s) => mach_send_string(code as int) == Some(s@),
            None => mach_send_string(code as int) is None,
        },
{
    match code {
        0 => Some("(ipc/send) no error"),
        1 => Some("(ipc/send) send in progress"),
        2 => Some("(ipc/send) invalid data"),
        3 => Some("(ipc/send) invalid destination port"),
        4 => Some("(ipc/send) timed out"),
        5 => Some("(ipc/send) invalid voucher"),
        6 => Some("(ipc/send) unused error"),
        7 => Some("(ipc/send) interrupted"),
        8 => Some("(ipc/send) msg too small"),
        9 => Some("(ipc/send) invalid reply port"),
        10 => Some("(ipc/send) invalid port right"),
        11 => Some("(ipc/send) invalid notify port"),
        12 => Some("(ipc/send) invalid memory"),
        13 => Some("(ipc/send) no msg buffer"),
        14 => Some("(ipc/send) msg too large"),
        15 => Some("(ipc/send) invalid msg-type"),
        16 => Some("(ipc/send) invalid msg-header"),
        17 => Some("(ipc/send) invalid msg-trailer"),
        18 => Some("(ipc/send) invalid context for reply"),
        19 => Some("(ipc/send) unused error"),
        20 => Some("(ipc/send) unused error"),
        21 => Some("(ipc/send) out-of-line buffer too large"),
        22 => Some("(ipc/send) destination does not accept OOL ports"),
        _ => None,
    }
}

/// The strings of Mach IPC receive errors (system 4, subsystem 1).
pub open spec fn mach_rcv_string(code: int) -> Option<Seq<char>> {
    if code == 0 {
        Some("(ipc/rcv) no error"@)
    } else if code == 1 {
        Some("(ipc/rcv) receive in progress"@)
    } else if code == 2 {
        Some("(ipc/rcv) invalid name"@)
    } else if code == 3 {
        Some("(ipc/rcv) timed out"@)
    } else if code == 4 {
        Some("(ipc/rcv) msg too large"@)
    } else if code == 5 {
        Some("(ipc/rcv) interrupted"@)
    } else if code == 6 {
        Some("(ipc/rcv) port changed"@)
    } else if code == 7 {
        Some("(ipc/rcv) invalid notify port"@)
    } else if code == 8 {
        Some("(ipc/rcv) invalid data"@)
    } else if code == 9 {
        Some("(ipc/rcv) port died"@)
    } else if code == 10 {
        Some("(ipc/rcv) port in set"@)
    } else if code == 11 {
        Some("(ipc/rcv) header error"@)
    } else if code == 12 {
        Some("(ipc/rcv) body error"@)
    } else if code == 13 {
        Some("(ipc/rcv) invalid scatter list entry"@)
    } else if code == 14 {
        Some("(ipc/rcv) overwrite region too small"@)
    } else if code == 15 {
        Some("(ipc/rcv) invalid msg-trailer"@)
    } else if code == 16 {
        Some("(ipc/rcv) DIPC transport error"@)
    } else {
        None
    }
}

/// Looks up a string of Mach IPC receive errors (system 4, subsystem 1).
fn mach_rcv_table(code: usize) -> (r: Option<&'static str>)
    ensures
        match r {
            Some(s) => mach_rcv_string(code as int) == Some(s@),
            None => mach_rcv_string(code as int) is None,
        },
{
    match code {
        0 => Some("(ipc/rcv) no error"),
        1 => Some("(ipc/rcv) receive in progress"),
        2 => Some("(ipc/rcv) invalid name"),
        3 => Some("(ipc/rcv) timed out"),
        4 => Some("(ipc/rcv) msg too large"),
        5 => Some("(ipc/rcv) interrupted"),
        6 => Some("(ipc/rcv) port changed"),
        7 => Some("(ipc/rcv) invalid notify port"),
        8 => Some("(ipc/rcv) invalid data"),
        9 => Some("(ipc/rcv) port died"),
        10 => Some("(ipc/rcv) port in set"),
        11 => Some("(ipc/rcv) header error"),
        12 => Some("(ipc/rcv) body error"),
        13 => Some("(ipc/rcv) invalid scatter list entry"),
        14 => Some("(ipc/rcv) overwrite region too small"),
        15 => Some("(ipc/rcv) invalid msg-trailer"),
        16 => Some("(ipc/rcv) DIPC transport error"),
        _ => None,
    }
}

/// The strings of Mach IPC MIG errors (system 4, subsystem 2).
pub open spec fn mach_mig_string(code: int) -> Option<Seq<char>> {
    if code == 0 {
        Some("(ipc/mig) client type check failure"@)
    } else if code == 1 {
        Some("(ipc/mig) wrong reply message ID"@)
    } else if code == 2 {
        Some("(ipc/mig) server detected error"@)
    } else if code == 3 {
        Some("(ipc/mig) bad request message ID"@)
    } else if code == 4 {
        Some("(ipc/mig) server type check failure"@)
    } else if code == 5 {
        Some("(ipc/mig) no reply should be sent"@)
    } else if code == 6 {
        Some("(ipc/mig) server raised exception"@)
    } else if code == 7 {
        Some("(ipc/mig) array not large enough"@)
    } else if code == 8 {
        Some("(ipc/mig) server died"@)
    } else if code == 9 {
        Some("(ipc/mig) unknown trailer format"@)
    } else {
        None
    }
}

/// Looks up a string of Mach IPC MIG errors (system 4, subsystem 2).
fn mach_mig_table(code: usize) -> (r: Option<&'static str>)
    ensures
        match r {
            Some(s) => mach_mig_string(code as int) == Some(s@),
            None => mach_mig_string(code as int) is None,
        },
{
    match code {
        0 => Some("(ipc/mig) client type check failure"),
        1 => Some("(ipc/mig) wrong reply message ID"),
        2 => Some("(ipc/mig) server detected error"),
        3 => Some("(ipc/mig) bad request message ID"),
        4 => Some("(ipc/mig) server type check failure"),
        5 => Some("(ipc/mig) no reply should be sent"),
        6 => Some("(ipc/mig) server raised exception"),
        7 => Some("(ipc/mig) array not large enough"),
        8 => Some("(ipc/mig) server died"),
        9 => Some("(ipc/mig) unknown trailer format"),
        _ => None,
    }
}

/// The string of the code `code` in a table, or "unknown error code" past
/// its end.
pub open spec fn table_or_unknown(entry: Option<Seq<char>>) -> Seq<char> {
    match entry {
        Some(s) => s,
        None => no_such_error(),
    }
}

fn or_unknown(entry: Option<&'static str>) -> (r: &'static str)
    ensures
        r@ == table_or_unknown(
            match entry {
                Some(s) => Some(s@),
                None => None,
            },
        ),
{
    match entry {
        Some(s) => s,
        None => "unknown error code",
    }
}

/// What `do_compat` makes of an error number: pre-Mach-3 numbers are
/// moved into the system and subsystem they belong to.
pub open spec fn compat_code(err: i32) -> i32 {
    if err > -200 && err <= -100 {
        ((-(err + 100)) as i32) | IPC_SEND_MOD
    } else if err > -300 && err <= -200 {
        ((-(err + 200)) as i32) | IPC_RCV_MOD
    } else if err > -400 && err <= -300 {
        ((-(err + 300)) as i32) | MACH_IPC_MIG_MOD
    } else if 1000 <= err < 1100 {
        ((err - 1000) as i32) | SERV_NETNAME_MOD
    } else if 1600 <= err < 1700 {
        ((err - 1600) as i32) | SERV_ENV_MOD
    } else if 27600 <= err < 27700 {
        ((err - 27600) as i32) | SERV_EXECD_MOD
    } else {
        err
    }
}

/// `do_compat()`: recodes pre-Mach-3 error numbers.
pub fn do_compat(err: i32) -> (r: i32)
    ensures
        r == compat_code(err),
{
    if err > -200 && err <= -100 {
        -(err + 100) | IPC_SEND_MOD
    } else if err > -300 && err <= -200 {
        -(err + 200) | IPC_RCV_MOD
    } else if err > -400 && err <= -300 {
        -(err + 300) | MACH_IPC_MIG_MOD
    } else if 1000 <= err && err < 1100 {
        (err - 1000) | SERV_NETNAME_MOD
    } else if 1600 <= err && err < 1700 {
        (err - 1600) | SERV_ENV_MOD
    } else if 27600 <= err && err < 27700 {
        (err - 27600) | SERV_EXECD_MOD
    } else {
        err
    }
}

/// The string that `mach_error_string` gives for `err`, or `None` for the
/// null pointer of the empty systems.
pub open spec fn error_string(err: i32) -> Option<Seq<char>> {
    let e = compat_code(err);
    let system = (e >> 26i32) & 0x3f;
    let sub = (e >> 14i32) & 0xfff;
    let code = (e & 0x3fff) as int;
    if system == 0 {
        if sub == 0 {
            Some(table_or_unknown(kern_string(code)))
        } else if sub == 1 || sub == 2 {
            Some(no_such_error())
        } else if sub == 3 {
            Some(table_or_unknown(unix_string(code)))
        } else {
            Some(bad_sub_os())
        }
    } else if system == 3 {
        if sub == 0 {
            Some(table_or_unknown(ipc_send_string(code)))
        } else if sub == 1 {
            Some(table_or_unknown(ipc_rcv_string(code)))
        } else if sub == 2 {
            Some(table_or_unknown(ipc_mig_string(code)))
        } else {
            Some(bad_sub_ipc())
        }
    } else if system == 4 {
        if sub == 0 {
            Some(table_or_unknown(mach_send_string(code)))
        } else if sub == 1 {
            Some(table_or_unknown(mach_rcv_string(code)))
        } else if sub == 2 {
            Some(table_or_unknown(mach_mig_string(code)))
        } else {
            Some(bad_sub_ipc())
        }
    } else if system == 1 || system == 2 || system == 7 || system == 0x37 || system == 0x38 {
        Some(no_such_error())
    } else if system == 5 || system == 6 || (8 <= system <= 0x36) || (0x39 <= system <= 0x3f) {
        None
    } else {
        Some(no_such_error())
    }
}

/// Finds the string for `err`, or `None` for the null pointer of the empty
/// systems.
pub fn lookup(err: i32) -> (r: Option<&'static str>)
    ensures
        match r {
            Some(s) => error_string(err) == Some(s@),
            None => error_string(err) is None,
        },
{
    let err = do_compat(err);
    let system = (err >> 26) & 0x3f;
    let sub = (err >> 14) & 0xfff;
    let code = (err & 0x3fff) as usize;
    assert(0 <= (err & 0x3fff) < 0x4000) by (bit_vector);
    if system == 0 {
        if sub == 0 {
            Some(or_unknown(kern_table(code)))
        } else if sub == 1 || sub == 2 {
            Some("unknown error code")
        } else if sub == 3 {
            Some(or_unknown(unix_table(code)))
        } else {
            Some("(operating system/?) unknown subsystem error")
        }
    } else if system == 3 {
        if sub == 0 {
            Some(or_unknown(ipc_send_table(code)))
        } else if sub == 1 {
            Some(or_unknown(ipc_rcv_table(code)))
        } else if sub == 2 {
            Some(or_unknown(ipc_mig_table(code)))
        } else {
            Some("(ipc/?) unknown subsystem error")
        }
    } else if system == 4 {
        if sub == 0 {
            Some(or_unknown(mach_send_table(code)))
        } else if sub == 1 {
            Some(or_unknown(mach_rcv_table(code)))
        } else if sub == 2 {
            Some(or_unknown(mach_mig_table(code)))
        } else {
            Some("(ipc/?) unknown subsystem error")
        }
    } else if system == 1 || system == 2 || system == 7 || system == 0x37 || system == 0x38 {
        Some("unknown error code")
    } else if system == 5 || system == 6 || (8 <= system && system <= 0x36) || (0x39 <= system
        && system <= 0x3f) {
        None
    } else {
        Some("unknown error code")
    }
}

/// The entries of [mach_send_string]: the first 23 codes have one, each beginning
/// with `(ipc/send)`; later codes have none.
proof fn lemma_mach_send_string_entries(code: int)
    ensures
        0 <= code < 23 ==> (mach_send_string(code) matches Some(e) && e.len() >= 11 && e.subrange(0, 11) == "(ipc/send) "@),
        code < 0 || code >= 23 ==> mach_send_string(code) is None,
{
    if code == 0 {
        reveal_strlit("(ipc/send) no error");
        reveal_strlit("(ipc/send) ");
        assert(mach_send_string(code)->0.subrange(0, 11) =~= "(ipc/send) "@);
    } else if code == 1 {
        reveal_strlit("(ipc/send) send in progress");
        reveal_strlit("(ipc/send) ");
        assert(mach_send_string(code)->0.subrange(0, 11) =~= "(ipc/send) "@);
    } else if code == 2 {
        reveal_strlit("(ipc/send) invalid data");
        reveal_strlit("(ipc/send) ");
        assert(mach_send_string(code)->0.subrange(0, 11) =~= "(ipc/send) "@);
    } else if code == 3 {
        reveal_strlit("(ipc/send) invalid destination port");
        reveal_strlit("(ipc/send) ");
        assert(mach_send_string(code)->0.subrange(0, 11) =~= "(ipc/send) "@);
    } else if code == 4 {
        reveal_strlit("(ipc/send) timed out");
        reveal_strlit("(ipc/send) ");
        assert(mach_send_string(code)->0.subrange(0, 11) =~= "(ipc/send) "@);
    } else if code == 5 {
        reveal_strlit("(ipc/send) invalid voucher");
        reveal_strlit("(ipc/send) ");
        assert(mach_send_string(code)->0.subrange(0, 11) =~= "(ipc/send) "@);
    } else if code == 6 {
        reveal_strlit("(ipc/send) unused error");
        reveal_strlit("(ipc/send) ");
        assert(mach_send_string(code)->0.subrange(0, 11) =~= "(ipc/send) "@);
    } else if code == 7 {
        reveal_strlit("(ipc/send) interrupted");
        reveal_strlit("(ipc/send) ");
        assert(mach_send_string(code)->0.subrange(0, 11) =~= "(ipc/send) "@);
    } else if code == 8 {
        reveal_strlit("(ipc/send) msg too small");
        reveal_strlit("(ipc/send) ");
        assert(mach_send_string(code)->0.subrange(0, 11) =~= "(ipc/send) "@);
    } else if code == 9 {
        reveal_strlit("(ipc/send) invalid reply port");
        reveal_strlit("(ipc/send) ");
        assert(mach_send_string(code)->0.subrange(0, 11) =~= "(ipc/send) "@);
    } else if code == 10 {
        reveal_strlit("(ipc/send) invalid port right");
        reveal_strlit("(ipc/send) ");
        assert(mach_send_string(code)->0.subrange(0, 11) =~= "(ipc/send) "@);
    } else if code == 11 {
        reveal_strlit("(ipc/send) invalid notify port");
        reveal_strlit("(ipc/send) ");
        assert(mach_send_string(code)->0.subrange(0, 11) =~= "(ipc/send) "@);
    } else if code == 12 {
        reveal_strlit("(ipc/send) invalid memory");
        reveal_strlit("(ipc/send) ");
        assert(mach_send_string(code)->0.subrange(0, 11) =~= "(ipc/send) "@);
    } else if code == 13 {
        reveal_strlit("(ipc/send) no msg buffer");
        reveal_strlit("(ipc/send) ");
        assert(mach_send_string(code)->0.subrange(0, 11) =~= "(ipc/send) "@);
    } else if code == 14 {
        reveal_strlit("(ipc/send) msg too large");
        reveal_strlit("(ipc/send) ");
        assert(mach_send_string(code)->0.subrange(0, 11) =~= "(ipc/send) "@);
    } else if code == 15 {
        reveal_strlit("(ipc/send) invalid msg-type");
        reveal_strlit("(ipc/send) ");
        assert(mach_send_string(code)->0.subrange(0, 11) =~= "(ipc/send) "@);
    } else if code == 16 {
        reveal_strlit("(ipc/send) invalid msg-header");
        reveal_strlit("(ipc/send) ");
        assert(mach_send_string(code)->0.subrange(0, 11) =~= "(ipc/send) "@);
    } else if code == 17 {
        reveal_strlit("(ipc/send) invalid msg-trailer");
        reveal_strlit("(ipc/send) ");
        assert(mach_send_string(code)->0.subrange(0, 11) =~= "(ipc/send) "@);
    } else if code == 18 {
        reveal_strlit("(ipc/send) invalid context for reply");
        reveal_strlit("(ipc/send) ");
        assert(mach_send_string(code)->0.subrange(0, 11) =~= "(ipc/send) "@);
    } else if code == 19 {
        reveal_strlit("(ipc/send) unused error");
        reveal_strlit("(ipc/send) ");
        assert(mach_send_string(code)->0.subrange(0, 11) =~= "(ipc/send) "@);
    } else if code == 20 {
        reveal_strlit("(ipc/send) unused error");
        reveal_strlit("(ipc/send) ");
        assert(mach_send_string(code)->0.subrange(0, 11) =~= "(ipc/send) "@);
    } else if code == 21 {
        reveal_strlit("(ipc/send) out-of-line buffer too large");
        reveal_strlit("(ipc/send) ");
        assert(mach_send_string(code)->0.subrange(0, 11) =~= "(ipc/send) "@);
    } else if code == 22 {
        reveal_strlit("(ipc/send) destination does not accept OOL ports");
        reveal_strlit("(ipc/send) ");
        assert(mach_send_string(code)->0.subrange(0, 11) =~= "(ipc/send) "@);
    }
}

/// The entries of [mach_rcv_string]: the first 17 codes have one, each beginning
/// with `(ipc/rcv)`; later codes have none.
proof fn lemma_mach_rcv_string_entries(code: int)
    ensures
        0 <= code < 17 ==> (mach_rcv_string(code) matches Some(e) && e.len() >= 10 && e.subrange(0, 10) == "(ipc/rcv) "@),
        code < 0 || code >= 17 ==> mach_rcv_string(code) is None,
{
    if code == 0 {
        reveal_strlit("(ipc/rcv) no error");
        reveal_strlit("(ipc/rcv) ");
        assert(mach_rcv_string(code)->0.subrange(0, 10) =~= "(ipc/rcv) "@);
    } else if code == 1 {
        reveal_strlit("(ipc/rcv) receive in progress");
        reveal_strlit("(ipc/rcv) ");
        assert(mach_rcv_string(code)->0.subrange(0, 10) =~= "(ipc/rcv) "@);
    } else if code == 2 {
        reveal_strlit("(ipc/rcv) invalid name");
        reveal_strlit("(ipc/rcv) ");
        assert(mach_rcv_string(code)->0.subrange(0, 10) =~= "(ipc/rcv) "@);
    } else if code == 3 {
        reveal_strlit("(ipc/rcv) timed out");
        reveal_strlit("(ipc/rcv) ");
        assert(mach_rcv_string(code)->0.subrange(0, 10) =~= "(ipc/rcv) "@);
    } else if code == 4 {
        reveal_strlit("(ipc/rcv) msg too large");
        reveal_strlit("(ipc/rcv) ");
        assert(mach_rcv_string(code)->0.subrange(0, 10) =~= "(ipc/rcv) "@);
    } else if code == 5 {
        reveal_strlit("(ipc/rcv) interrupted");
        reveal_strlit("(ipc/rcv) ");
        assert(mach_rcv_string(code)->0.subrange(0, 10) =~= "(ipc/rcv) "@);
    } else if code == 6 {
        reveal_strlit("(ipc/rcv) port changed");
        reveal_strlit("(ipc/rcv) ");
        assert(mach_rcv_string(code)->0.subrange(0, 10) =~= "(ipc/rcv) "@);
    } else if code == 7 {
        reveal_strlit("(ipc/rcv) invalid notify port");
        reveal_strlit("(ipc/rcv) ");
        assert(mach_rcv_string(code)->0.subrange(0, 10) =~= "(ipc/rcv) "@);
    } else if code == 8 {
        reveal_strlit("(ipc/rcv) invalid data");
        reveal_strlit("(ipc/rcv) ");
        assert(mach_rcv_string(code)->0.subrange(0, 10) =~= "(ipc/rcv) "@);
    } else if code == 9 {
        reveal_strlit("(ipc/rcv) port died");
        reveal_strlit("(ipc/rcv) ");
        assert(mach_rcv_string(code)->0.subrange(0, 10) =~= "(ipc/rcv) "@);
    } else if code == 10 {
        reveal_strlit("(ipc/rcv) port in set");
        reveal_strlit("(ipc/rcv) ");
        assert(mach_rcv_string(code)->0.subrange(0, 10) =~= "(ipc/rcv) "@);
    } else if code == 11 {
        reveal_strlit("(ipc/rcv) header error");
        reveal_strlit("(ipc/rcv) ");
        assert(mach_rcv_string(code)->0.subrange(0, 10) =~= "(ipc/rcv) "@);
    } else if code == 12 {
        reveal_strlit("(ipc/rcv) body error");
        reveal_strlit("(ipc/rcv) ");
        assert(mach_rcv_string(code)->0.subrange(0, 10) =~= "(ipc/rcv) "@);
    } else if code == 13 {
        reveal_strlit("(ipc/rcv) invalid scatter list entry");
        reveal_strlit("(ipc/rcv) ");
        assert(mach_rcv_string(code)->0.subrange(0, 10) =~= "(ipc/rcv) "@);
    } else if code == 14 {
        reveal_strlit("(ipc/rcv) overwrite region too small");
        reveal_strlit("(ipc/rcv) ");
        assert(mach_rcv_string(code)->0.subrange(0, 10) =~= "(ipc/rcv) "@);
    } else if code == 15 {
        reveal_strlit("(ipc/rcv) invalid msg-trailer");
        reveal_strlit("(ipc/rcv) ");
        assert(mach_rcv_string(code)->0.subrange(0, 10) =~= "(ipc/rcv) "@);
    } else if code == 16 {
        reveal_strlit("(ipc/rcv) DIPC transport error");
        reveal_strlit("(ipc/rcv) ");
        assert(mach_rcv_string(code)->0.subrange(0, 10) =~= "(ipc/rcv) "@);
    }
}

/// The entries of [mach_mig_string]: the first 10 codes have one, each beginning
/// with `(ipc/mig)`; later codes have none.
proof fn lemma_mach_mig_string_entries(code: int)
    ensures
        0 <= code < 10 ==> (mach_mig_string(code) matches Some(e) && e.len() >= 10 && e.subrange(0, 10) == "(ipc/mig) "@),
        code < 0 || code >= 10 ==> mach_mig_string(code) is None,
{
    if code == 0 {
        reveal_strlit("(ipc/mig) client type check failure");
        reveal_strlit("(ipc/mig) ");
        assert(mach_mig_string(code)->0.subrange(0, 10) =~= "(ipc/mig) "@);
    } else if code == 1 {
        reveal_strlit("(ipc/mig) wrong reply message ID");
        reveal_strlit("(ipc/mig) ");
        assert(mach_mig_string(code)->0.subrange(0, 10) =~= "(ipc/mig) "@);
    } else if code == 2 {
        reveal_strlit("(ipc/mig) server detected error");
        reveal_strlit("(ipc/mig) ");
        assert(mach_mig_string(code)->0.subrange(0, 10) =~= "(ipc/mig) "@);
    } else if code == 3 {
        reveal_strlit("(ipc/mig) bad request message ID");
        reveal_strlit("(ipc/mig) ");
        assert(mach_mig_string(code)->0.subrange(0, 10) =~= "(ipc/mig) "@);
    } else if code == 4 {
        reveal_strlit("(ipc/mig) server type check failure");
        reveal_strlit("(ipc/mig) ");
        assert(mach_mig_string(code)->0.subrange(0, 10) =~= "(ipc/mig) "@);
    } else if code == 5 {
        reveal_strlit("(ipc/mig) no reply should be sent");
        reveal_strlit("(ipc/mig) ");
        assert(mach_mig_string(code)->0.subrange(0, 10) =~= "(ipc/mig) "@);
    } else if code == 6 {
        reveal_strlit("(ipc/mig) server raised exception");
        reveal_strlit("(ipc/mig) ");
        assert(mach_mig_string(code)->0.subrange(0, 10) =~= "(ipc/mig) "@);
    } else if code == 7 {
        reveal_strlit("(ipc/mig) array not large enough");
        reveal_strlit("(ipc/mig) ");
        assert(mach_mig_string(code)->0.subrange(0, 10) =~= "(ipc/mig) "@);
    } else if code == 8 {
        reveal_strlit("(ipc/mig) server died");
        reveal_strlit("(ipc/mig) ");
        assert(mach_mig_string(code)->0.subrange(0, 10) =~= "(ipc/mig) "@);
    } else if code == 9 {
        reveal_strlit("(ipc/mig) unknown trailer format");
        reveal_strlit("(ipc/mig) ");
        assert(mach_mig_string(code)->0.subrange(0, 10) =~= "(ipc/mig) "@);
    }
}

/// The entries of [ipc_send_string]: the first 12 codes have one, each beginning
/// with `(ipc/send)`; later codes have none.
proof fn lemma_ipc_send_string_entries(code: int)
    ensures
        0 <= code < 12 ==> (ipc_send_string(code) matches Some(e) && e.len() >= 11 && e.subrange(0, 11) == "(ipc/send) "@),
        code < 0 || code >= 12 ==> ipc_send_string(code) is None,
{
    if code == 0 {
        reveal_strlit("(ipc/send) unknown error");
        reveal_strlit("(ipc/send) ");
        assert(ipc_send_string(code)->0.subrange(0, 11) =~= "(ipc/send) "@);
    } else if code == 1 {
        reveal_strlit("(ipc/send) invalid memory");
        reveal_strlit("(ipc/send) ");
        assert(ipc_send_string(code)->0.subrange(0, 11) =~= "(ipc/send) "@);
    } else if code == 2 {
        reveal_strlit("(ipc/send) invalid port");
        reveal_strlit("(ipc/send) ");
        assert(ipc_send_string(code)->0.subrange(0, 11) =~= "(ipc/send) "@);
    } else if code == 3 {
        reveal_strlit("(ipc/send) timed out");
        reveal_strlit("(ipc/send) ");
        assert(ipc_send_string(code)->0.subrange(0, 11) =~= "(ipc/send) "@);
    } else if code == 4 {
        reveal_strlit("(ipc/send) unused error");
        reveal_strlit("(ipc/send) ");
        assert(ipc_send_string(code)->0.subrange(0, 11) =~= "(ipc/send) "@);
    } else if code == 5 {
        reveal_strlit("(ipc/send) will notify");
        reveal_strlit("(ipc/send) ");
        assert(ipc_send_string(code)->0.subrange(0, 11) =~= "(ipc/send) "@);
    } else if code == 6 {
        reveal_strlit("(ipc/send) notify in progress");
        reveal_strlit("(ipc/send) ");
        assert(ipc_send_string(code)->0.subrange(0, 11) =~= "(ipc/send) "@);
    } else if code == 7 {
        reveal_strlit("(ipc/send) kernel refused message");
        reveal_strlit("(ipc/send) ");
        assert(ipc_send_string(code)->0.subrange(0, 11) =~= "(ipc/send) "@);
    } else if code == 8 {
        reveal_strlit("(ipc/send) send interrupted");
        reveal_strlit("(ipc/send) ");
        assert(ipc_send_string(code)->0.subrange(0, 11) =~= "(ipc/send) "@);
    } else if code == 9 {
        reveal_strlit("(ipc/send) send message too large");
        reveal_strlit("(ipc/send) ");
        assert(ipc_send_string(code)->0.subrange(0, 11) =~= "(ipc/send) "@);
    } else if code == 10 {
        reveal_strlit("(ipc/send) send message too small");
        reveal_strlit("(ipc/send) ");
        assert(ipc_send_string(code)->0.subrange(0, 11) =~= "(ipc/send) "@);
    } else if code == 11 {
        reveal_strlit("(ipc/send) message size changed while being copied");
        reveal_strlit("(ipc/send) ");
        assert(ipc_send_string(code)->0.subrange(0, 11) =~= "(ipc/send) "@);
    }
}

/// The entries of [ipc_rcv_string]: the first 9 codes have one, each beginning
/// with `(ipc/rcv)`; later codes have none.
proof fn lemma_ipc_rcv_string_entries(code: int)
    ensures
        0 <= code < 9 ==> (ipc_rcv_string(code) matches Some(e) && e.len() >= 10 && e.subrange(0, 10) == "(ipc/rcv) "@),
        code < 0 || code >= 9 ==> ipc_rcv_string(code) is None,
{
    if code == 0 {
        reveal_strlit("(ipc/rcv) unknown error");
        reveal_strlit("(ipc/rcv) ");
        assert(ipc_rcv_string(code)->0.subrange(0, 10) =~= "(ipc/rcv) "@);
    } else if code == 1 {
        reveal_strlit("(ipc/rcv) invalid memory");
        reveal_strlit("(ipc/rcv) ");
        assert(ipc_rcv_string(code)->0.subrange(0, 10) =~= "(ipc/rcv) "@);
    } else if code == 2 {
        reveal_strlit("(ipc/rcv) invalid port");
        reveal_strlit("(ipc/rcv) ");
        assert(ipc_rcv_string(code)->0.subrange(0, 10) =~= "(ipc/rcv) "@);
    } else if code == 3 {
        reveal_strlit("(ipc/rcv) receive timed out");
        reveal_strlit("(ipc/rcv) ");
        assert(ipc_rcv_string(code)->0.subrange(0, 10) =~= "(ipc/rcv) "@);
    } else if code == 4 {
        reveal_strlit("(ipc/rcv) message too large");
        reveal_strlit("(ipc/rcv) ");
        assert(ipc_rcv_string(code)->0.subrange(0, 10) =~= "(ipc/rcv) "@);
    } else if code == 5 {
        reveal_strlit("(ipc/rcv) no space for message data");
        reveal_strlit("(ipc/rcv) ");
        assert(ipc_rcv_string(code)->0.subrange(0, 10) =~= "(ipc/rcv) "@);
    } else if code == 6 {
        reveal_strlit("(ipc/rcv) only sender remaining");
        reveal_strlit("(ipc/rcv) ");
        assert(ipc_rcv_string(code)->0.subrange(0, 10) =~= "(ipc/rcv) "@);
    } else if code == 7 {
        reveal_strlit("(ipc/rcv) receive interrupted");
        reveal_strlit("(ipc/rcv) ");
        assert(ipc_rcv_string(code)->0.subrange(0, 10) =~= "(ipc/rcv) "@);
    } else if code == 8 {
        reveal_strlit("(ipc/rcv) port receiver changed or port became enabled");
        reveal_strlit("(ipc/rcv) ");
        assert(ipc_rcv_string(code)->0.subrange(0, 10) =~= "(ipc/rcv) "@);
    }
}

/// The entries of [ipc_mig_string]: the first 8 codes have one, each beginning
/// with `(ipc/mig)`; later codes have none.
proof fn lemma_ipc_mig_string_entries(code: int)
    ensures
        0 <= code < 8 ==> (ipc_mig_string(code) matches Some(e) && e.len() >= 10 && e.subrange(0, 10) == "(ipc/mig) "@),
        code < 0 || code >= 8 ==> ipc_mig_string(code) is None,
{
    if code == 0 {
        reveal_strlit("(ipc/mig) type check failure in message interface");
        reveal_strlit("(ipc/mig) ");
        assert(ipc_mig_string(code)->0.subrange(0, 10) =~= "(ipc/mig) "@);
    } else if code == 1 {
        reveal_strlit("(ipc/mig) wrong return message ID");
        reveal_strlit("(ipc/mig) ");
        assert(ipc_mig_string(code)->0.subrange(0, 10) =~= "(ipc/mig) "@);
    } else if code == 2 {
        reveal_strlit("(ipc/mig) server detected error");
        reveal_strlit("(ipc/mig) ");
        assert(ipc_mig_string(code)->0.subrange(0, 10) =~= "(ipc/mig) "@);
    } else if code == 3 {
        reveal_strlit("(ipc/mig) bad message ID");
        reveal_strlit("(ipc/mig) ");
        assert(ipc_mig_string(code)->0.subrange(0, 10) =~= "(ipc/mig) "@);
    } else if code == 4 {
        reveal_strlit("(ipc/mig) server found wrong arguments");
        reveal_strlit("(ipc/mig) ");
        assert(ipc_mig_string(code)->0.subrange(0, 10) =~= "(ipc/mig) "@);
    } else if code == 5 {
        reveal_strlit("(ipc/mig) no reply should be sent");
        reveal_strlit("(ipc/mig) ");
        assert(ipc_mig_string(code)->0.subrange(0, 10) =~= "(ipc/mig) "@);
    } else if code == 6 {
        reveal_strlit("(ipc/mig) server raised exception");
        reveal_strlit("(ipc/mig) ");
        assert(ipc_mig_string(code)->0.subrange(0, 10) =~= "(ipc/mig) "@);
    } else if code == 7 {
        reveal_strlit("(ipc/mig) user specified array not large enough for return info");
        reveal_strlit("(ipc/mig) ");
        assert(ipc_mig_string(code)->0.subrange(0, 10) =~= "(ipc/mig) "@);
    }
}

/// The prefix that the strings of IPC subsystem `sub` begin with: send
/// errors (0), receive errors (1) and MIG errors (2).
pub open spec fn ipc_prefix(sub: int) -> Seq<char> {
    if sub == 0 {
        "(ipc/send) "@
    } else if sub == 1 {
        "(ipc/rcv) "@
    } else {
        "(ipc/mig) "@
    }
}

/// How many codes the string table of IPC subsystem `sub` of `system`
/// (3 for the old IPC errors, 4 for Mach IPC) describes.
pub open spec fn ipc_table_len(system: int, sub: int) -> int {
    if system == 4 {
        if sub == 0 { 23 } else if sub == 1 { 17 } else { 10 }
    } else {
        if sub == 0 { 12 } else if sub == 1 { 9 } else { 8 }
    }
}

/// The fields of an error number made of `system`, `sub` and `code`.
proof fn lemma_error_fields(system: i32, sub: i32, code: i32)
    requires
        3 <= system <= 4,
        0 <= sub <= 2,
        0 <= code < 0x4000,
    ensures
        ({
            let e = (system * 0x400_0000 + sub * 0x4000 + code) as i32;
            &&& e >= 0x0c00_0000
            &&& (e >> 26i32) & 0x3f == system
            &&& (e >> 14i32) & 0xfff == sub
            &&& e & 0x3fff == code
        }),
{
    assert(({
        let e = (system * 0x400_0000 + sub * 0x4000 + code) as i32;
        &&& e >= 0x0c00_0000
        &&& (e >> 26i32) & 0x3f == system
        &&& (e >> 14i32) & 0xfff == sub
        &&& e & 0x3fff == code
    })) by (bit_vector)
        requires
            3 <= system <= 4,
            0 <= sub <= 2,
            0 <= code < 0x4000,
    ;
}

/// An IPC error is described by the table of its own subsystem: for the
/// Mach IPC errors (system 4) and the old IPC errors (system 3), a code of
/// subsystem 0 is described as a send error, of subsystem 1 as a receive
/// error and of subsystem 2 as a MIG error, for each code its table has;
/// a code past the table is "unknown error code".
pub proof fn law_ipc_errors_name_their_subsystem(system: i32, sub: i32, code: i32)
    requires
        3 <= system <= 4,
        0 <= sub <= 2,
        0 <= code < 0x4000,
    ensures
        ({
            let e = (system * 0x400_0000 + sub * 0x4000 + code) as i32;
            let pre = ipc_prefix(sub as int);
            error_string(e) matches Some(s) && (code < ipc_table_len(system as int, sub as int) ==> s.len()
                >= pre.len() && s.subrange(0, pre.len() as int) == pre) && (code >= ipc_table_len(
                system as int,
                sub as int,
            ) ==> s == no_such_error())
        }),
{
    lemma_error_fields(system, sub, code);
    let e = (system * 0x400_0000 + sub * 0x4000 + code) as i32;
    assert(compat_code(e) == e);
    let c = code as int;
    lemma_mach_send_string_entries(c);
    lemma_mach_rcv_string_entries(c);
    lemma_mach_mig_string_entries(c);
    lemma_ipc_send_string_entries(c);
    lemma_ipc_rcv_string_entries(c);
    lemma_ipc_mig_string_entries(c);
}

/// The guest copies of the error strings handed out so far: each error
/// number's string is copied into guest memory once and reused.
pub struct State {
    strings_cache: Vec<(i32, u64)>,
}

/// The guest string cached for `err` in `cache`, the first entry for it.
pub open spec fn cached_string(cache: Seq<(i32, u64)>, err: i32) -> Option<u64>
    decreases cache.len(),
{
    if cache.len() == 0 {
        None
    } else if cache[0].0 == err {
        Some(cache[0].1)
    } else {
        cached_string(cache.drop_first(), err)
    }
}

impl State {
    /// The cached guest strings, oldest first.
    pub closed spec fn cache(&self) -> Seq<(i32, u64)> {
        self.strings_cache@
    }

    /// A state that has handed out no string.
    pub fn new() -> (r: Self)
        ensures
            r.cache() == Seq::<(i32, u64)>::empty(),
    {
        State { strings_cache: Vec::new() }
    }

    /// Looks `err` up in the cache.
    fn find_cached(&self, err: i32) -> (r: Option<u64>)
        ensures
            r == cached_string(self.cache(), err),
    {
        let mut i: usize = 0;
        assert(self.strings_cache@.subrange(0, self.strings_cache@.len() as int)
            =~= self.strings_cache@);
        while i < self.strings_cache.len()
            invariant
                0 <= i <= self.strings_cache@.len(),
                cached_string(self.cache(), err) == cached_string(
                    self.strings_cache@.subrange(i as int, self.strings_cache@.len() as int),
                    err,
                ),
            decreases self.strings_cache.len() - i,
        {
            let ghost rest = self.strings_cache@.subrange(i as int, self.strings_cache@.len() as int);
            assert(rest.drop_first() =~= self.strings_cache@.subrange(
                i + 1,
                self.strings_cache@.len() as int,
            ));
            if self.strings_cache[i].0 == err {
                return Some(self.strings_cache[i].1);
            }
            i = i + 1;
        }
        None
    }

    /// `mach_error_string`: a guest C string describing `err` (0 for the
    /// null pointer of the empty systems). The first call for an error
    /// number copies its string into guest memory; later calls return the
    /// same copy.
    pub fn mach_error_string(&mut self, mem: &mut Mem64, err: i32) -> (r: Result<u64, &'static str>)
        requires
            old(mem).wf(),
        ensures
            final(mem).wf(),
            match error_string(err) {
                None => r == Ok::<u64, &str>(0) && final(mem)@ == old(mem)@ && final(self).cache()
                    == old(self).cache(),
                Some(s) => match cached_string(old(self).cache(), err) {
                    Some(p) => r == Ok::<u64, &str>(p) && final(mem)@ == old(mem)@
                        && final(self).cache() == old(self).cache(),
                    None => match r {
                        Ok(p) => {
                            &&& range_ok(
                                final(mem)@.regions,
                                p as int,
                                vstd::utf8::encode_utf8(s).len() + 1 as int,
                                1,
                            )
                            &&& bytes_at(
                                final(mem)@.regions,
                                p as int,
                                vstd::utf8::encode_utf8(s).len() + 1 as int,
                            )
                                == vstd::utf8::encode_utf8(s).push(0)
                            &&& final(mem)@.allocations.dom() == old(mem)@.allocations.dom().insert(p)
                            &&& final(self).cache() == old(self).cache().push((err, p))
                        },
                        Err(_) => final(mem)@ == old(mem)@ && final(self).cache() == old(self).cache(),
                    },
                },
            },
    {
        match lookup(err) {
            None => Ok(0),
            Some(s) => {
                if let Some(cached) = self.find_cached(err) {
                    return Ok(cached);
                }
                let p = mem.alloc_cstr(s.as_bytes())?;
                self.strings_cache.push((err, p));
                Ok(p)
            },
        }
    }
}

} // verus!
