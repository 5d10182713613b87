//! Emulation core of an HLE emulator for early iPhone OS apps: guest
//! memory, binary and container parsing, and the C/C++ runtime services
//! that guest code calls.
use vstd::prelude::*;

pub mod frameworks;
pub mod gdb;
pub mod gles;
pub mod libc;
pub mod mach_o64;
pub mod mem;
pub mod mem64;
pub mod mem64_laws;
pub mod objc;
pub mod options;
pub mod perf;
pub mod perf_hints;
pub mod text;

verus! {

} // verus!
