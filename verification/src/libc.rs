//! The C and C++ runtime services that guest code calls.
pub mod codesign;
pub mod cxxabi;
pub mod errno;
pub mod mach;
pub mod posix_io;
pub mod pwd;
pub mod semaphore;
pub mod sys;
