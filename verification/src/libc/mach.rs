//! Mach kernel interfaces.
pub mod error;
