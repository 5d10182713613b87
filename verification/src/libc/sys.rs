//! `sys/*.h`
pub mod resource;
