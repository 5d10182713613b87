//! The Objective-C runtime.
pub mod objects;
