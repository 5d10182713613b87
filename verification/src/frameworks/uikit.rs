//! UIKit.
pub mod ui_launch_delegate;
pub mod ui_touch;
