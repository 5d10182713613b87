//! Host implementations of the iPhone OS frameworks, as far as they hold
//! logic of their own.
pub mod foundation;
pub mod media_player;
pub mod media_toolbox;
pub mod skynest;
pub mod uikit;
pub mod vulkan;
