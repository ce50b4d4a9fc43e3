//! Buffers, and what allocates them.
pub mod allocate;
pub mod dmabuf;
pub mod flags;
pub mod format;
pub mod swapchain;
