//! Swapchains: fixed sets of buffers that are used again and again.
//!
//! Whoever renders asks a [`Swapchain`](chain::Swapchain) for the next free buffer
//! and holds on to the [`Slot`](pool::Slot) that it gets while it renders, and
//! while the buffer is displayed. Once the slot is given back, its buffer, with
//! what is kept with it, is handed out again.
pub mod census;
pub mod chain;
pub mod laws;
pub mod live;
pub mod pool;
