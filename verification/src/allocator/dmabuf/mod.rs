//! DMA buffers.
//!
//! A [`Dmabuf`](buffer::Dmabuf) acts like a smart pointer: it can be duplicated
//! and passed around freely. A [`DmabufRegistry`](registry::DmabufRegistry)
//! knows the buffers that are referenced; once the last reference is released,
//! it lets go of the buffer, and its file descriptors are closed.
//!
//! To hold on to a buffer that may be alive without keeping it so, take a
//! [`WeakDmabuf`](registry::WeakDmabuf).
pub mod buffer;
pub mod export;
pub mod laws;
pub mod mapping;
pub mod registry;
pub mod source;
