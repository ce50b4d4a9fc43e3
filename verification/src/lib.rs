//! GPU buffers: who holds them, when they are used again, and where they leak.
//!
//! * [`allocator::dmabuf`] has DMA buffers, with the references to them counted.
//! * [`allocator::swapchain`] has swapchains, which hand out a fixed set of buffers
//!   again and again, and reports on the slots that have a buffer.
//! * [`gles`] keeps books on GPU objects, and on the requests to clean them up.
//! * [`signature`] tells a code path by the frames of a backtrace that matter.
//!
//! All state is in values that the caller owns: nothing here is global, and no
//! function makes a system call. Where something would be given up by dropping it,
//! there is a function that gives it up.

pub mod allocator;
pub mod backtrace;
pub mod gles;
pub mod signature;
pub mod text;
