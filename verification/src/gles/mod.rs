//! Books on GPU objects and their deferred cleanup.
pub mod counters;
pub mod laws;
pub mod queue;
pub mod queue_tracker;
