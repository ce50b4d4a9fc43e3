//! Reports on the slots that have a buffer.
pub mod listings;
pub mod sites;
pub mod sizes;

pub use self::sites::debug_live_slot_sites;
pub use self::sizes::debug_live_slots;
