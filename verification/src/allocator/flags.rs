//! Sets of flags, each kept as the bits it stands for.
//!
//! Bits without a name are retained.

use vstd::prelude::*;

verus! {

/// Flags of a DMA buffer.
#[derive(Clone, Copy, Debug, PartialEq, Eq, Structural)]
pub struct DmabufFlags {
    /// The flags, one bit each.
    pub bits: u32,
}

impl DmabufFlags {
    /// The buffer content is Y-inverted.
    pub const Y_INVERT: u32 = 1;

    /// The buffer content is interlaced.
    pub const INTERLACED: u32 = 2;

    /// The buffer content if interlaced is bottom-field first.
    pub const BOTTOM_FIRST: u32 = 4;

    /// Whether all of the flags in `bits` are set.
    pub fn contains(&self, bits: u32) -> (result: bool)
        ensures
            result == (self.bits & bits == bits),
    {
        self.bits & bits == bits
    }
}

/// Modes of mapping a plane.
#[derive(Clone, Copy, Debug, PartialEq, Eq, Structural)]
pub struct DmabufMappingMode {
    /// The modes, one bit each.
    pub bits: u32,
}

impl DmabufMappingMode {
    /// Map the plane readable.
    pub const READ: u32 = 1;

    /// Map the plane writable.
    pub const WRITE: u32 = 2;

    /// Whether all of the modes in `bits` are set.
    pub fn contains(&self, bits: u32) -> (result: bool)
        ensures
            result == (self.bits & bits == bits),
    {
        self.bits & bits == bits
    }
}

/// Flags for synchronizing access to a plane.
#[derive(Clone, Copy, Debug, PartialEq, Eq, Structural)]
pub struct DmabufSyncFlags {
    /// The flags, one bit each.
    pub bits: u64,
}

impl DmabufSyncFlags {
    /// Read from the plane.
    pub const READ: u64 = 1;

    /// Write to the plane.
    pub const WRITE: u64 = 2;

    /// Start of an access; it is told by the absence of [`Self::END`].
    pub const START: u64 = 0;

    /// End of an access.
    pub const END: u64 = 4;
}

/// The bits are those that the kernel and the protocol know the flags by.
pub proof fn law_flags_have_their_bits()
    ensures
        DmabufFlags::Y_INVERT == 1,
        DmabufFlags::INTERLACED == 2,
        DmabufFlags::BOTTOM_FIRST == 4,
        DmabufMappingMode::READ == 1,
        DmabufMappingMode::WRITE == 2,
        DmabufSyncFlags::READ == 1,
        DmabufSyncFlags::WRITE == 2,
        DmabufSyncFlags::START == 0,
        DmabufSyncFlags::END == 4,
{
}

} // verus!
