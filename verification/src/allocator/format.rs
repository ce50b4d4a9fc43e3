//! Dimensions and pixel formats of buffers.

use vstd::prelude::*;

verus! {

/// The modifier code that stands for an implicit layout.
pub const INVALID_MODIFIER: u64 = 0x00ff_ffff_ffff_ffff;

/// The modifier code that stands for a linear layout.
pub const LINEAR_MODIFIER: u64 = 0;

/// The dimensions of a buffer, in pixels.
#[derive(Clone, Copy, Debug, PartialEq, Eq, Structural)]
pub struct Size {
    /// Width.
    pub w: i32,
    /// Height.
    pub h: i32,
}

/// A pixel format, by its four-character code.
#[derive(Clone, Copy, Debug, PartialEq, Eq, Structural)]
pub struct Fourcc {
    /// The characters of the code, the first one in the lowest byte.
    pub code: u32,
}

/// A layout modifier of a pixel format, by its code.
#[derive(Clone, Copy, Debug, PartialEq, Eq, Structural)]
pub struct Modifier {
    /// The vendor in the highest byte and the vendor's own code below it.
    pub code: u64,
}

impl Modifier {
    /// The layout is implicit: the driver knows it.
    pub fn invalid() -> (modifier: Modifier)
        ensures
            modifier.code == INVALID_MODIFIER,
            modifier.code == 0x00ff_ffff_ffff_ffff,
    {
        Modifier { code: INVALID_MODIFIER }
    }

    /// The layout is linear.
    pub fn linear() -> (modifier: Modifier)
        ensures
            modifier.code == LINEAR_MODIFIER,
            modifier.code == 0,
    {
        Modifier { code: LINEAR_MODIFIER }
    }
}

/// A pixel format with its layout modifier.
#[derive(Clone, Copy, Debug, PartialEq, Eq, Structural)]
pub struct Format {
    /// The pixel format.
    pub code: Fourcc,
    /// Its layout modifier.
    pub modifier: Modifier,
}

/// Which node of a rendering device it is.
#[derive(Clone, Copy, Debug, PartialEq, Eq, Structural)]
pub enum NodeKind {
    /// The primary node, which can set modes.
    Primary,
    /// The control node.
    Control,
    /// The render node.
    Render,
}

/// A node of a rendering device.
#[derive(Clone, Copy, Debug, PartialEq, Eq, Structural)]
pub struct DrmNode {
    /// The device number.
    pub dev: u64,
    /// Which of the device's nodes it is.
    pub kind: NodeKind,
}

/// Something with dimensions and a pixel format.
pub trait Buffer {
    /// The dimensions of the buffer.
    spec fn dimensions(&self) -> Size;

    /// The pixel format of the buffer.
    spec fn pixel_format(&self) -> Format;

    /// The dimensions of the buffer.
    fn size(&self) -> (size: Size)
        ensures
            size == self.dimensions(),
    ;

    /// The pixel format of the buffer.
    fn format(&self) -> (format: Format)
        ensures
            format == self.pixel_format(),
    ;
}

} // verus!
