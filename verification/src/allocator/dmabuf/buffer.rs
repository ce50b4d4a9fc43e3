//! The buffers themselves: how they are built and what they tell.

use crate::allocator::flags::DmabufFlags;
use crate::allocator::format::{Buffer, DrmNode, Format, Fourcc, Modifier, Size};
use crate::allocator::format::{INVALID_MODIFIER, LINEAR_MODIFIER};
use std::sync::Arc;
use vstd::prelude::*;

verus! {

/// The planes that a buffer can have, at most.
pub const MAX_PLANES: usize = 4;

/// A plane of a buffer. `F` is what stands for its file descriptor.
pub struct Plane<F> {
    /// The file descriptor.
    pub fd: F,
    /// The index of the plane.
    pub plane_idx: u32,
    /// Offset from the start of the file.
    pub offset: u32,
    /// Bytes from the start of one row to the start of the next.
    pub stride: u32,
}

/// What all references to one buffer share.
pub struct DmabufInternal<F> {
    /// A number that no other buffer has.
    pub debug_id: u64,
    /// Where the buffer was created, if it is of the size of an output; empty
    /// otherwise.
    pub created_at: String,
    /// The planes.
    pub planes: Vec<Plane<F>>,
    /// The dimensions.
    pub size: Size,
    /// The pixel format.
    pub format: Fourcc,
    /// The layout modifier of the pixel format.
    pub modifier: Modifier,
    /// The flags.
    pub flags: DmabufFlags,
}

/// What a [`DmabufInternal`] stands for.
#[verifier::ext_equal]
pub struct BufferModel<F> {
    pub debug_id: u64,
    pub created_at: Seq<char>,
    pub planes: Seq<Plane<F>>,
    pub size: Size,
    pub format: Fourcc,
    pub modifier: Modifier,
    pub flags: DmabufFlags,
}

impl<F> View for DmabufInternal<F> {
    type V = BufferModel<F>;

    open spec fn view(&self) -> BufferModel<F> {
        BufferModel {
            debug_id: self.debug_id,
            created_at: self.created_at@,
            planes: self.planes@,
            size: self.size,
            format: self.format,
            modifier: self.modifier,
            flags: self.flags,
        }
    }
}

/// Each plane knows its position among `planes`, and there are not too many.
pub open spec fn planes_are_numbered<F>(planes: Seq<Plane<F>>) -> bool {
    &&& planes.len() <= MAX_PLANES
    &&& forall|i: int| 0 <= i < planes.len() ==> (#[trigger] planes[i]).plane_idx == i
}

/// A buffer of this size fills an output.
pub open spec fn fills_output(size: Size) -> bool {
    size.w * size.h >= 1280 * 720
}

impl<F> BufferModel<F> {
    /// A buffer has at least one plane and no more than [`MAX_PLANES`].
    pub open spec fn wf(self) -> bool {
        &&& self.planes.len() >= 1
        &&& planes_are_numbered(self.planes)
    }
}

/// Strong reference to a buffer.
pub struct Dmabuf<F> {
    internal: Arc<DmabufInternal<F>>,
    clone_id: u64,
}

/// What a [`Dmabuf`] stands for.
#[verifier::ext_equal]
pub struct DmabufModel<F> {
    /// The buffer that it refers to.
    pub buffer: BufferModel<F>,
    /// A number for this one reference, or zero if it is not traced.
    pub clone_id: u64,
}

impl<F> View for Dmabuf<F> {
    type V = DmabufModel<F>;

    closed spec fn view(&self) -> DmabufModel<F> {
        DmabufModel { buffer: self.internal@, clone_id: self.clone_id }
    }
}

/// References are equal if they refer to the same buffer. The number of the
/// reference itself plays no part.
impl<F> PartialEq for Dmabuf<F> {
    fn eq(&self, other: &Dmabuf<F>) -> (result: bool) {
        self.internal.debug_id == other.internal.debug_id
    }
}

impl<F> Eq for Dmabuf<F> {

}

impl<F> vstd::std_specs::cmp::PartialEqSpecImpl for Dmabuf<F> {
    open spec fn obeys_eq_spec() -> bool {
        true
    }

    open spec fn eq_spec(&self, other: &Dmabuf<F>) -> bool {
        self@.buffer.debug_id == other@.buffer.debug_id
    }
}

impl<F> Buffer for Dmabuf<F> {
    open spec fn dimensions(&self) -> Size {
        self@.buffer.size
    }

    open spec fn pixel_format(&self) -> Format {
        Format { code: self@.buffer.format, modifier: self@.buffer.modifier }
    }

    fn size(&self) -> (size: Size) {
        self.internal.size
    }

    fn format(&self) -> (format: Format) {
        Format { code: self.internal.format, modifier: self.internal.modifier }
    }
}

/// The address of what `shared` points to, by `Arc::as_ptr`.
///
/// `Arc::as_ptr` gives a pointer that is valid as long as there are references. What
/// it points to here takes up memory, so that the pointer is not null. Nothing else is
/// claimed of the address: it is up to the memory allocator.
#[verifier::external_body]
fn address_of<F>(shared: &Arc<DmabufInternal<F>>) -> (address: usize)
    ensures
        address != 0,
{
    Arc::as_ptr(shared) as usize
}

/// `address` is what `Arc::as_ptr` came to for what the references to `buffer` share.
pub closed spec fn has_address<F>(buffer: BufferModel<F>, address: usize) -> bool {
    exists|shared: Arc<DmabufInternal<F>>|
        shared@ == buffer && #[trigger] call_ensures(address_of::<F>, (&shared,), address)
}

/// The address of what the references to a buffer share.
pub(crate) fn shared_address<F>(shared: &Arc<DmabufInternal<F>>) -> (address: usize)
    ensures
        has_address(shared@, address),
        address != 0,
{
    let address = address_of(shared);
    assert(call_ensures(address_of::<F>, (shared,), address));
    address
}

/// Builder for buffers.
pub struct DmabufBuilder<F> {
    planes: Vec<Plane<F>>,
    size: Size,
    format: Fourcc,
    modifier: Modifier,
    flags: DmabufFlags,
    node: Option<DrmNode>,
}

/// What a [`DmabufBuilder`] stands for.
#[verifier::ext_equal]
pub struct BuilderModel<F> {
    pub planes: Seq<Plane<F>>,
    pub size: Size,
    pub format: Fourcc,
    pub modifier: Modifier,
    pub flags: DmabufFlags,
    pub node: Option<DrmNode>,
}

impl<F> View for DmabufBuilder<F> {
    type V = BuilderModel<F>;

    closed spec fn view(&self) -> BuilderModel<F> {
        BuilderModel {
            planes: self.planes@,
            size: self.size,
            format: self.format,
            modifier: self.modifier,
            flags: self.flags,
            node: self.node,
        }
    }
}

impl<F> BuilderModel<F> {
    /// The planes so far are numbered, and there are not too many.
    pub open spec fn wf(self) -> bool {
        planes_are_numbered(self.planes)
    }

    /// The builder with one more plane.
    pub open spec fn with_plane(self, fd: F, offset: u32, stride: u32) -> BuilderModel<F> {
        BuilderModel {
            planes: self.planes.push(
                Plane { fd, plane_idx: self.planes.len() as u32, offset, stride },
            ),
            ..self
        }
    }

    /// The buffer that the builder describes, under the number `debug_id`.
    pub open spec fn describes(self, debug_id: u64, created_at: Seq<char>) -> BufferModel<F> {
        BufferModel {
            debug_id,
            created_at,
            planes: self.planes,
            size: self.size,
            format: self.format,
            modifier: self.modifier,
            flags: self.flags,
        }
    }
}

impl<F> DmabufBuilder<F> {
    /// Add a plane to the buffer.
    ///
    /// Each buffer needs at least one plane. Returns `false`, and adds nothing, if
    /// there are [`MAX_PLANES`] already.
    pub fn add_plane(&mut self, fd: F, offset: u32, stride: u32) -> (added: bool)
        requires
            old(self)@.wf(),
        ensures
            final(self)@.wf(),
            added <==> old(self)@.planes.len() < MAX_PLANES,
            added ==> final(self)@ == old(self)@.with_plane(fd, offset, stride),
            !added ==> final(self)@ == old(self)@,
            added <==> old(self)@.planes.len() < 4,
            added ==> final(self)@.planes == old(self)@.planes.push(
                (Plane { fd, plane_idx: old(self)@.planes.len() as u32, offset, stride }),
            ),
    {
        if self.planes.len() == MAX_PLANES {
            return false;
        }
        let plane_idx: u32 = self.planes.len() as u32;
        self.planes.push(Plane { fd, plane_idx, offset, stride });
        true
    }

    /// Set the node to import the buffer with, where it is known.
    pub fn set_node(&mut self, node: DrmNode)
        requires
            old(self)@.wf(),
        ensures
            final(self)@.wf(),
            final(self)@ == (BuilderModel::<F> { node: Some(node), ..old(self)@ }),
    {
        self.node = Some(node);
    }

    /// Whether the builder has no planes.
    pub(crate) fn is_empty(&self) -> (result: bool)
        ensures
            result == (self@.planes.len() == 0),
    {
        self.planes.len() == 0
    }

    /// Whether the buffer will fill an output.
    pub(crate) fn fills_output(&self) -> (result: bool)
        ensures
            result == fills_output(self@.size),
            result == (self@.size.w * self@.size.h >= 921_600),
    {
        let w: i64 = self.size.w as i64;
        let h: i64 = self.size.h as i64;
        assert(-0x8000_0000 * 0x8000_0000 <= w * h <= 0x8000_0000 * 0x8000_0000)
            by (nonlinear_arith)
            requires
                -0x8000_0000 <= w <= 0x7fff_ffff,
                -0x8000_0000 <= h <= 0x7fff_ffff,
        ;
        w * h >= 1280 * 720
    }

    /// The buffer that the builder describes, and the node it was given.
    pub(crate) fn into_internal(self, debug_id: u64, created_at: String) -> (parts: (
        DmabufInternal<F>,
        Option<DrmNode>,
    ))
        ensures
            parts.0@ == self@.describes(debug_id, created_at@),
            parts.1 == self@.node,
    {
        (
            DmabufInternal {
                debug_id,
                created_at,
                planes: self.planes,
                size: self.size,
                format: self.format,
                modifier: self.modifier,
                flags: self.flags,
            },
            self.node,
        )
    }
}

impl<F> Dmabuf<F> {
    /// A reference to `internal`.
    pub(crate) fn from_parts(internal: Arc<DmabufInternal<F>>, clone_id: u64) -> (dmabuf: Dmabuf<F>)
        ensures
            dmabuf@ == (DmabufModel::<F> { buffer: internal@, clone_id }),
    {
        Dmabuf { internal, clone_id }
    }

    /// What the reference shares with all others to the same buffer.
    pub(crate) fn shared(&self) -> (internal: Arc<DmabufInternal<F>>)
        ensures
            internal@ == self@.buffer,
    {
        self.internal.clone()
    }

    /// The number of this one reference.
    pub(crate) fn clone_id(&self) -> (clone_id: u64)
        ensures
            clone_id == self@.clone_id,
    {
        self.clone_id
    }

    /// A builder for a buffer with the dimensions and the pixel format of `src`.
    ///
    /// The contents are determined by the planes that are added, which need not
    /// refer to the buffer that `src` is.
    pub fn builder_from_buffer<B: Buffer>(src: &B, flags: DmabufFlags) -> (builder: DmabufBuilder<
        F,
    >)
        ensures
            builder@.wf(),
            builder@ == (BuilderModel::<F> {
                planes: Seq::empty(),
                size: src.dimensions(),
                format: src.pixel_format().code,
                modifier: src.pixel_format().modifier,
                flags,
                node: None,
            }),
    {
        Dmabuf::builder(src.size(), src.format().code, src.format().modifier, flags)
    }

    /// A builder for a new buffer.
    pub fn builder(
        size: Size,
        format: Fourcc,
        modifier: Modifier,
        flags: DmabufFlags,
    ) -> (builder: DmabufBuilder<F>)
        ensures
            builder@.wf(),
            builder@ == (BuilderModel::<F> {
                planes: Seq::empty(),
                size,
                format,
                modifier,
                flags,
                node: None,
            }),
    {
        DmabufBuilder {
            planes: Vec::with_capacity(MAX_PLANES),
            size,
            format,
            modifier,
            flags,
            node: None,
        }
    }

    /// The number of planes.
    pub fn num_planes(&self) -> (count: usize)
        ensures
            count == self@.buffer.planes.len(),
    {
        self.internal.planes.len()
    }

    /// The file descriptors of the planes.
    pub fn handles(&self) -> (handles: Vec<&F>)
        ensures
            handles@.len() == self@.buffer.planes.len(),
            forall|i: int|
                0 <= i < handles@.len() ==> *(#[trigger] handles@[i]) == self@.buffer.planes[i].fd,
    {
        let mut handles: Vec<&F> = Vec::new();
        for i in 0..self.internal.planes.len()
            invariant
                handles@.len() == i,
                forall|j: int|
                    0 <= j < handles@.len() ==> *(#[trigger] handles@[j])
                        == self@.buffer.planes[j].fd,
        {
            handles.push(&self.internal.planes[i].fd);
        }
        handles
    }

    /// The offsets of the planes.
    pub fn offsets(&self) -> (offsets: Vec<u32>)
        ensures
            offsets@ == self@.buffer.planes.map_values(|plane: Plane<F>| plane.offset),
    {
        let mut offsets: Vec<u32> = Vec::new();
        for i in 0..self.internal.planes.len()
            invariant
                offsets@ == self@.buffer.planes.take(i as int).map_values(
                    |plane: Plane<F>| plane.offset,
                ),
        {
            offsets.push(self.internal.planes[i].offset);
        }
        offsets
    }

    /// The strides of the planes.
    pub fn strides(&self) -> (strides: Vec<u32>)
        ensures
            strides@ == self@.buffer.planes.map_values(|plane: Plane<F>| plane.stride),
    {
        let mut strides: Vec<u32> = Vec::new();
        for i in 0..self.internal.planes.len()
            invariant
                strides@ == self@.buffer.planes.take(i as int).map_values(
                    |plane: Plane<F>| plane.stride,
                ),
        {
            strides.push(self.internal.planes[i].stride);
        }
        strides
    }

    /// Whether the layout is a vendor's own: neither implicit nor linear.
    pub fn has_modifier(&self) -> (result: bool)
        ensures
            result == (self@.buffer.modifier.code != INVALID_MODIFIER
                && self@.buffer.modifier.code != LINEAR_MODIFIER),
            result <==> self@.buffer.modifier.code != 0 && self@.buffer.modifier.code
                != 0x00ff_ffff_ffff_ffff,
    {
        self.internal.modifier != Modifier::invalid() && self.internal.modifier
            != Modifier::linear()
    }

    /// The flags of the buffer, uninterpreted. Bits without a name are retained.
    pub fn flags(&self) -> (flags: DmabufFlags)
        ensures
            flags == self@.buffer.flags,
    {
        self.internal.flags
    }

    /// Whether the buffer is stored inverted on the y-axis.
    pub fn y_inverted(&self) -> (result: bool)
        ensures
            result == (self@.buffer.flags.bits & DmabufFlags::Y_INVERT == DmabufFlags::Y_INVERT),
            result <==> self@.buffer.flags.bits % 2 == 1,
    {
        proof {
            let bits = self@.buffer.flags.bits;
            assert(bits & 1 == 1 <==> bits % 2 == 1) by (bit_vector);
        }
        self.internal.flags.contains(DmabufFlags::Y_INVERT)
    }

    /// The number of the buffer.
    pub fn debug_id(&self) -> (id: u64)
        ensures
            id == self@.buffer.debug_id,
    {
        self.internal.debug_id
    }

    /// Where the buffer was created; empty for one that does not fill an output.
    pub fn debug_created_at(&self) -> (created_at: &str)
        ensures
            created_at@ == self@.buffer.created_at,
    {
        self.internal.created_at.as_str()
    }

    /// The plane at the position `idx`, if there is one.
    pub(crate) fn plane(&self, idx: usize) -> (plane: Option<&Plane<F>>)
        ensures
            match plane {
                Some(plane) => idx < self@.buffer.planes.len() && *plane
                    == self@.buffer.planes[idx as int],
                None => idx >= self@.buffer.planes.len(),
            },
    {
        if idx < self.internal.planes.len() {
            Some(&self.internal.planes[idx])
        } else {
            None
        }
    }
}

/// An address that a buffer has is one that taking the address of what its references
/// share came to.
proof fn law_addresses_are_taken<F>(buffer: BufferModel<F>, address: usize)
    requires
        has_address(buffer, address),
    ensures
        address != 0,
        exists|shared: Arc<DmabufInternal<F>>|
            shared@ == buffer && #[trigger] call_ensures(address_of::<F>, (&shared,), address),
{
}

/// References are equal exactly if their buffers have the same number, whatever the number
/// of the reference itself.
pub proof fn law_equality_is_that_of_the_buffers<F>(a: Dmabuf<F>, b: Dmabuf<F>)
    ensures
        vstd::std_specs::cmp::PartialEqSpec::eq_spec(&a, &b) <==> a@.buffer.debug_id
            == b@.buffer.debug_id,
{
}

/// A buffer has the size and the format that it was built with.
pub proof fn law_buffers_tell_their_size_and_format<F>(dmabuf: Dmabuf<F>)
    ensures
        dmabuf.dimensions() == dmabuf@.buffer.size,
        dmabuf.pixel_format().code == dmabuf@.buffer.format,
        dmabuf.pixel_format().modifier == dmabuf@.buffer.modifier,
{
}

} // verus!
