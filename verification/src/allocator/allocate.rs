//! What allocates buffers.

use crate::allocator::dmabuf::registry::{DmabufRegistry, RegistryModel};
use crate::allocator::format::{Buffer, Fourcc, Modifier};
use vstd::prelude::*;

verus! {

/// What is asked of an allocator.
#[verifier::ext_equal]
pub struct Request {
    /// Width in pixels.
    pub width: u32,
    /// Height in pixels.
    pub height: u32,
    /// The pixel format.
    pub fourcc: Fourcc,
    /// The layout modifiers to choose from.
    pub modifiers: Seq<Modifier>,
}

/// Something that is given up when it is no longer used.
///
/// `F` is what stands for a file descriptor in the registry of buffers.
pub trait Disposable<F>: Sized {
    /// It can be given up.
    spec fn can_dispose(self, registry: RegistryModel<F>) -> bool;

    /// The registry once it has been given up.
    spec fn after_dispose(self, registry: RegistryModel<F>) -> RegistryModel<F>;

    /// Give it up.
    fn dispose(self, registry: &mut DmabufRegistry<F>)
        requires
            old(registry)@.wf(),
            self.can_dispose(old(registry)@),
        ensures
            final(registry)@.wf(),
            final(registry)@ == self.after_dispose(old(registry)@),
    ;
}

/// Something that allocates buffers.
///
/// `F` is what stands for a file descriptor in the registry of buffers.
pub trait Allocator<F>: Sized {
    /// The buffers that it allocates.
    type Buffer: Buffer + Disposable<F>;

    /// Why it could not allocate one.
    type Error;

    /// The request can be made.
    spec fn can_create(self, registry: RegistryModel<F>, request: Request) -> bool;

    /// What a request may come to: the allocator and the registry after it, and
    /// what is returned.
    spec fn creates(
        self,
        registry: RegistryModel<F>,
        request: Request,
        after: Self,
        registry_after: RegistryModel<F>,
        created: Result<Self::Buffer, Self::Error>,
    ) -> bool;

    /// Try to allocate a buffer of the given dimensions and pixel format, with one
    /// of the given layout modifiers.
    fn create_buffer(
        &mut self,
        registry: &mut DmabufRegistry<F>,
        width: u32,
        height: u32,
        fourcc: Fourcc,
        modifiers: &[Modifier],
    ) -> (created: Result<Self::Buffer, Self::Error>)
        requires
            old(registry)@.wf(),
            old(self).can_create(
                old(registry)@,
                (Request { width, height, fourcc, modifiers: modifiers@ }),
            ),
        ensures
            final(registry)@.wf(),
            old(self).creates(
                old(registry)@,
                (Request { width, height, fourcc, modifiers: modifiers@ }),
                *final(self),
                final(registry)@,
                created,
            ),
    ;
}

} // verus!
