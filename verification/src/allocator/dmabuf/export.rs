//! Buffers of other kinds as DMA buffers.

use crate::allocator::allocate::{Allocator, Disposable, Request};
use crate::allocator::dmabuf::buffer::Dmabuf;
use crate::allocator::dmabuf::registry::{DmabufRegistry, RegistryModel};
use crate::allocator::format::{Fourcc, Modifier};
use std::convert::Infallible;
use vstd::prelude::*;

verus! {

/// Buffer that can be exported as a DMA buffer.
///
/// `F` is what stands for a file descriptor in the registry of buffers.
pub trait AsDmabuf<F>: Sized {
    /// Why it could not be exported.
    type Error;

    /// It can be exported, as far as the registry is concerned.
    spec fn can_export(self, registry: RegistryModel<F>) -> bool;

    /// What an export may come to: the registry after it, and what is returned.
    spec fn exports(
        self,
        registry: RegistryModel<F>,
        registry_after: RegistryModel<F>,
        exported: Result<Dmabuf<F>, Self::Error>,
    ) -> bool;

    /// Export this buffer as a new DMA buffer. The registry has room for one more
    /// reference to it.
    fn export(&self, registry: &mut DmabufRegistry<F>) -> (exported: Result<
        Dmabuf<F>,
        Self::Error,
    >)
        requires
            old(registry)@.wf(),
            self.can_export(old(registry)@),
        ensures
            final(registry)@.wf(),
            self.exports(old(registry)@, final(registry)@, exported),
            exported matches Ok(dmabuf) ==> final(registry)@.can_share(dmabuf@.buffer),
    ;
}

/// A DMA buffer is exported as one more reference to itself.
impl<F> AsDmabuf<F> for Dmabuf<F> {
    type Error = Infallible;

    open spec fn can_export(self, registry: RegistryModel<F>) -> bool {
        &&& registry.can_share(self@.buffer)
        &&& registry.live[self@.buffer.debug_id].strong + 1 < usize::MAX
    }

    open spec fn exports(
        self,
        registry: RegistryModel<F>,
        registry_after: RegistryModel<F>,
        exported: Result<Dmabuf<F>, Infallible>,
    ) -> bool {
        exported matches Ok(dmabuf) && registry.shared_into(
            self@.buffer,
            registry_after,
            dmabuf@,
        )
    }

    fn export(&self, registry: &mut DmabufRegistry<F>) -> (exported: Result<Dmabuf<F>, Infallible>) {
        Ok(self.duplicate(registry))
    }
}

impl<F> Disposable<F> for Dmabuf<F> {
    open spec fn can_dispose(self, registry: RegistryModel<F>) -> bool {
        registry.holds(self@.buffer)
    }

    open spec fn after_dispose(self, registry: RegistryModel<F>) -> RegistryModel<F> {
        registry.release(self@)
    }

    fn dispose(self, registry: &mut DmabufRegistry<F>) {
        self.release(registry);
    }
}

/// Why a [`DmabufAllocator`] could not provide a buffer.
pub enum AnyError<C, E> {
    /// It could not be allocated.
    Create(C),
    /// It could not be exported.
    Export(E),
}

/// Wrapper for allocators whose buffers implement [`AsDmabuf`].
///
/// It allocates DMA buffers.
pub struct DmabufAllocator<A>(pub A);

/// What exporting the buffer `source`, and giving it up, may come to.
pub open spec fn hands_over<F, B: AsDmabuf<F> + Disposable<F>, C>(
    source: B,
    registry: RegistryModel<F>,
    registry_after: RegistryModel<F>,
    created: Result<Dmabuf<F>, AnyError<C, B::Error>>,
) -> bool {
    exists|exported: Result<Dmabuf<F>, B::Error>, registry_then: RegistryModel<F>|
        {
            &&& #[trigger] source.exports(registry, registry_then, exported)
            &&& registry_after == source.after_dispose(registry_then)
            &&& created == match exported {
                Ok(dmabuf) => Ok::<_, AnyError<C, B::Error>>(dmabuf),
                Err(error) => Err(AnyError::Export(error)),
            }
        }
}

impl<F, A> Allocator<F> for DmabufAllocator<A> where A: Allocator<F>, A::Buffer: AsDmabuf<F> {
    type Buffer = Dmabuf<F>;

    type Error = AnyError<A::Error, <A::Buffer as AsDmabuf<F>>::Error>;

    open spec fn can_create(self, registry: RegistryModel<F>, request: Request) -> bool {
        &&& self.0.can_create(registry, request)
        &&& forall|after: A, registry_after: RegistryModel<F>, source: A::Buffer| #[trigger]
            self.0.creates(registry, request, after, registry_after, Ok(source))
                ==> source.can_export(registry_after)
        &&& forall|
            after: A,
            registry_after: RegistryModel<F>,
            source: A::Buffer,
            registry_then: RegistryModel<F>,
            exported: Result<Dmabuf<F>, <A::Buffer as AsDmabuf<F>>::Error>,
        |
            {
                &&& #[trigger] self.0.creates(
                    registry,
                    request,
                    after,
                    registry_after,
                    Ok(source),
                )
                &&& #[trigger] source.exports(registry_after, registry_then, exported)
            } ==> source.can_dispose(registry_then)
    }

    open spec fn creates(
        self,
        registry: RegistryModel<F>,
        request: Request,
        after: Self,
        registry_after: RegistryModel<F>,
        created: Result<Dmabuf<F>, AnyError<A::Error, <A::Buffer as AsDmabuf<F>>::Error>>,
    ) -> bool {
        exists|source: Result<A::Buffer, A::Error>, registry_then: RegistryModel<F>|
            {
                &&& #[trigger] self.0.creates(registry, request, after.0, registry_then, source)
                &&& match source {
                    Err(error) => {
                        &&& registry_after == registry_then
                        &&& created == Err::<
                            Dmabuf<F>,
                            AnyError<A::Error, <A::Buffer as AsDmabuf<F>>::Error>,
                        >(AnyError::Create(error))
                    },
                    Ok(source) => hands_over(source, registry_then, registry_after, created),
                }
            }
    }

    fn create_buffer(
        &mut self,
        registry: &mut DmabufRegistry<F>,
        width: u32,
        height: u32,
        fourcc: Fourcc,
        modifiers: &[Modifier],
    ) -> (created: Result<
        Dmabuf<F>,
        AnyError<A::Error, <A::Buffer as AsDmabuf<F>>::Error>,
    >) {
        let ghost request = Request { width, height, fourcc, modifiers: modifiers@ };
        let source = self.0.create_buffer(registry, width, height, fourcc, modifiers);
        assert(old(self).0.creates(old(registry)@, request, self.0, registry@, source));
        match source {
            Err(error) => Err(AnyError::Create(error)),
            Ok(source) => {
                let ghost registry_then = registry@;
                let exported = source.export(registry);
                source.dispose(registry);
                let created = match exported {
                    Ok(dmabuf) => Ok(dmabuf),
                    Err(error) => Err(AnyError::Export(error)),
                };
                assert(hands_over(source, registry_then, registry@, created));
                created
            },
        }
    }
}

/// Exporting a DMA buffer always succeeds: it gives one more reference to the same buffer.
pub proof fn law_exporting_shares_the_buffer<F>(
    dmabuf: Dmabuf<F>,
    registry: RegistryModel<F>,
    after: RegistryModel<F>,
    exported: Result<Dmabuf<F>, Infallible>,
)
    requires
        registry.wf(),
        dmabuf.can_export(registry),
        dmabuf.exports(registry, after, exported),
    ensures
        exported matches Ok(shared) && shared@.buffer == dmabuf@.buffer,
        after.live.contains_key(dmabuf@.buffer.debug_id),
        after.live[dmabuf@.buffer.debug_id].strong
            == registry.live[dmabuf@.buffer.debug_id].strong + 1,
        after.live[dmabuf@.buffer.debug_id].buffer == dmabuf@.buffer,
{
}

/// Giving up a DMA buffer gives up the one reference: another one keeps the buffer.
pub proof fn law_disposing_gives_up_one_reference<F>(dmabuf: Dmabuf<F>, registry: RegistryModel<F>)
    requires
        registry.wf(),
        dmabuf.can_dispose(registry),
    ensures
        ({
            let id = dmabuf@.buffer.debug_id;
            let after = dmabuf.after_dispose(registry);
            &&& after.live.contains_key(id) <==> registry.live[id].strong > 1
            &&& registry.live[id].strong > 1 ==> after.live[id].strong == registry.live[id].strong
                - 1
            &&& dmabuf@.clone_id != 0 ==> after.clones == registry.clones.remove(
                dmabuf@.clone_id,
            )
            &&& dmabuf@.clone_id == 0 ==> after.clones == registry.clones
        }),
{
}

/// A buffer was allocated for the request and exported with this outcome, and then given
/// up.
pub open spec fn passed_on<F, A>(
    allocator: A,
    registry: RegistryModel<F>,
    request: Request,
    after: A,
    registry_after: RegistryModel<F>,
    exported: Result<Dmabuf<F>, <A::Buffer as AsDmabuf<F>>::Error>,
) -> bool where A: Allocator<F>, A::Buffer: AsDmabuf<F> {
    exists|source: A::Buffer, allocated: RegistryModel<F>, then: RegistryModel<F>|
        {
            &&& #[trigger] allocator.creates(registry, request, after, allocated, Ok(source))
            &&& #[trigger] source.exports(allocated, then, exported)
            &&& registry_after == source.after_dispose(then)
        }
}

/// A DMA buffer is provided exactly as the wrapped allocator allocates for the same request
/// and as what it allocated is exported; what was allocated is then given up. The error is
/// that of the step which failed.
pub proof fn law_buffers_are_allocated_and_exported<F, A>(
    allocator: DmabufAllocator<A>,
    registry: RegistryModel<F>,
    request: Request,
    after: DmabufAllocator<A>,
    registry_after: RegistryModel<F>,
    created: Result<Dmabuf<F>, AnyError<A::Error, <A::Buffer as AsDmabuf<F>>::Error>>,
) where A: Allocator<F>, A::Buffer: AsDmabuf<F>
    requires
        allocator.creates(registry, request, after, registry_after, created),
    ensures
        match created {
            Ok(dmabuf) => passed_on(
                allocator.0,
                registry,
                request,
                after.0,
                registry_after,
                Ok(dmabuf),
            ),
            Err(AnyError::Create(error)) => allocator.0.creates(
                registry,
                request,
                after.0,
                registry_after,
                Err(error),
            ),
            Err(AnyError::Export(error)) => passed_on(
                allocator.0,
                registry,
                request,
                after.0,
                registry_after,
                Err(error),
            ),
        },
{
    let (source, allocated) = choose|
        source: Result<A::Buffer, A::Error>,
        registry_then: RegistryModel<F>,
    |
        {
            &&& #[trigger] allocator.0.creates(registry, request, after.0, registry_then, source)
            &&& match source {
                Err(error) => {
                    &&& registry_after == registry_then
                    &&& created == Err::<
                        Dmabuf<F>,
                        AnyError<A::Error, <A::Buffer as AsDmabuf<F>>::Error>,
                    >(AnyError::Create(error))
                },
                Ok(source) => hands_over(source, registry_then, registry_after, created),
            }
        };
    if let Ok(buffer) = source {
        let (exported, then) = choose|
            exported: Result<Dmabuf<F>, <A::Buffer as AsDmabuf<F>>::Error>,
            registry_then: RegistryModel<F>,
        |
            {
                &&& #[trigger] buffer.exports(allocated, registry_then, exported)
                &&& registry_after == buffer.after_dispose(registry_then)
                &&& created == match exported {
                    Ok(dmabuf) => Ok::<_, AnyError<A::Error, <A::Buffer as AsDmabuf<F>>::Error>>(
                        dmabuf,
                    ),
                    Err(error) => Err(AnyError::Export(error)),
                }
            };
        assert(allocator.0.creates(registry, request, after.0, allocated, Ok(buffer)));
        match exported {
            Ok(dmabuf) => {
                assert(created == Ok::<_, AnyError<A::Error, <A::Buffer as AsDmabuf<F>>::Error>>(
                    dmabuf,
                ));
                assert(buffer.exports(allocated, then, Ok(dmabuf)));
                assert(passed_on(
                    allocator.0,
                    registry,
                    request,
                    after.0,
                    registry_after,
                    Ok(dmabuf),
                ));
            },
            Err(error) => {
                assert(buffer.exports(allocated, then, Err(error)));
                assert(passed_on(
                    allocator.0,
                    registry,
                    request,
                    after.0,
                    registry_after,
                    Err(error),
                ));
            },
        }
    }
}

} // verus!
