//! The swapchain itself.

use crate::allocator::allocate::{Allocator, Request};
use crate::allocator::dmabuf::registry::{DmabufRegistry, RegistryModel};
use crate::allocator::format::{Buffer, Fourcc, Modifier};
use crate::allocator::swapchain::live::{LiveSlots, LiveSlotsModel};
use crate::allocator::swapchain::pool;
use crate::allocator::swapchain::pool::{InternalSlot, PoolModel, Slot, SlotModel, SlotPool};
use crate::allocator::swapchain::pool::{Turnover, SLOT_CAP};
use crate::signature;
use vstd::prelude::*;

verus! {

/// Swapchain with a fixed set of buffers that are used again and again.
///
/// `F` is what stands for a file descriptor, and `U` is what the user keeps with a
/// slot.
pub struct Swapchain<A: Allocator<F>, F, U> {
    /// Allocator used by the swapchain.
    pub allocator: A,
    width: u32,
    height: u32,
    fourcc: Fourcc,
    modifiers: Vec<Modifier>,
    pool: SlotPool<A::Buffer, F, U>,
}

/// What a [`Swapchain`] stands for.
#[verifier::ext_equal]
pub struct SwapchainModel<A: Allocator<F>, F, U> {
    /// The allocator.
    pub allocator: A,
    /// What it is asked for.
    pub request: Request,
    /// The slots.
    pub pool: PoolModel<A::Buffer, F, U>,
}

impl<A: Allocator<F>, F, U> View for Swapchain<A, F, U> {
    type V = SwapchainModel<A, F, U>;

    closed spec fn view(&self) -> SwapchainModel<A, F, U> {
        SwapchainModel {
            allocator: self.allocator,
            request: Request {
                width: self.width,
                height: self.height,
                fourcc: self.fourcc,
                modifiers: self.modifiers@,
            },
            pool: self.pool@,
        }
    }
}

impl<A: Allocator<F>, F, U> SwapchainModel<A, F, U> {
    /// The chain has all of its slots.
    pub open spec fn wf(self) -> bool {
        &&& self.pool.wf()
        &&& self.pool.chain.len() == SLOT_CAP
    }

    /// The number of the slot at the position `i`.
    pub open spec fn uid(self, i: int) -> usize {
        self.pool.chain[i]
    }

    /// A buffer has to be allocated before a slot can be handed out.
    pub open spec fn must_allocate(self) -> bool {
        self.pool.first_free() matches Some(i) && self.pool.slots[self.uid(i)].buffer is None
    }

    /// The swapchain with these slots.
    pub open spec fn with_pool(
        self,
        pool: PoolModel<A::Buffer, F, U>,
    ) -> SwapchainModel<A, F, U> {
        SwapchainModel { pool, ..self }
    }

    /// The swapchain, the live slots and the slots that were dropped once the buffers
    /// have these dimensions. If they change, every slot is replaced.
    pub open spec fn resize(self, live: LiveSlotsModel, width: u32, height: u32) -> (
        SwapchainModel<A, F, U>,
        LiveSlotsModel,
        Seq<SlotModel<A::Buffer, F, U>>,
    ) {
        let before = Turnover::of(self.pool, live);
        let after = if self.has_size(width, height) {
            before
        } else {
            before.renew(self.pool.no_ages())
        };
        (
            SwapchainModel {
                request: Request { width, height, ..self.request },
                pool: after.pool,
                ..self
            },
            after.live,
            after.dropped,
        )
    }

    /// The buffers have these dimensions.
    pub open spec fn has_size(self, width: u32, height: u32) -> bool {
        self.request.width == width && self.request.height == height
    }

    /// What becomes of the first free slot when allocating a buffer for it, at
    /// `acquired_at`, has come to `created`: the slots, the live slots, and the
    /// number of the slot that is handed out.
    pub open spec fn settle(
        self,
        live: LiveSlotsModel,
        created: Result<A::Buffer, A::Error>,
        acquired_at: Seq<char>,
    ) -> (PoolModel<A::Buffer, F, U>, LiveSlotsModel, Result<Option<usize>, A::Error>) {
        let uid = self.uid(self.pool.first_free()->0);
        match created {
            Ok(buffer) => (
                self.pool.furnish(uid, buffer),
                live.enter(uid, buffer.dimensions(), acquired_at),
                Ok(Some(uid)),
            ),
            Err(error) => (self.pool, live, Err(error)),
        }
    }
}

/// The numbers of the slots in a result.
pub open spec fn handed_out<E>(result: Result<Option<Slot>, E>) -> Result<Option<usize>, E> {
    match result {
        Ok(Some(slot)) => Ok(Some(slot@)),
        Ok(None) => Ok(None),
        Err(error) => Err(error),
    }
}

/// What acquiring a slot of a swapchain that must allocate may come to. The
/// swapchain, the live slots and the registry are those before and after.
pub open spec fn acquires_new<A: Allocator<F>, F, U>(
    before: (SwapchainModel<A, F, U>, LiveSlotsModel, RegistryModel<F>),
    after: (SwapchainModel<A, F, U>, LiveSlotsModel, RegistryModel<F>),
    result: Result<Option<usize>, A::Error>,
) -> bool {
    exists|created: Result<A::Buffer, A::Error>, acquired_at: Seq<char>|
        {
            &&& before.0.allocator.creates(
                before.2,
                before.0.request,
                after.0.allocator,
                after.2,
                created,
            )
            &&& created is Ok ==> signature::is_acquire_signature(acquired_at)
            &&& after.0.request == before.0.request
            &&& (after.0.pool, after.1, result) == #[trigger] before.0.settle(
                before.1,
                created,
                acquired_at,
            )
        }
}

impl<A: Allocator<F>, F, U> Swapchain<A, F, U> {
    /// A swapchain whose buffers have these dimensions, this pixel format and one of
    /// these layout modifiers. Its slots get the next numbers of `live`.
    pub fn new(
        allocator: A,
        width: u32,
        height: u32,
        fourcc: Fourcc,
        modifiers: Vec<Modifier>,
        live: &mut LiveSlots,
    ) -> (swapchain: Swapchain<A, F, U>)
        requires
            old(live)@.wf(),
            old(live)@.next_uid + SLOT_CAP <= usize::MAX,
        ensures
            final(live)@.wf(),
            swapchain@.wf(),
            swapchain@.pool.fits(final(live)@),
            swapchain@.allocator == allocator,
            swapchain@.request == (Request { width, height, fourcc, modifiers: modifiers@ }),
            final(live)@.slots == old(live)@.slots,
            final(live)@.next_uid == old(live)@.next_uid + SLOT_CAP,
            swapchain@.pool.chain == Seq::new(
                SLOT_CAP as nat,
                |i: int| (old(live)@.next_uid + i) as usize,
            ),
            swapchain@.pool.slots.dom() == swapchain@.pool.chain.to_set(),
            forall|uid: usize| #[trigger]
                swapchain@.pool.slots.contains_key(uid) ==> swapchain@.pool.slots[uid]
                    == SlotModel::<A::Buffer, F, U>::fresh(),
    {
        let pool = SlotPool::new(live);
        Swapchain { allocator, width, height, fourcc, modifiers, pool }
    }

    /// The slots, for what their holders do with them.
    pub fn pool(&self) -> (pool: &SlotPool<A::Buffer, F, U>)
        ensures
            pool@ == self@.pool,
    {
        &self.pool
    }

    /// The slots, for what their holders do with them.
    pub fn pool_mut(&mut self) -> (pool: &mut SlotPool<A::Buffer, F, U>)
        ensures
            pool@ == old(self)@.pool,
            final(self)@ == old(self)@.with_pool(final(pool)@),
    {
        &mut self.pool
    }

    /// Acquire the first free slot, where allocating a buffer for it, at
    /// `acquired_at`, has come to `created`.
    pub fn settle(
        &mut self,
        live: &mut LiveSlots,
        created: Result<A::Buffer, A::Error>,
        acquired_at: String,
    ) -> (result: Result<Option<Slot>, A::Error>)
        requires
            old(self)@.wf(),
            old(live)@.wf(),
            old(self)@.pool.fits(old(live)@),
            old(self)@.must_allocate(),
        ensures
            final(self)@.wf(),
            final(live)@.wf(),
            final(self)@.pool.fits(final(live)@),
            final(self)@ == old(self)@.with_pool(final(self)@.pool),
            (final(self)@.pool, final(live)@, handed_out(result)) == old(self)@.settle(
                old(live)@,
                created,
                acquired_at@,
            ),
    {
        let i = self.pool.first_free().unwrap();
        match created {
            Ok(buffer) => Ok(Some(self.pool.furnish(i, buffer, acquired_at, live))),
            Err(error) => Err(error),
        }
    }

    /// Acquire a slot, if one is still free: the first one.
    ///
    /// A buffer is allocated for a slot when it is acquired for the first time.
    pub fn acquire(
        &mut self,
        live: &mut LiveSlots,
        registry: &mut DmabufRegistry<F>,
    ) -> (result: Result<Option<Slot>, A::Error>)
        requires
            old(self)@.wf(),
            old(live)@.wf(),
            old(registry)@.wf(),
            old(self)@.pool.fits(old(live)@),
            old(self)@.must_allocate() ==> old(self)@.allocator.can_create(
                old(registry)@,
                old(self)@.request,
            ),
        ensures
            final(self)@.wf(),
            final(live)@.wf(),
            final(registry)@.wf(),
            final(self)@.pool.fits(final(live)@),
            if old(self)@.must_allocate() {
                acquires_new(
                    (old(self)@, old(live)@, old(registry)@),
                    (final(self)@, final(live)@, final(registry)@),
                    handed_out(result),
                )
            } else {
                &&& final(live)@ == old(live)@
                &&& final(registry)@ == old(registry)@
                &&& match old(self)@.pool.first_free() {
                    Some(i) => {
                        let uid = old(self)@.uid(i);
                        &&& handed_out(result) == Ok::<Option<usize>, A::Error>(Some(uid))
                        &&& final(self)@ == old(self)@.with_pool(old(self)@.pool.lend(uid))
                    },
                    None => {
                        &&& handed_out(result) == Ok::<Option<usize>, A::Error>(None)
                        &&& final(self)@ == old(self)@
                    },
                }
            },
    {
        let ghost before = (self@, live@, registry@);
        let i = match self.pool.first_free() {
            Some(i) => i,
            None => {
                return Ok(None);
            },
        };
        if self.pool.has_buffer(i) {
            return Ok(Some(self.pool.lend(i)));
        }
        let created = self.allocator.create_buffer(
            registry,
            self.width,
            self.height,
            self.fourcc,
            self.modifiers.as_slice(),
        );
        let acquired_at = if created.is_ok() {
            signature::acquire_signature()
        } else {
            String::new()
        };
        let ghost told = acquired_at@;
        assert(self@.request == before.0.request);
        assert(self@.settle(before.1, created, acquired_at@) == before.0.settle(
            before.1,
            created,
            told,
        ));
        let result = self.settle(live, created, acquired_at);
        proof {
            let after = (self@, live@, registry@);
            assert(before.0.allocator.creates(
                before.2,
                before.0.request,
                after.0.allocator,
                after.2,
                created,
            ));
            assert(created is Ok ==> signature::is_acquire_signature(told));
            assert(after.0.request == before.0.request);
            assert((after.0.pool, after.1, handed_out(result)) == before.0.settle(
                before.1,
                created,
                told,
            ));
            assert(acquires_new(before, after, handed_out(result)));
        }
        result
    }

    /// Note that the buffer of `slot` has been submitted: it must not be rendered to
    /// any more, but may be kept.
    ///
    /// Its age becomes one, and the known ages of the others grow. Nothing happens
    /// if the slot is no longer in the chain. Returns the slots that were dropped.
    pub fn submitted(&mut self, slot: &Slot, live: &mut LiveSlots) -> (dropped: Vec<
        InternalSlot<A::Buffer, F, U>,
    >)
        requires
            old(self)@.wf(),
            old(live)@.wf(),
            old(self)@.pool.fits(old(live)@),
            old(self)@.pool.chain.contains(slot@) ==> old(self)@.pool.lends(slot@),
            old(self)@.pool.chain.contains(slot@) ==> old(live)@.next_uid + SLOT_CAP <= usize::MAX,
        ensures
            final(self)@.wf(),
            final(live)@.wf(),
            final(self)@.pool.fits(final(live)@),
            final(self)@ == old(self)@.with_pool(final(self)@.pool),
            ({
                let before = Turnover::of(old(self)@.pool, old(live)@);
                let after = Turnover::<A::Buffer, F, U> {
                    pool: final(self)@.pool,
                    live: final(live)@,
                    dropped: pool::slot_views(dropped@),
                };
                after == if old(self)@.pool.chain.contains(slot@) {
                    before.renew(old(self)@.pool.ages_after_submission(slot@))
                } else {
                    before
                }
            }),
    {
        proof {
            pool::lemma_renewal_keeps_length(
                Turnover::of(self@.pool, live@),
                self@.pool.ages_after_submission(slot@),
                SLOT_CAP as nat,
            );
        }
        self.pool.submitted(slot, live)
    }

    /// Change the dimensions of the buffers.
    ///
    /// If they change, no buffer is handed out again. Slots that are held are
    /// unaffected. Returns the slots that were dropped.
    pub fn resize(&mut self, width: u32, height: u32, live: &mut LiveSlots) -> (dropped: Vec<
        InternalSlot<A::Buffer, F, U>,
    >)
        requires
            old(self)@.wf(),
            old(live)@.wf(),
            old(self)@.pool.fits(old(live)@),
            !old(self)@.has_size(width, height) ==> old(live)@.next_uid + SLOT_CAP <= usize::MAX,
        ensures
            final(self)@.wf(),
            final(live)@.wf(),
            final(self)@.pool.fits(final(live)@),
            (final(self)@, final(live)@, pool::slot_views(dropped@)) == old(self)@.resize(
                old(live)@,
                width,
                height,
            ),
            final(self)@.request.width == width,
            final(self)@.request.height == height,
            final(self)@.request.fourcc == old(self)@.request.fourcc,
            final(self)@.request.modifiers == old(self)@.request.modifiers,
            final(self)@.allocator == old(self)@.allocator,
    {
        let ghost before = self@;
        if self.width == width && self.height == height {
            let dropped: Vec<InternalSlot<A::Buffer, F, U>> = Vec::new();
            proof {
                assert(pool::slot_views(dropped@) =~= Seq::empty());
                assert(before.resize(live@, width, height).0 =~= before);
            }
            return dropped;
        }
        let ghost live_before = live@;
        self.width = width;
        self.height = height;
        let dropped = self.reset_buffers(live);
        proof {
            assert(before.resize(live_before, width, height).0 =~= self@);
        }
        dropped
    }

    /// Replace every slot, so that no buffer is handed out again. Returns the slots
    /// that were dropped.
    pub fn reset_buffers(&mut self, live: &mut LiveSlots) -> (dropped: Vec<
        InternalSlot<A::Buffer, F, U>,
    >)
        requires
            old(self)@.wf(),
            old(live)@.wf(),
            old(self)@.pool.fits(old(live)@),
            old(live)@.next_uid + SLOT_CAP <= usize::MAX,
        ensures
            final(self)@.wf(),
            final(live)@.wf(),
            final(self)@.pool.fits(final(live)@),
            final(self)@ == old(self)@.with_pool(final(self)@.pool),
            Turnover::of(old(self)@.pool, old(live)@).renew(old(self)@.pool.no_ages())
                == (Turnover::<A::Buffer, F, U> {
                pool: final(self)@.pool,
                live: final(live)@,
                dropped: pool::slot_views(dropped@),
            }),
    {
        proof {
            pool::lemma_renewal_keeps_length(
                Turnover::of(self@.pool, live@),
                self@.pool.no_ages(),
                SLOT_CAP as nat,
            );
        }
        self.pool.reset_buffers(live)
    }

    /// Reset the age of every buffer, so that the next frame is drawn in full.
    ///
    /// A slot that is held is replaced. Returns the slots that were dropped.
    pub fn reset_buffer_ages(&mut self, live: &mut LiveSlots) -> (dropped: Vec<
        InternalSlot<A::Buffer, F, U>,
    >)
        requires
            old(self)@.wf(),
            old(live)@.wf(),
            old(self)@.pool.fits(old(live)@),
            old(live)@.next_uid + SLOT_CAP <= usize::MAX,
        ensures
            final(self)@.wf(),
            final(live)@.wf(),
            final(self)@.pool.fits(final(live)@),
            final(self)@ == old(self)@.with_pool(final(self)@.pool),
            Turnover::of(old(self)@.pool, old(live)@).renew(old(self)@.pool.ages_after_reset())
                == (Turnover::<A::Buffer, F, U> {
                pool: final(self)@.pool,
                live: final(live)@,
                dropped: pool::slot_views(dropped@),
            }),
    {
        proof {
            pool::lemma_renewal_keeps_length(
                Turnover::of(self@.pool, live@),
                self@.pool.ages_after_reset(),
                SLOT_CAP as nat,
            );
        }
        self.pool.reset_buffer_ages(live)
    }

    /// The number of the DMA buffer that each slot was exported as, or `None` for
    /// one that was not exported.
    pub fn debug_slot_dmabuf_ids(&self) -> (ids: Vec<Option<u64>>)
        requires
            self@.wf(),
        ensures
            ids@ == self@.pool.chain.map_values(|uid: usize| self@.pool.dmabuf_id(uid)),
    {
        self.pool.debug_slot_dmabuf_ids()
    }

    /// The width and height that buffers are allocated with.
    pub fn dimensions(&self) -> (dimensions: (u32, u32))
        ensures
            dimensions == (self@.request.width, self@.request.height),
    {
        (self.width, self.height)
    }

    /// The pixel format of the buffers.
    pub fn format(&self) -> (fourcc: Fourcc)
        ensures
            fourcc == self@.request.fourcc,
    {
        self.fourcc
    }

    /// The layout modifiers that the buffers may have.
    pub fn modifiers(&self) -> (modifiers: &[Modifier])
        ensures
            modifiers@ == self@.request.modifiers,
    {
        self.modifiers.as_slice()
    }

    /// Give up the swapchain. Returns the allocator, the slots that somebody holds,
    /// and the slots that were dropped.
    pub fn retire(self, live: &mut LiveSlots) -> (parts: (
        A,
        SlotPool<A::Buffer, F, U>,
        Vec<InternalSlot<A::Buffer, F, U>>,
    ))
        requires
            self@.wf(),
            old(live)@.wf(),
            self@.pool.fits(old(live)@),
        ensures
            parts.1@.wf(),
            final(live)@.wf(),
            parts.1@.fits(final(live)@),
            parts.0 == self@.allocator,
            parts.1@.chain.len() == 0,
            Turnover::of(self@.pool, old(live)@).retire() == (Turnover::<A::Buffer, F, U> {
                pool: parts.1@,
                live: final(live)@,
                dropped: pool::slot_views(parts.2@),
            }),
    {
        let mut pool = self.pool;
        let dropped = pool.retire(live);
        (self.allocator, pool, dropped)
    }
}

} // verus!
