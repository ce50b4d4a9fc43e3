//! The slots of a swapchain.
//!
//! A slot lives as long as its swapchain or a [`Slot`] refers to it. The swapchain
//! refers to the ones that it can hand out again; a [`Slot`] is somebody's hold on
//! one of them.

use crate::allocator::allocate::Disposable;
use crate::allocator::dmabuf::buffer::{Dmabuf, DmabufModel};
use crate::allocator::dmabuf::export::AsDmabuf;
use crate::allocator::dmabuf::registry::{DmabufRegistry, RegistryModel};
use crate::allocator::format::Buffer;
use crate::allocator::swapchain::live::{LiveSlots, LiveSlotsModel};
use std::collections::HashMap;
use vstd::prelude::*;

verus! {

/// The slots that a swapchain has.
pub const SLOT_CAP: usize = 4;

/// What is kept with a slot: at most one DMA buffer, and at most one value for each of
/// the keys that the user of the swapchain has for its kinds of values.
///
/// The DMA buffer is the one that the slot was exported as, unless the user has put
/// another one there before.
pub struct UserDataMap<F, U> {
    dmabuf: Option<Dmabuf<F>>,
    values: HashMap<u64, U>,
}

/// What a [`UserDataMap`] stands for.
#[verifier::ext_equal]
pub struct UserDataModel<F, U> {
    /// The DMA buffer.
    pub dmabuf: Option<DmabufModel<F>>,
    /// The values of the user, by their keys.
    pub values: Map<u64, U>,
}

impl<F, U> View for UserDataMap<F, U> {
    type V = UserDataModel<F, U>;

    closed spec fn view(&self) -> UserDataModel<F, U> {
        UserDataModel {
            dmabuf: match self.dmabuf {
                Some(dmabuf) => Some(dmabuf@),
                None => None,
            },
            values: self.values@,
        }
    }
}

impl<F, U> UserDataModel<F, U> {
    /// Nothing is kept.
    pub open spec fn empty() -> UserDataModel<F, U> {
        UserDataModel { dmabuf: None, values: Map::empty() }
    }
}

impl<F, U> UserDataMap<F, U> {
    /// Nothing is kept.
    fn new() -> (userdata: UserDataMap<F, U>)
        ensures
            userdata@ == UserDataModel::<F, U>::empty(),
    {
        UserDataMap { dmabuf: None, values: HashMap::new() }
    }

    /// The value that is kept under `key`.
    pub fn get(&self, key: u64) -> (value: Option<&U>)
        ensures
            match value {
                Some(value) => self@.values.contains_key(key) && *value == self@.values[key],
                None => !self@.values.contains_key(key),
            },
    {
        self.values.get(&key)
    }

    /// The DMA buffer that is kept.
    pub fn dmabuf(&self) -> (dmabuf: Option<&Dmabuf<F>>)
        ensures
            match dmabuf {
                Some(dmabuf) => self@.dmabuf == Some(dmabuf@),
                None => self@.dmabuf is None,
            },
    {
        self.dmabuf.as_ref()
    }
}

/// A slot.
pub struct InternalSlot<B, F, U> {
    buffer: Option<B>,
    acquired: bool,
    age: u8,
    userdata: UserDataMap<F, U>,
}

/// What an [`InternalSlot`] stands for.
#[verifier::ext_equal]
pub struct SlotModel<B, F, U> {
    /// The buffer, once it has been allocated.
    pub buffer: Option<B>,
    /// Whether somebody holds the slot.
    pub acquired: bool,
    /// How many submissions ago the buffer was submitted, or zero if its contents
    /// are unknown.
    pub age: u8,
    /// What is kept with the slot.
    pub userdata: UserDataModel<F, U>,
}

impl<B, F, U> View for InternalSlot<B, F, U> {
    type V = SlotModel<B, F, U>;

    closed spec fn view(&self) -> SlotModel<B, F, U> {
        SlotModel {
            buffer: self.buffer,
            acquired: self.acquired,
            age: self.age,
            userdata: self.userdata@,
        }
    }
}

impl<B, F, U> SlotModel<B, F, U> {
    /// A slot that was never used.
    pub open spec fn fresh() -> SlotModel<B, F, U> {
        SlotModel { buffer: None, acquired: false, age: 0, userdata: UserDataModel::empty() }
    }

    /// A slot without a buffer was never used.
    pub open spec fn wf(self) -> bool {
        self.buffer is None ==> self == SlotModel::<B, F, U>::fresh()
    }
}

impl<B, F, U> InternalSlot<B, F, U> {
    /// A slot that was never used.
    fn fresh() -> (slot: InternalSlot<B, F, U>)
        ensures
            slot@ == SlotModel::<B, F, U>::fresh(),
    {
        InternalSlot { buffer: None, acquired: false, age: 0, userdata: UserDataMap::new() }
    }
}

/// Somebody's hold on a slot.
///
/// The slot is not handed out again before it has been given back with
/// [`release`](Slot::release).
#[derive(Debug)]
pub struct Slot {
    uid: usize,
}

impl View for Slot {
    type V = usize;

    closed spec fn view(&self) -> usize {
        self.uid
    }
}

/// The slots that a swapchain or somebody else refers to.
pub struct SlotPool<B, F, U> {
    chain: Vec<usize>,
    slots: HashMap<usize, InternalSlot<B, F, U>>,
}

/// What a [`SlotPool`] stands for.
#[verifier::ext_equal]
pub struct PoolModel<B, F, U> {
    /// The numbers of the slots that the swapchain refers to.
    pub chain: Seq<usize>,
    /// All slots, by their numbers.
    pub slots: Map<usize, SlotModel<B, F, U>>,
}

impl<B, F, U> View for SlotPool<B, F, U> {
    type V = PoolModel<B, F, U>;

    closed spec fn view(&self) -> PoolModel<B, F, U> {
        PoolModel {
            chain: self.chain@,
            slots: self.slots@.map_values(|slot: InternalSlot<B, F, U>| slot@),
        }
    }
}

impl<B, F, U> PoolModel<B, F, U> {
    /// The swapchain refers to different slots, all of which live, and every other
    /// slot is held by somebody.
    pub open spec fn wf(self) -> bool {
        &&& self.chain.len() <= SLOT_CAP
        &&& self.chain.no_duplicates()
        &&& forall|i: int|
            0 <= i < self.chain.len() ==> self.slots.contains_key(#[trigger] self.chain[i])
        &&& forall|uid: usize| #[trigger]
            self.slots.contains_key(uid) ==> {
                &&& self.slots[uid].wf()
                &&& self.slots[uid].acquired || self.chain.contains(uid)
            }
    }

    /// The numbers of all slots have been handed out, and exactly the slots that
    /// have a buffer are entered among the live ones.
    pub open spec fn fits(self, live: LiveSlotsModel) -> bool {
        forall|uid: usize| #[trigger]
            self.slots.contains_key(uid) ==> {
                &&& uid < live.next_uid
                &&& live.slots.contains_key(uid) <==> self.slots[uid].buffer is Some
            }
    }

    /// Somebody holds the slot `uid`.
    pub open spec fn lends(self, uid: usize) -> bool {
        &&& self.slots.contains_key(uid)
        &&& self.slots[uid].acquired
    }

    /// The pool with `slot` in place of the slot `uid`.
    pub open spec fn with_slot(self, uid: usize, slot: SlotModel<B, F, U>) -> PoolModel<B, F, U> {
        PoolModel { slots: self.slots.insert(uid, slot), ..self }
    }

    /// The position in the chain, from `from` on, of the first slot that nobody
    /// holds.
    pub open spec fn free_from(self, from: int) -> Option<int>
        decreases self.chain.len() - from,
    {
        if from < 0 || from >= self.chain.len() {
            None
        } else if !self.slots[self.chain[from]].acquired {
            Some(from)
        } else {
            self.free_from(from + 1)
        }
    }

    /// The position in the chain of the first slot that nobody holds.
    pub open spec fn first_free(self) -> Option<int> {
        self.free_from(0)
    }

    /// The pool once the slot `uid` has been handed out.
    pub open spec fn lend(self, uid: usize) -> PoolModel<B, F, U> {
        self.with_slot(uid, SlotModel { acquired: true, ..self.slots[uid] })
    }

    /// The pool once `buffer` has been allocated for the slot `uid` and the slot has
    /// been handed out.
    pub open spec fn furnish(self, uid: usize, buffer: B) -> PoolModel<B, F, U> {
        self.with_slot(
            uid,
            SlotModel { buffer: Some(buffer), acquired: true, ..self.slots[uid] },
        )
    }

    /// The pool once the slot `uid` has been given back: it can be handed out again
    /// if it is still in the chain, and is dropped otherwise.
    pub open spec fn give_back(self, uid: usize) -> PoolModel<B, F, U> {
        if self.chain.contains(uid) {
            self.with_slot(uid, SlotModel { acquired: false, ..self.slots[uid] })
        } else {
            PoolModel { slots: self.slots.remove(uid), ..self }
        }
    }

    /// The pool with `dmabuf` kept with the slot `uid`.
    pub open spec fn keep_dmabuf(self, uid: usize, dmabuf: DmabufModel<F>) -> PoolModel<B, F, U> {
        let slot = self.slots[uid];
        self.with_slot(
            uid,
            SlotModel {
                userdata: UserDataModel { dmabuf: Some(dmabuf), ..slot.userdata },
                ..slot
            },
        )
    }

    /// The pool with `value` kept with the slot `uid`, under `key`.
    pub open spec fn keep_value(self, uid: usize, key: u64, value: U) -> PoolModel<B, F, U> {
        let slot = self.slots[uid];
        self.with_slot(
            uid,
            SlotModel {
                userdata: UserDataModel {
                    values: slot.userdata.values.insert(key, value),
                    ..slot.userdata
                },
                ..slot
            },
        )
    }
}

/// A pool, the live slots, and the slots that were dropped on the way here.
#[verifier::ext_equal]
pub struct Turnover<B, F, U> {
    /// The pool.
    pub pool: PoolModel<B, F, U>,
    /// The live slots.
    pub live: LiveSlotsModel,
    /// The slots that were dropped, the first one first.
    pub dropped: Seq<SlotModel<B, F, U>>,
}

impl<B, F, U> Turnover<B, F, U> {
    /// Nothing has been dropped.
    pub open spec fn of(pool: PoolModel<B, F, U>, live: LiveSlotsModel) -> Turnover<B, F, U> {
        Turnover { pool, live, dropped: Seq::empty() }
    }

    /// A fresh slot has taken the position `i` of the chain. The one that was there
    /// is dropped unless somebody holds it.
    pub open spec fn replace(self, i: int) -> Turnover<B, F, U> {
        let was = self.pool.chain[i];
        let slot = self.pool.slots[was];
        let kept = if slot.acquired {
            self.pool.slots
        } else {
            self.pool.slots.remove(was)
        };
        Turnover {
            pool: PoolModel {
                chain: self.pool.chain.update(i, self.live.next_uid),
                slots: kept.insert(self.live.next_uid, SlotModel::fresh()),
            },
            live: if slot.acquired {
                self.live.count()
            } else {
                self.live.count().leave(was)
            },
            dropped: if slot.acquired {
                self.dropped
            } else {
                self.dropped.push(slot)
            },
        }
    }

    /// The slot at the position `i` of the chain has this age, or has been replaced
    /// if there is none.
    pub open spec fn renew_at(self, i: int, age: Option<u8>) -> Turnover<B, F, U> {
        match age {
            None => self.replace(i),
            Some(age) => Turnover {
                pool: self.pool.with_slot(
                    self.pool.chain[i],
                    SlotModel { age, ..self.pool.slots[self.pool.chain[i]] },
                ),
                ..self
            },
        }
    }

    /// The first `n` slots of the chain have these ages, or have been replaced where
    /// there is none.
    pub open spec fn renew_first(self, ages: Seq<Option<u8>>, n: nat) -> Turnover<B, F, U>
        decreases n,
    {
        if n == 0 {
            self
        } else {
            self.renew_first(ages, (n - 1) as nat).renew_at(n - 1, ages[n - 1])
        }
    }

    /// The chain no longer refers to its first slot, which is dropped unless somebody
    /// holds it.
    pub open spec fn withdraw(self) -> Turnover<B, F, U> {
        let was = self.pool.chain.first();
        let slot = self.pool.slots[was];
        let chain = self.pool.chain.drop_first();
        if slot.acquired {
            Turnover { pool: PoolModel { chain, ..self.pool }, ..self }
        } else {
            Turnover {
                pool: PoolModel { chain, slots: self.pool.slots.remove(was) },
                live: self.live.leave(was),
                dropped: self.dropped.push(slot),
            }
        }
    }

    /// The chain no longer refers to its first `n` slots.
    pub open spec fn withdraw_first(self, n: nat) -> Turnover<B, F, U>
        decreases n,
    {
        if n == 0 {
            self
        } else {
            self.withdraw_first((n - 1) as nat).withdraw()
        }
    }

    /// The chain no longer refers to any slot.
    pub open spec fn retire(self) -> Turnover<B, F, U> {
        self.withdraw_first(self.pool.chain.len())
    }

    /// The slots of the chain have these ages, or have been replaced where there is
    /// none.
    pub open spec fn renew(self, ages: Seq<Option<u8>>) -> Turnover<B, F, U> {
        self.renew_first(ages, ages.len())
    }
}

impl<B, F, U> PoolModel<B, F, U> {
    /// The ages once the slot `uid` has been submitted. It has the age one; every
    /// other buffer with a known age is one older, and is replaced if its age
    /// cannot be told any more.
    pub open spec fn ages_after_submission(self, uid: usize) -> Seq<Option<u8>> {
        self.chain.map_values(
            |other: usize|
                {
                    let slot = self.slots[other];
                    if other == uid {
                        Some(1u8)
                    } else if slot.buffer is None || slot.age == 0 {
                        Some(slot.age)
                    } else if slot.age == u8::MAX {
                        None
                    } else {
                        Some((slot.age + 1) as u8)
                    }
                },
        )
    }

    /// The ages once they have been reset. A slot that somebody holds is replaced.
    pub open spec fn ages_after_reset(self) -> Seq<Option<u8>> {
        self.chain.map_values(
            |uid: usize|
                if self.slots[uid].acquired {
                    None
                } else {
                    Some(0u8)
                },
        )
    }

    /// No slot of the chain is kept.
    pub open spec fn no_ages(self) -> Seq<Option<u8>> {
        self.chain.map_values(|uid: usize| None::<u8>)
    }

    /// The number of the DMA buffer that the slot `uid` was exported as.
    pub open spec fn dmabuf_id(self, uid: usize) -> Option<u64> {
        match self.slots[uid].userdata.dmabuf {
            Some(dmabuf) => Some(dmabuf.buffer.debug_id),
            None => None,
        }
    }
}

impl<B, F, U> PoolModel<B, F, U> {
    /// In the pool `other` the same slot stands at the position `i` of the chain.
    spec fn unchanged_at(self, other: PoolModel<B, F, U>, i: int) -> bool {
        &&& other.chain[i] == self.chain[i]
        &&& other.slots[self.chain[i]] == self.slots[self.chain[i]]
    }
}

/// Renewing slots keeps the length of the chain.
pub proof fn lemma_renewal_keeps_length<B, F, U>(
    turnover: Turnover<B, F, U>,
    ages: Seq<Option<u8>>,
    n: nat,
)
    requires
        n <= turnover.pool.chain.len(),
    ensures
        turnover.renew_first(ages, n).pool.chain.len() == turnover.pool.chain.len(),
    decreases n,
{
    if n > 0 {
        lemma_renewal_keeps_length(turnover, ages, (n - 1) as nat);
    }
}

/// What each of `slots` stands for.
pub open spec fn slot_views<B, F, U>(slots: Seq<InternalSlot<B, F, U>>) -> Seq<SlotModel<B, F, U>> {
    slots.map_values(|slot: InternalSlot<B, F, U>| slot@)
}

impl<B, F, U> SlotPool<B, F, U> {
    /// Put `slot` under the number `uid`.
    fn put(&mut self, uid: usize, slot: InternalSlot<B, F, U>)
        ensures
            final(self)@ == old(self)@.with_slot(uid, slot@),
    {
        let ghost before = self.slots@;
        self.slots.insert(uid, slot);
        proof {
            let view = |slot: InternalSlot<B, F, U>| slot@;
            assert(self.slots@.map_values(view) =~= before.map_values(view).insert(uid, slot@));
        }
    }

    /// Take out the slot `uid`.
    fn take(&mut self, uid: usize) -> (slot: Option<InternalSlot<B, F, U>>)
        ensures
            final(self)@ == (PoolModel::<B, F, U> {
                slots: old(self)@.slots.remove(uid),
                ..old(self)@
            }),
            slot is Some <==> old(self)@.slots.contains_key(uid),
            slot matches Some(slot) ==> slot@ == old(self)@.slots[uid],
    {
        let ghost before = self.slots@;
        let slot = self.slots.remove(&uid);
        proof {
            let view = |slot: InternalSlot<B, F, U>| slot@;
            assert(self.slots@.map_values(view) =~= before.map_values(view).remove(uid));
        }
        slot
    }

    /// Look up the slot `uid`.
    fn get(&self, uid: usize) -> (slot: Option<&InternalSlot<B, F, U>>)
        ensures
            slot is Some <==> self@.slots.contains_key(uid),
            slot matches Some(slot) ==> slot@ == self@.slots[uid],
    {
        self.slots.get(&uid)
    }

    /// Whether the slot `uid` is in the chain.
    fn in_chain(&self, uid: usize) -> (result: bool)
        ensures
            result == self@.chain.contains(uid),
    {
        for i in 0..self.chain.len()
            invariant
                forall|j: int| 0 <= j < i ==> self@.chain[j] != uid,
        {
            if self.chain[i] == uid {
                assert(self@.chain[i as int] == uid);
                return true;
            }
        }
        false
    }

    /// A pool of slots that were never used.
    pub(crate) fn new(live: &mut LiveSlots) -> (pool: SlotPool<B, F, U>)
        requires
            old(live)@.wf(),
            old(live)@.next_uid + SLOT_CAP <= usize::MAX,
        ensures
            final(live)@.wf(),
            pool@.wf(),
            pool@.fits(final(live)@),
            final(live)@.slots == old(live)@.slots,
            final(live)@.next_uid == old(live)@.next_uid + SLOT_CAP,
            pool@.chain == Seq::new(
                SLOT_CAP as nat,
                |i: int| (old(live)@.next_uid + i) as usize,
            ),
            pool@.slots.dom() == pool@.chain.to_set(),
            forall|uid: usize| #[trigger]
                pool@.slots.contains_key(uid) ==> pool@.slots[uid] == SlotModel::<
                    B,
                    F,
                    U,
                >::fresh(),
    {
        let mut pool = SlotPool { chain: Vec::new(), slots: HashMap::new() };
        let ghost start = live@.next_uid;
        for i in 0..SLOT_CAP
            invariant
                start + SLOT_CAP <= usize::MAX,
                live@.wf(),
                live@.slots == old(live)@.slots,
                live@.next_uid == start + i,
                pool@.chain.len() == i,
                forall|j: int| 0 <= j < i ==> #[trigger] pool@.chain[j] == start + j,
                forall|uid: usize| #[trigger]
                    pool@.slots.contains_key(uid) <==> start <= uid < start + i,
                forall|uid: usize| #[trigger]
                    pool@.slots.contains_key(uid) ==> pool@.slots[uid] == SlotModel::<
                        B,
                        F,
                        U,
                    >::fresh(),
                forall|uid: usize| #[trigger]
                    live@.slots.contains_key(uid) ==> uid < start,
        {
            let ghost before = pool@.slots;
            let uid = live.count();
            pool.chain.push(uid);
            assert(pool@.slots == before);
            pool.put(uid, InternalSlot::fresh());
        }
        proof {
            assert forall|uid: usize| #[trigger] pool@.slots.contains_key(
                uid,
            ) implies pool@.chain.contains(uid) by {
                assert(pool@.chain[uid - start] == uid);
            }
            assert(pool@.slots.dom() =~= pool@.chain.to_set());
        }
        pool
    }

    /// The position in the chain of the first slot that nobody holds.
    pub fn first_free(&self) -> (free: Option<usize>)
        requires
            self@.wf(),
        ensures
            match free {
                Some(i) => self@.first_free() == Some(i as int) && i < self@.chain.len(),
                None => self@.first_free() is None,
            },
    {
        for i in 0..self.chain.len()
            invariant
                self@.wf(),
                self@.first_free() == self@.free_from(i as int),
        {
            match self.get(self.chain[i]) {
                Some(slot) => {
                    if !slot.acquired {
                        return Some(i);
                    }
                },
                None => {},
            }
        }
        None
    }

    /// Whether the slot at the position `i` of the chain has a buffer.
    pub(crate) fn has_buffer(&self, i: usize) -> (result: bool)
        requires
            self@.wf(),
            i < self@.chain.len(),
        ensures
            result == self@.slots[self@.chain[i as int]].buffer is Some,
    {
        assert(self@.slots.contains_key(self@.chain[i as int]));
        match self.get(self.chain[i]) {
            Some(slot) => slot.buffer.is_some(),
            None => false,
        }
    }

    /// Hand out the slot at the position `i` of the chain, which has a buffer.
    pub(crate) fn lend(&mut self, i: usize) -> (slot: Slot)
        requires
            old(self)@.wf(),
            i < old(self)@.chain.len(),
            old(self)@.slots[old(self)@.chain[i as int]].buffer is Some,
        ensures
            final(self)@.wf(),
            final(self)@ == old(self)@.lend(old(self)@.chain[i as int]),
            slot@ == old(self)@.chain[i as int],
    {
        let ghost before = self@;
        let uid = self.chain[i];
        if let Some(mut slot) = self.take(uid) {
            slot.acquired = true;
            self.put(uid, slot);
        }
        proof {
            assert(self@ =~= before.lend(uid));
        }
        Slot { uid }
    }

    /// Furnish the slot at the position `i` of the chain with `buffer`, which was
    /// allocated for it at `acquired_at`, and hand it out.
    pub(crate) fn furnish(
        &mut self,
        i: usize,
        buffer: B,
        acquired_at: String,
        live: &mut LiveSlots,
    ) -> (slot: Slot) where B: Buffer
        requires
            old(self)@.wf(),
            old(live)@.wf(),
            old(self)@.fits(old(live)@),
            i < old(self)@.chain.len(),
        ensures
            final(self)@.wf(),
            final(live)@.wf(),
            final(self)@.fits(final(live)@),
            final(self)@ == old(self)@.furnish(old(self)@.chain[i as int], buffer),
            final(live)@ == old(live)@.enter(
                old(self)@.chain[i as int],
                buffer.dimensions(),
                acquired_at@,
            ),
            slot@ == old(self)@.chain[i as int],
    {
        let ghost before = self@;
        let uid = self.chain[i];
        let size = buffer.size();
        live.enter(uid, size, acquired_at);
        if let Some(mut slot) = self.take(uid) {
            slot.buffer = Some(buffer);
            slot.acquired = true;
            self.put(uid, slot);
        }
        proof {
            assert(self@ =~= before.furnish(uid, buffer));
        }
        Slot { uid }
    }

    /// Put a fresh slot at the position `i` of the chain. The one that was there is
    /// dropped, and returned, unless somebody holds it.
    fn replace(&mut self, i: usize, live: &mut LiveSlots) -> (dropped: Option<
        InternalSlot<B, F, U>,
    >)
        requires
            old(self)@.wf(),
            old(live)@.wf(),
            old(self)@.fits(old(live)@),
            old(live)@.next_uid < usize::MAX,
            i < old(self)@.chain.len(),
        ensures
            final(self)@.wf(),
            final(live)@.wf(),
            final(self)@.fits(final(live)@),
            ({
                let after = Turnover::of(old(self)@, old(live)@).replace(i as int);
                &&& final(self)@ == after.pool
                &&& final(live)@ == after.live
            }),
            match dropped {
                Some(slot) => {
                    &&& !old(self)@.slots[old(self)@.chain[i as int]].acquired
                    &&& slot@ == old(self)@.slots[old(self)@.chain[i as int]]
                },
                None => old(self)@.slots[old(self)@.chain[i as int]].acquired,
            },
    {
        let ghost before = self@;
        let ghost live_before = live@;
        let ghost after = Turnover::of(before, live_before).replace(i as int);
        let was = self.chain[i];
        let uid = live.count();
        let held = match self.get(was) {
            Some(slot) => slot.acquired,
            None => false,
        };
        self.chain.set(i, uid);
        assert(self@.slots == before.slots);
        let dropped = if held {
            None
        } else {
            live.leave(was);
            self.take(was)
        };
        self.put(uid, InternalSlot::fresh());
        proof {
            assert(self@ =~= after.pool);
            assert(live@ =~= after.live);
            assert(self@.chain[i as int] == uid);
            assert forall|j: int| 0 <= j < self@.chain.len() implies self@.slots.contains_key(
                #[trigger] self@.chain[j],
            ) by {
                if j != i {
                    assert(self@.chain[j] == before.chain[j]);
                    assert(before.slots.contains_key(before.chain[j]));
                    assert(before.chain[j] != before.chain[i as int]);
                }
            }
            assert forall|other: usize| #[trigger] self@.slots.contains_key(other) implies {
                &&& self@.slots[other].wf()
                &&& self@.slots[other].acquired || self@.chain.contains(other)
            } by {
                if other != uid && !self@.slots[other].acquired {
                    assert(before.slots.contains_key(other));
                    assert(before.chain.contains(other));
                    let j = choose|j: int| 0 <= j < before.chain.len() && before.chain[j] == other;
                    assert(j != i);
                    assert(self@.chain[j] == other);
                }
            }
        }
        dropped
    }

    /// Give the slot at the position `i` of the chain this age.
    fn set_age(&mut self, i: usize, age: u8)
        requires
            old(self)@.wf(),
            i < old(self)@.chain.len(),
            old(self)@.slots[old(self)@.chain[i as int]].buffer is None ==> age == 0,
        ensures
            final(self)@.wf(),
            final(self)@ == old(self)@.with_slot(
                old(self)@.chain[i as int],
                SlotModel { age, ..old(self)@.slots[old(self)@.chain[i as int]] },
            ),
    {
        let ghost before = self@;
        let uid = self.chain[i];
        if let Some(mut slot) = self.take(uid) {
            slot.age = age;
            self.put(uid, slot);
        }
        proof {
            assert(self@ =~= before.with_slot(uid, SlotModel { age, ..before.slots[uid] }));
        }
    }

    /// Give the slots of the chain these ages. Where there is none, the slot is
    /// replaced. Returns the slots that were dropped.
    fn renew(&mut self, ages: &Vec<Option<u8>>, live: &mut LiveSlots) -> (dropped: Vec<
        InternalSlot<B, F, U>,
    >)
        requires
            old(self)@.wf(),
            old(live)@.wf(),
            old(self)@.fits(old(live)@),
            old(live)@.next_uid + SLOT_CAP <= usize::MAX,
            ages@.len() == old(self)@.chain.len(),
            forall|i: int|
                0 <= i < ages@.len() ==> old(self)@.slots[old(self)@.chain[i]].buffer is None
                    ==> (#[trigger] ages@[i]) == Some(0u8) || ages@[i] is None,
        ensures
            final(self)@.wf(),
            final(live)@.wf(),
            final(self)@.fits(final(live)@),
            Turnover::of(old(self)@, old(live)@).renew(ages@) == (Turnover::<B, F, U> {
                pool: final(self)@,
                live: final(live)@,
                dropped: slot_views(dropped@),
            }),
    {
        let ghost before = self@;
        let ghost live_before = live@;
        let ghost start = Turnover::of(before, live_before);
        let mut dropped: Vec<InternalSlot<B, F, U>> = Vec::new();
        proof {
            assert(slot_views(dropped@) =~= Seq::empty());
        }
        for i in 0..ages.len()
            invariant
                before.wf(),
                before.fits(live_before),
                start == Turnover::of(before, live_before),
                live_before.next_uid + SLOT_CAP <= usize::MAX,
                ages@.len() == before.chain.len(),
                forall|j: int|
                    0 <= j < ages@.len() ==> before.slots[before.chain[j]].buffer is None ==> (
                    #[trigger] ages@[j]) == Some(0u8) || ages@[j] is None,
                self@.wf(),
                live@.wf(),
                self@.fits(live@),
                live@.next_uid <= live_before.next_uid + i,
                live_before.next_uid <= live@.next_uid,
                self@.chain.len() == before.chain.len(),
                forall|j: int|
                    i <= j < before.chain.len() ==> #[trigger] before.unchanged_at(self@, j),
                start.renew_first(ages@, i as nat) == (Turnover::<B, F, U> {
                    pool: self@,
                    live: live@,
                    dropped: slot_views(dropped@),
                }),
        {
            let ghost here = self@;
            let ghost live_here = live@;
            let ghost dropped_here = slot_views(dropped@);
            let ghost reached = start.renew_first(ages@, i as nat);
            assert(before.unchanged_at(here, i as int));
            match ages[i] {
                None => {
                    if let Some(slot) = self.replace(i, live) {
                        dropped.push(slot);
                        proof {
                            assert(slot_views(dropped@) =~= dropped_here.push(slot@));
                        }
                    }
                    proof {
                        assert forall|j: int|
                            i < j < before.chain.len() implies #[trigger] before.unchanged_at(
                            self@,
                            j,
                        ) by {
                            assert(before.unchanged_at(here, j));
                            assert(before.slots.contains_key(before.chain[j]));
                            assert(before.chain[j] != before.chain[i as int]);
                        }
                        assert(reached.replace(i as int) =~= (Turnover::<B, F, U> {
                            pool: self@,
                            live: live@,
                            dropped: slot_views(dropped@),
                        }));
                    }
                },
                Some(age) => {
                    self.set_age(i, age);
                    proof {
                        assert forall|j: int|
                            i < j < before.chain.len() implies #[trigger] before.unchanged_at(
                            self@,
                            j,
                        ) by {
                            assert(before.unchanged_at(here, j));
                            assert(before.chain[j] != before.chain[i as int]);
                        }
                    }
                },
            }
        }
        dropped
    }

    /// Note that the buffer of `slot` has been submitted. Nothing happens if the
    /// slot is no longer in the chain. Returns the slots that were dropped.
    pub(crate) fn submitted(&mut self, slot: &Slot, live: &mut LiveSlots) -> (dropped: Vec<
        InternalSlot<B, F, U>,
    >)
        requires
            old(self)@.wf(),
            old(live)@.wf(),
            old(self)@.fits(old(live)@),
            old(self)@.chain.contains(slot@) ==> old(self)@.lends(slot@),
            old(self)@.chain.contains(slot@) ==> old(live)@.next_uid + SLOT_CAP <= usize::MAX,
        ensures
            final(self)@.wf(),
            final(live)@.wf(),
            final(self)@.fits(final(live)@),
            ({
                let before = Turnover::of(old(self)@, old(live)@);
                let after = Turnover::<B, F, U> {
                    pool: final(self)@,
                    live: final(live)@,
                    dropped: slot_views(dropped@),
                };
                after == if old(self)@.chain.contains(slot@) {
                    before.renew(old(self)@.ages_after_submission(slot@))
                } else {
                    before
                }
            }),
    {
        if !self.in_chain(slot.uid) {
            let dropped: Vec<InternalSlot<B, F, U>> = Vec::new();
            proof {
                assert(slot_views(dropped@) =~= Seq::empty());
            }
            return dropped;
        }
        let mut ages: Vec<Option<u8>> = Vec::new();
        let ghost planned = self@.ages_after_submission(slot@);
        for i in 0..self.chain.len()
            invariant
                self@.wf(),
                planned == self@.ages_after_submission(slot@),
                self@ == old(self)@,
                ages@ =~= planned.take(i as int),
        {
            let uid = self.chain[i];
            assert(self@.slots.contains_key(self@.chain[i as int]));
            let age: Option<u8> = match self.get(uid) {
                None => None,
                Some(other) => {
                    if uid == slot.uid {
                        Some(1)
                    } else if other.buffer.is_none() || other.age == 0 {
                        Some(other.age)
                    } else {
                        other.age.checked_add(1)
                    }
                },
            };
            ages.push(age);
        }
        proof {
            assert(ages@ =~= planned);
            assert forall|i: int|
                0 <= i < ages@.len()
                    && self@.slots[self@.chain[i]].buffer is None implies #[trigger] ages@[i]
                == Some(0u8) || ages@[i] is None by {
                assert(self@.slots.contains_key(self@.chain[i]));
                if self@.chain[i] == slot@ {
                    assert(self@.slots[slot@].acquired);
                }
            }
        }
        self.renew(&ages, live)
    }

    /// Replace every slot of the chain. Returns the slots that were dropped.
    pub(crate) fn reset_buffers(&mut self, live: &mut LiveSlots) -> (dropped: Vec<InternalSlot<B, F, U>>)
        requires
            old(self)@.wf(),
            old(live)@.wf(),
            old(self)@.fits(old(live)@),
            old(live)@.next_uid + SLOT_CAP <= usize::MAX,
        ensures
            final(self)@.wf(),
            final(live)@.wf(),
            final(self)@.fits(final(live)@),
            Turnover::of(old(self)@, old(live)@).renew(old(self)@.no_ages()) == (Turnover::<
                B,
                F,
                U,
            > { pool: final(self)@, live: final(live)@, dropped: slot_views(dropped@) }),
    {
        let mut ages: Vec<Option<u8>> = Vec::new();
        for i in 0..self.chain.len()
            invariant
                self@ == old(self)@,
                ages@.len() == i,
                forall|j: int| 0 <= j < i ==> (#[trigger] ages@[j]) is None,
        {
            ages.push(None);
        }
        proof {
            assert(ages@ =~= self@.no_ages());
        }
        self.renew(&ages, live)
    }

    /// Reset the age of every slot of the chain. One that somebody holds is
    /// replaced. Returns the slots that were dropped.
    pub(crate) fn reset_buffer_ages(&mut self, live: &mut LiveSlots) -> (dropped: Vec<
        InternalSlot<B, F, U>,
    >)
        requires
            old(self)@.wf(),
            old(live)@.wf(),
            old(self)@.fits(old(live)@),
            old(live)@.next_uid + SLOT_CAP <= usize::MAX,
        ensures
            final(self)@.wf(),
            final(live)@.wf(),
            final(self)@.fits(final(live)@),
            Turnover::of(old(self)@, old(live)@).renew(old(self)@.ages_after_reset())
                == (Turnover::<B, F, U> {
                pool: final(self)@,
                live: final(live)@,
                dropped: slot_views(dropped@),
            }),
    {
        let mut ages: Vec<Option<u8>> = Vec::new();
        let ghost planned = self@.ages_after_reset();
        for i in 0..self.chain.len()
            invariant
                self@.wf(),
                planned == self@.ages_after_reset(),
                self@ == old(self)@,
                ages@ =~= planned.take(i as int),
        {
            assert(self@.slots.contains_key(self@.chain[i as int]));
            let age: Option<u8> = match self.get(self.chain[i]) {
                None => None,
                Some(slot) => if slot.acquired {
                    None
                } else {
                    Some(0)
                },
            };
            ages.push(age);
        }
        proof {
            assert(ages@ =~= planned);
        }
        self.renew(&ages, live)
    }

    /// The numbers of the DMA buffers that the slots of the chain were exported as.
    pub(crate) fn debug_slot_dmabuf_ids(&self) -> (ids: Vec<Option<u64>>)
        requires
            self@.wf(),
        ensures
            ids@ == self@.chain.map_values(|uid: usize| self@.dmabuf_id(uid)),
    {
        let mut ids: Vec<Option<u64>> = Vec::new();
        let ghost all = self@.chain.map_values(|uid: usize| self@.dmabuf_id(uid));
        for i in 0..self.chain.len()
            invariant
                self@.wf(),
                all == self@.chain.map_values(|uid: usize| self@.dmabuf_id(uid)),
                ids@ =~= all.take(i as int),
        {
            assert(self@.slots.contains_key(self@.chain[i as int]));
            let id: Option<u64> = match self.get(self.chain[i]) {
                None => None,
                Some(slot) => match &slot.userdata.dmabuf {
                    Some(dmabuf) => Some(dmabuf.debug_id()),
                    None => None,
                },
            };
            ids.push(id);
        }
        ids
    }

    /// Let the chain go. Slots that somebody holds live on. Returns the slots that
    /// were dropped.
    pub(crate) fn retire(&mut self, live: &mut LiveSlots) -> (dropped: Vec<InternalSlot<B, F, U>>)
        requires
            old(self)@.wf(),
            old(live)@.wf(),
            old(self)@.fits(old(live)@),
        ensures
            final(self)@.wf(),
            final(live)@.wf(),
            final(self)@.fits(final(live)@),
            final(self)@.chain.len() == 0,
            Turnover::of(old(self)@, old(live)@).retire() == (Turnover::<B, F, U> {
                pool: final(self)@,
                live: final(live)@,
                dropped: slot_views(dropped@),
            }),
    {
        let ghost before = self@;
        let ghost start = Turnover::of(before, live@);
        let mut dropped: Vec<InternalSlot<B, F, U>> = Vec::new();
        proof {
            assert(slot_views(dropped@) =~= Seq::empty());
        }
        let total: usize = self.chain.len();
        for i in 0..total
            invariant
                total == before.chain.len(),
                self@.wf(),
                live@.wf(),
                self@.fits(live@),
                self@.chain.len() == total - i,
                start.withdraw_first(i as nat) == (Turnover::<B, F, U> {
                    pool: self@,
                    live: live@,
                    dropped: slot_views(dropped@),
                }),
        {
            let ghost here = self@;
            let ghost dropped_here = slot_views(dropped@);
            let ghost reached = start.withdraw_first(i as nat);
            assert(here.slots.contains_key(here.chain[0]));
            let was = self.chain.remove(0);
            proof {
                assert(self@.slots == here.slots);
                assert(self@.chain =~= here.chain.drop_first());
            }
            let held = match self.get(was) {
                Some(slot) => slot.acquired,
                None => false,
            };
            if !held {
                live.leave(was);
                if let Some(slot) = self.take(was) {
                    dropped.push(slot);
                    proof {
                        assert(slot_views(dropped@) =~= dropped_here.push(slot@));
                    }
                }
            }
            proof {
                assert(reached.withdraw() =~= (Turnover::<B, F, U> {
                    pool: self@,
                    live: live@,
                    dropped: slot_views(dropped@),
                }));
                assert forall|j: int| 0 <= j < self@.chain.len() implies self@.slots.contains_key(
                    #[trigger] self@.chain[j],
                ) by {
                    assert(self@.chain[j] == here.chain[j + 1]);
                    assert(here.chain[j + 1] != here.chain[0]);
                }
                assert forall|uid: usize| #[trigger] self@.slots.contains_key(uid) implies {
                    &&& self@.slots[uid].wf()
                    &&& self@.slots[uid].acquired || self@.chain.contains(uid)
                } by {
                    if !self@.slots[uid].acquired {
                        assert(here.chain.contains(uid));
                        let j = choose|j: int| 0 <= j < here.chain.len() && here.chain[j] == uid;
                        assert(j != 0);
                        assert(self@.chain[j - 1] == uid);
                    }
                }
            }
        }
        dropped
    }
}

impl Slot {
    /// How many submissions ago the buffer was submitted, or zero if its contents
    /// are unknown.
    pub fn age<B, F, U>(&self, pool: &SlotPool<B, F, U>) -> (age: u8)
        requires
            pool@.wf(),
            pool@.lends(self@),
        ensures
            age == pool@.slots[self@].age,
    {
        match pool.get(self.uid) {
            Some(slot) => slot.age,
            None => 0,
        }
    }

    /// What is kept with the slot.
    pub fn userdata<'a, B, F, U>(&self, pool: &'a SlotPool<B, F, U>) -> (userdata: &'a UserDataMap<
        F,
        U,
    >)
        requires
            pool@.wf(),
            pool@.lends(self@),
        ensures
            userdata@ == pool@.slots[self@].userdata,
    {
        &pool.get(self.uid).unwrap().userdata
    }

    /// The buffer of the slot.
    pub fn buffer<'a, B, F, U>(&self, pool: &'a SlotPool<B, F, U>) -> (buffer: &'a B)
        requires
            pool@.wf(),
            pool@.lends(self@),
        ensures
            pool@.slots[self@].buffer == Some(*buffer),
    {
        pool.get(self.uid).unwrap().buffer.as_ref().unwrap()
    }

    /// Keep `value` with the slot under `key`, unless something is kept there already.
    /// Says whether it is kept.
    pub fn insert_if_missing<B, F, U>(
        &self,
        pool: &mut SlotPool<B, F, U>,
        key: u64,
        value: U,
    ) -> (kept: bool)
        requires
            old(pool)@.wf(),
            old(pool)@.lends(self@),
        ensures
            final(pool)@.wf(),
            kept <==> !old(pool)@.slots[self@].userdata.values.contains_key(key),
            final(pool)@ == if kept {
                old(pool)@.keep_value(self@, key, value)
            } else {
                old(pool)@
            },
    {
        let ghost before = pool@;
        let mut kept = false;
        if let Some(mut slot) = pool.take(self.uid) {
            if !slot.userdata.values.contains_key(&key) {
                slot.userdata.values.insert(key, value);
                kept = true;
            }
            pool.put(self.uid, slot);
        }
        proof {
            assert(pool@ =~= if kept {
                before.keep_value(self@, key, value)
            } else {
                before
            });
        }
        kept
    }

    /// Keep `dmabuf` with the slot, unless one is kept there already; it is then handed
    /// back. [`export`](Slot::export) shares the one that is kept.
    pub fn insert_dmabuf_if_missing<B, F, U>(
        &self,
        pool: &mut SlotPool<B, F, U>,
        dmabuf: Dmabuf<F>,
    ) -> (result: Result<(), Dmabuf<F>>)
        requires
            old(pool)@.wf(),
            old(pool)@.lends(self@),
        ensures
            final(pool)@.wf(),
            match result {
                Ok(()) => {
                    &&& old(pool)@.slots[self@].userdata.dmabuf is None
                    &&& final(pool)@ == old(pool)@.keep_dmabuf(self@, dmabuf@)
                },
                Err(back) => {
                    &&& old(pool)@.slots[self@].userdata.dmabuf is Some
                    &&& back == dmabuf
                    &&& final(pool)@ == old(pool)@
                },
            },
    {
        let ghost before = pool@;
        if self.userdata(pool).dmabuf().is_some() {
            return Err(dmabuf);
        }
        if let Some(mut slot) = pool.take(self.uid) {
            slot.userdata.dmabuf = Some(dmabuf);
            pool.put(self.uid, slot);
        }
        proof {
            assert(pool@ =~= before.keep_dmabuf(self@, dmabuf@));
        }
        Ok(())
    }

    /// Give the slot back. It can then be handed out again; one that is no longer in
    /// the chain is dropped, and returned.
    pub fn release<B, F, U>(self, pool: &mut SlotPool<B, F, U>, live: &mut LiveSlots) -> (dropped:
        Option<InternalSlot<B, F, U>>)
        requires
            old(pool)@.wf(),
            old(live)@.wf(),
            old(pool)@.fits(old(live)@),
            old(pool)@.lends(self@),
        ensures
            final(pool)@.wf(),
            final(live)@.wf(),
            final(pool)@.fits(final(live)@),
            final(pool)@ == old(pool)@.give_back(self@),
            match dropped {
                Some(slot) => {
                    &&& !old(pool)@.chain.contains(self@)
                    &&& slot@ == SlotModel { acquired: false, ..old(pool)@.slots[self@] }
                    &&& final(live)@ == old(live)@.leave(self@)
                },
                None => old(pool)@.chain.contains(self@) && final(live)@ == old(live)@,
            },
    {
        let ghost before = pool@;
        let uid = self.uid;
        let stays = pool.in_chain(uid);
        let mut dropped: Option<InternalSlot<B, F, U>> = None;
        if let Some(mut slot) = pool.take(uid) {
            slot.acquired = false;
            if stays {
                pool.put(uid, slot);
            } else {
                live.leave(uid);
                dropped = Some(slot);
            }
        }
        proof {
            assert(pool@ =~= before.give_back(uid));
        }
        dropped
    }

    /// One more reference to `kept`, which the slot was exported as.
    fn share<F>(
        &self,
        kept: &Dmabuf<F>,
        live: &mut LiveSlots,
        registry: &mut DmabufRegistry<F>,
    ) -> (dmabuf: Dmabuf<F>)
        requires
            old(live)@.wf(),
            old(registry)@.wf(),
            old(registry)@.can_share(kept@.buffer),
        ensures
            final(live)@.wf(),
            final(registry)@.wf(),
            final(live)@ == old(live)@.link(self@, kept@.buffer.debug_id),
            old(registry)@.shared_into(kept@.buffer, final(registry)@, dmabuf@),
    {
        let dmabuf = kept.duplicate(registry);
        live.link(self.uid, dmabuf.debug_id());
        dmabuf
    }

    /// Keep what exporting the buffer of the slot has come to, and return one more
    /// reference to it.
    pub fn keep_export<B, F, U, E>(
        &self,
        pool: &mut SlotPool<B, F, U>,
        live: &mut LiveSlots,
        registry: &mut DmabufRegistry<F>,
        exported: Result<Dmabuf<F>, E>,
    ) -> (result: Result<Dmabuf<F>, E>)
        requires
            old(pool)@.wf(),
            old(live)@.wf(),
            old(registry)@.wf(),
            old(pool)@.fits(old(live)@),
            old(pool)@.lends(self@),
            old(pool)@.slots[self@].userdata.dmabuf is None,
            exported matches Ok(kept) ==> old(registry)@.can_share(kept@.buffer),
        ensures
            final(pool)@.wf(),
            final(live)@.wf(),
            final(registry)@.wf(),
            final(pool)@.fits(final(live)@),
            match exported {
                Ok(kept) => {
                    &&& result is Ok
                    &&& final(pool)@ == old(pool)@.keep_dmabuf(self@, kept@)
                    &&& final(live)@ == old(live)@.link(self@, kept@.buffer.debug_id)
                    &&& old(registry)@.shared_into(
                        kept@.buffer,
                        final(registry)@,
                        result->Ok_0@,
                    )
                },
                Err(error) => {
                    &&& result == Err::<Dmabuf<F>, E>(error)
                    &&& final(pool)@ == old(pool)@
                    &&& final(live)@ == old(live)@
                    &&& final(registry)@ == old(registry)@
                },
            },
    {
        let kept = match exported {
            Ok(kept) => kept,
            Err(error) => {
                return Err(error);
            },
        };
        let ghost before = pool@;
        let dmabuf = self.share(&kept, live, registry);
        if let Some(mut slot) = pool.take(self.uid) {
            slot.userdata.dmabuf = Some(kept);
            pool.put(self.uid, slot);
        }
        proof {
            assert(pool@ =~= before.keep_dmabuf(self@, kept@));
        }
        Ok(dmabuf)
    }

    /// Export the buffer of the slot as a DMA buffer.
    ///
    /// The buffer is exported once; after that, every export is one more reference
    /// to what it was exported as. Where a DMA buffer is kept with the slot already, it
    /// is shared instead.
    pub fn export<B: AsDmabuf<F>, F, U>(
        &self,
        pool: &mut SlotPool<B, F, U>,
        live: &mut LiveSlots,
        registry: &mut DmabufRegistry<F>,
    ) -> (result: Result<Dmabuf<F>, B::Error>)
        requires
            old(pool)@.wf(),
            old(live)@.wf(),
            old(registry)@.wf(),
            old(pool)@.fits(old(live)@),
            old(pool)@.lends(self@),
            match old(pool)@.slots[self@].userdata.dmabuf {
                Some(kept) => old(registry)@.can_share(kept.buffer),
                None => old(pool)@.slots[self@].buffer->0.can_export(old(registry)@),
            },
        ensures
            final(pool)@.wf(),
            final(live)@.wf(),
            final(registry)@.wf(),
            final(pool)@.fits(final(live)@),
            match old(pool)@.slots[self@].userdata.dmabuf {
                Some(kept) => {
                    &&& result is Ok
                    &&& final(pool)@ == old(pool)@
                    &&& final(live)@ == old(live)@.link(self@, kept.buffer.debug_id)
                    &&& old(registry)@.shared_into(kept.buffer, final(registry)@, result->Ok_0@)
                },
                None => exports_first(
                    self@,
                    (old(pool)@, old(live)@, old(registry)@),
                    (final(pool)@, final(live)@, final(registry)@),
                    result,
                ),
            },
    {
        if let Some(slot) = pool.get(self.uid) {
            if let Some(kept) = &slot.userdata.dmabuf {
                return Ok(self.share(kept, live, registry));
            }
        }
        let ghost before = (pool@, live@, registry@);
        let exported = self.buffer(pool).export(registry);
        let ghost registry_then = registry@;
        let result = self.keep_export(pool, live, registry, exported);
        proof {
            assert(before.0.slots[self@].buffer->0.exports(before.2, registry_then, exported));
            assert(exports_first(self@, before, (pool@, live@, registry@), result));
        }
        result
    }
}

/// What exporting the buffer of the slot `uid` for the first time may come to. The
/// pool, the live slots and the registry are those before and after.
pub open spec fn exports_first<B: AsDmabuf<F>, F, U>(
    uid: usize,
    before: (PoolModel<B, F, U>, LiveSlotsModel, RegistryModel<F>),
    after: (PoolModel<B, F, U>, LiveSlotsModel, RegistryModel<F>),
    result: Result<Dmabuf<F>, B::Error>,
) -> bool {
    exists|exported: Result<Dmabuf<F>, B::Error>, registry_then: RegistryModel<F>|
        {
            &&& #[trigger] before.0.slots[uid].buffer->0.exports(
                before.2,
                registry_then,
                exported,
            )
            &&& match exported {
                Ok(kept) => {
                    &&& result is Ok
                    &&& after.0 == before.0.keep_dmabuf(uid, kept@)
                    &&& after.1 == before.1.link(uid, kept@.buffer.debug_id)
                    &&& registry_then.shared_into(kept@.buffer, after.2, result->Ok_0@)
                },
                Err(error) => {
                    &&& result == Err::<Dmabuf<F>, B::Error>(error)
                    &&& after == (before.0, before.1, registry_then)
                },
            }
        }
}

impl<B: Disposable<F>, F, U> SlotModel<B, F, U> {
    /// The registry once the buffer of the slot has been given up.
    pub open spec fn without_buffer(self, registry: RegistryModel<F>) -> RegistryModel<F> {
        match self.buffer {
            Some(buffer) => buffer.after_dispose(registry),
            None => registry,
        }
    }

    /// The slot can be given up.
    pub open spec fn can_dispose(self, registry: RegistryModel<F>) -> bool {
        &&& self.buffer matches Some(buffer) ==> buffer.can_dispose(registry)
        &&& self.userdata.dmabuf matches Some(dmabuf) ==> self.without_buffer(registry).holds(
            dmabuf.buffer,
        )
    }

    /// The registry once the slot has been given up: its buffer, and the DMA buffer
    /// that it was exported as.
    pub open spec fn after_dispose(self, registry: RegistryModel<F>) -> RegistryModel<F> {
        match self.userdata.dmabuf {
            Some(dmabuf) => self.without_buffer(registry).release(dmabuf),
            None => self.without_buffer(registry),
        }
    }
}

impl<B: Disposable<F>, F, U> InternalSlot<B, F, U> {
    /// Give up a slot that was dropped, with what it holds.
    pub fn dispose(self, registry: &mut DmabufRegistry<F>)
        requires
            old(registry)@.wf(),
            self@.can_dispose(old(registry)@),
        ensures
            final(registry)@.wf(),
            final(registry)@ == self@.after_dispose(old(registry)@),
    {
        if let Some(buffer) = self.buffer {
            buffer.dispose(registry);
        }
        if let Some(dmabuf) = self.userdata.dmabuf {
            dmabuf.release(registry);
        }
    }
}

} // verus!
