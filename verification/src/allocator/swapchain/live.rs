//! Which slots have a buffer, over all swapchains.
//!
//! A slot is entered when a buffer is allocated for it and leaves when it is
//! dropped. One that stays entered although its swapchain has replaced it is held
//! by somebody else; where it was acquired tells by whom.

use crate::allocator::format::Size;
use crate::allocator::swapchain::census::listings;
use std::collections::BTreeMap;
use vstd::prelude::*;

verus! {

/// A slot that has a buffer.
pub struct LiveSlot {
    /// Width of the buffer.
    pub width: i32,
    /// Height of the buffer.
    pub height: i32,
    /// The number of the DMA buffer that it was exported as, if it was.
    pub dmabuf_id: Option<u64>,
    /// Where the slot was acquired when the buffer was allocated.
    pub acquired_at: String,
}

/// What a [`LiveSlot`] stands for.
#[verifier::ext_equal]
pub struct LiveSlotModel {
    pub width: i32,
    pub height: i32,
    pub dmabuf_id: Option<u64>,
    pub acquired_at: Seq<char>,
}

impl View for LiveSlot {
    type V = LiveSlotModel;

    open spec fn view(&self) -> LiveSlotModel {
        LiveSlotModel {
            width: self.width,
            height: self.height,
            dmabuf_id: self.dmabuf_id,
            acquired_at: self.acquired_at@,
        }
    }
}

/// The slots that have a buffer, by their numbers.
pub struct LiveSlots {
    next_uid: usize,
    slots: BTreeMap<usize, LiveSlot>,
}

/// What [`LiveSlots`] stand for.
#[verifier::ext_equal]
pub struct LiveSlotsModel {
    /// The number for the next slot.
    pub next_uid: usize,
    /// The slots that have a buffer, by their numbers.
    pub slots: Map<usize, LiveSlotModel>,
}

impl View for LiveSlots {
    type V = LiveSlotsModel;

    closed spec fn view(&self) -> LiveSlotsModel {
        LiveSlotsModel {
            next_uid: self.next_uid,
            slots: self.slots@.map_values(|slot: LiveSlot| slot@),
        }
    }
}

impl LiveSlotsModel {
    /// Before any slot was made.
    pub open spec fn start() -> LiveSlotsModel {
        LiveSlotsModel { next_uid: 0, slots: Map::empty() }
    }

    /// Only slots that were made are entered.
    pub open spec fn wf(self) -> bool {
        &&& self.slots.dom().finite()
        &&& forall|uid: usize| #[trigger] self.slots.contains_key(uid) ==> uid < self.next_uid
    }

    /// The next number has been given to a slot.
    pub open spec fn count(self) -> LiveSlotsModel {
        LiveSlotsModel { next_uid: (self.next_uid + 1) as usize, ..self }
    }

    /// A buffer of this size has been allocated for the slot `uid`.
    pub open spec fn enter(self, uid: usize, size: Size, acquired_at: Seq<char>) -> LiveSlotsModel {
        LiveSlotsModel {
            slots: self.slots.insert(
                uid,
                LiveSlotModel { width: size.w, height: size.h, dmabuf_id: None, acquired_at },
            ),
            ..self
        }
    }

    /// The slot `uid` has been exported as the DMA buffer `dmabuf_id`.
    pub open spec fn link(self, uid: usize, dmabuf_id: u64) -> LiveSlotsModel {
        if self.slots.contains_key(uid) {
            LiveSlotsModel {
                slots: self.slots.insert(
                    uid,
                    LiveSlotModel { dmabuf_id: Some(dmabuf_id), ..self.slots[uid] },
                ),
                ..self
            }
        } else {
            self
        }
    }

    /// The slot `uid` has been dropped.
    pub open spec fn leave(self, uid: usize) -> LiveSlotsModel {
        LiveSlotsModel { slots: self.slots.remove(uid), ..self }
    }
}

/// `listing` lists the values of `slots` in some order.
pub open spec fn listed_by(
    slots: Map<usize, LiveSlotModel>,
    listing: Seq<LiveSlotModel>,
) -> bool {
    exists|uids: Seq<usize>|
        {
            &&& uids.no_duplicates()
            &&& #[trigger] uids.to_set() == slots.dom()
            &&& listing == uids.map_values(|uid: usize| slots[uid])
        }
}

impl LiveSlots {
    /// Before any slot was made.
    pub fn new() -> (live: LiveSlots)
        ensures
            live@.wf(),
            live@ == LiveSlotsModel::start(),
    {
        let live = LiveSlots { next_uid: 0, slots: BTreeMap::new() };
        proof {
            assert(live@.slots =~= Map::empty());
        }
        live
    }

    /// Whether there are numbers for `more` slots.
    pub fn has_room(&self, more: usize) -> (result: bool)
        ensures
            result == (self@.next_uid + more <= usize::MAX),
    {
        more <= usize::MAX - self.next_uid
    }

    /// A number for a new slot.
    pub(crate) fn count(&mut self) -> (uid: usize)
        requires
            old(self)@.wf(),
            old(self)@.next_uid < usize::MAX,
        ensures
            final(self)@.wf(),
            final(self)@ == old(self)@.count(),
            uid == old(self)@.next_uid,
    {
        let uid = self.next_uid;
        self.next_uid = uid + 1;
        uid
    }

    /// Enter the slot `uid`, for which a buffer of this size has been allocated.
    pub(crate) fn enter(&mut self, uid: usize, size: Size, acquired_at: String)
        requires
            old(self)@.wf(),
            uid < old(self)@.next_uid,
        ensures
            final(self)@.wf(),
            final(self)@ == old(self)@.enter(uid, size, acquired_at@),
    {
        self.put(uid, LiveSlot { width: size.w, height: size.h, dmabuf_id: None, acquired_at });
    }

    /// Note that the slot `uid` has been exported as the DMA buffer `dmabuf_id`.
    pub(crate) fn link(&mut self, uid: usize, dmabuf_id: u64)
        requires
            old(self)@.wf(),
        ensures
            final(self)@.wf(),
            final(self)@ == old(self)@.link(uid, dmabuf_id),
    {
        let ghost before = self@;
        if let Some(mut slot) = self.take(uid) {
            slot.dmabuf_id = Some(dmabuf_id);
            self.put(uid, slot);
            proof {
                assert(self@.slots =~= before.link(uid, dmabuf_id).slots);
            }
        } else {
            proof {
                assert(self@.slots =~= before.slots);
            }
        }
    }

    /// Forget the slot `uid`, which has been dropped.
    pub(crate) fn leave(&mut self, uid: usize)
        requires
            old(self)@.wf(),
        ensures
            final(self)@.wf(),
            final(self)@ == old(self)@.leave(uid),
    {
        let _ = self.take(uid);
    }

    /// The slots that have a buffer, in the order of their numbers.
    pub(crate) fn listing(&self) -> (listing: Vec<&LiveSlot>)
        ensures
            listed_by(self@.slots, listing@.map_values(|slot: &LiveSlot| slot@)),
    {
        let mut listing: Vec<&LiveSlot> = Vec::new();
        let ghost mut uids: Seq<usize> = Seq::empty();
        for (uid, slot) in it: self.slots.iter()
            invariant
                uids.len() == it.index(),
                listing@.len() == it.index(),
                it.seq().no_duplicates(),
                forall|i: int|
                    0 <= i < it.seq().len() ==> {
                        &&& self.slots@.contains_key(*(#[trigger] it.seq()[i]).0)
                        &&& self.slots@[*it.seq()[i].0] == *it.seq()[i].1
                    },
                forall|uid: usize| #[trigger]
                    self.slots@.contains_key(uid) ==> it.seq().contains((&uid, &self.slots@[uid])),
                forall|i: int|
                    #![trigger uids[i]]
                    #![trigger listing@[i]]
                    #![trigger it.seq()[i]]
                    0 <= i < uids.len() ==> {
                        &&& uids[i] == *it.seq()[i].0
                        &&& *listing@[i] == *it.seq()[i].1
                    },
        {
            listing.push(slot);
            proof {
                uids = uids.push(*uid);
            }
        }
        proof {
            let listed = listing@.map_values(|slot: &LiveSlot| slot@);
            assert forall|i: int, j: int| 0 <= i < j < uids.len() implies uids[i] != uids[j] by {
                if uids[i] == uids[j] {
                }
            }
            assert(uids.to_set() =~= self@.slots.dom());
            assert(listed =~= uids.map_values(|uid: usize| self@.slots[uid]));
            assert(listed_by(self@.slots, listed));
        }
        listing
    }

    /// Put `slot` under the number `uid`.
    fn put(&mut self, uid: usize, slot: LiveSlot)
        ensures
            final(self)@.next_uid == old(self)@.next_uid,
            final(self)@.slots == old(self)@.slots.insert(uid, slot@),
    {
        let ghost before = self.slots@;
        self.slots.insert(uid, slot);
        proof {
            let view = |slot: LiveSlot| slot@;
            assert(self.slots@.map_values(view) =~= before.map_values(view).insert(uid, slot@));
        }
    }

    /// Take out the slot `uid`.
    fn take(&mut self, uid: usize) -> (slot: Option<LiveSlot>)
        ensures
            final(self)@.next_uid == old(self)@.next_uid,
            final(self)@.slots == old(self)@.slots.remove(uid),
            slot is Some <==> old(self)@.slots.contains_key(uid),
            slot matches Some(slot) ==> slot@ == old(self)@.slots[uid],
    {
        let ghost before = self.slots@;
        let slot = self.slots.remove(&uid);
        proof {
            let view = |slot: LiveSlot| slot@;
            assert(self.slots@.map_values(view) =~= before.map_values(view).remove(uid));
        }
        slot
    }
}

/// A slot that is entered has the size of its buffer and the place where it was acquired,
/// and no DMA buffer yet. One that is exported has the number of its DMA buffer, and one that
/// leaves is gone. All others stay as they are.
pub proof fn law_entries_change_one_at_a_time(
    live: LiveSlotsModel,
    uid: usize,
    size: Size,
    acquired_at: Seq<char>,
    dmabuf_id: u64,
    other: usize,
)
    requires
        live.wf(),
        other != uid,
    ensures
        ({
            let entered = live.enter(uid, size, acquired_at);
            &&& entered.next_uid == live.next_uid
            &&& entered.slots.contains_key(uid)
            &&& entered.slots[uid].width == size.w
            &&& entered.slots[uid].height == size.h
            &&& entered.slots[uid].dmabuf_id is None
            &&& entered.slots[uid].acquired_at == acquired_at
            &&& entered.slots.contains_key(other) <==> live.slots.contains_key(other)
            &&& live.slots.contains_key(other) ==> entered.slots[other] == live.slots[other]
        }),
        ({
            let linked = live.link(uid, dmabuf_id);
            &&& linked.next_uid == live.next_uid
            &&& linked.slots.contains_key(uid) <==> live.slots.contains_key(uid)
            &&& live.slots.contains_key(uid) ==> {
                &&& linked.slots[uid].dmabuf_id == Some(dmabuf_id)
                &&& linked.slots[uid].width == live.slots[uid].width
                &&& linked.slots[uid].height == live.slots[uid].height
                &&& linked.slots[uid].acquired_at == live.slots[uid].acquired_at
            }
            &&& linked.slots.contains_key(other) <==> live.slots.contains_key(other)
            &&& live.slots.contains_key(other) ==> linked.slots[other] == live.slots[other]
        }),
        ({
            let left = live.leave(uid);
            &&& left.next_uid == live.next_uid
            &&& !left.slots.contains_key(uid)
            &&& left.slots.contains_key(other) <==> live.slots.contains_key(other)
            &&& live.slots.contains_key(other) ==> left.slots[other] == live.slots[other]
        }),
        live.next_uid < usize::MAX ==> live.count().next_uid == live.next_uid + 1,
        live.count().slots == live.slots,
{
}

/// A listing has every slot once: as often as it has a value, so many slots have that value.
pub proof fn law_listings_have_every_slot_once(
    slots: Map<usize, LiveSlotModel>,
    listing: Seq<LiveSlotModel>,
    slot: LiveSlotModel,
)
    requires
        listed_by(slots, listing),
    ensures
        listing.to_multiset().count(slot) == slots.dom().filter(
            |uid: usize| slots[uid] == slot,
        ).len(),
        listing.len() == slots.dom().len(),
{
    let uids = choose|uids: Seq<usize>|
        {
            &&& uids.no_duplicates()
            &&& #[trigger] uids.to_set() == slots.dom()
            &&& listing == uids.map_values(|uid: usize| slots[uid])
        };
    let look = |uid: usize| slots[uid];
    let about = |uid: usize| slots[uid] == slot;
    listings::lemma_count_of_images(uids, look, slot, about);
    assert(listing =~= uids.map_values(look));
    assert(slots.dom().filter(about) == uids.to_set().filter(about));
    uids.unique_seq_to_set();
}

} // verus!
