//! What holds of swapchains as a whole.

use crate::allocator::allocate::{Allocator, Disposable};
use crate::allocator::dmabuf::buffer::{Dmabuf, DmabufModel};
use crate::allocator::dmabuf::export::AsDmabuf;
use crate::allocator::dmabuf::registry::RegistryModel;
use crate::allocator::format::Buffer;
use crate::allocator::swapchain::chain;
use crate::allocator::swapchain::chain::SwapchainModel;
use crate::allocator::swapchain::live::LiveSlotsModel;
use crate::allocator::swapchain::pool;
use crate::allocator::swapchain::pool::{PoolModel, Slot, SlotModel, Turnover, SLOT_CAP};
use crate::signature;
use vstd::prelude::*;

verus! {

/// The first free slot is free, and those before it are held.
pub proof fn law_the_first_free_slot_is_found<B, F, U>(pool: PoolModel<B, F, U>)
    requires
        pool.wf(),
    ensures
        match pool.first_free() {
            Some(i) => {
                &&& 0 <= i < pool.chain.len()
                &&& !pool.lends(pool.chain[i])
                &&& forall|j: int| 0 <= j < i ==> pool.lends(#[trigger] pool.chain[j])
            },
            None => forall|j: int|
                0 <= j < pool.chain.len() ==> pool.lends(#[trigger] pool.chain[j]),
        },
{
    lemma_free_from(pool, 0);
}

/// The same for the slots from a position on.
proof fn lemma_free_from<B, F, U>(pool: PoolModel<B, F, U>, from: int)
    requires
        pool.wf(),
        0 <= from <= pool.chain.len(),
    ensures
        match pool.free_from(from) {
            Some(i) => {
                &&& from <= i < pool.chain.len()
                &&& !pool.lends(pool.chain[i])
                &&& forall|j: int| from <= j < i ==> pool.lends(#[trigger] pool.chain[j])
            },
            None => forall|j: int|
                from <= j < pool.chain.len() ==> pool.lends(#[trigger] pool.chain[j]),
        },
    decreases pool.chain.len() - from,
{
    if from < pool.chain.len() {
        assert(pool.slots.contains_key(pool.chain[from]));
        if pool.slots[pool.chain[from]].acquired {
            lemma_free_from(pool, from + 1);
        }
    }
}

/// A slot that is handed out is not handed out again while it is held, and handing
/// it out changes nothing for those who hold others.
pub proof fn law_held_slots_are_not_handed_out<B, F, U>(
    pool: PoolModel<B, F, U>,
    held: usize,
    buffer: B,
)
    requires
        pool.wf(),
        pool.lends(held),
        pool.first_free() is Some,
    ensures
        ({
            let uid = pool.chain[pool.first_free()->0];
            &&& uid != held
            &&& pool.lend(uid).lends(uid)
            &&& pool.lend(uid).slots[held] == pool.slots[held]
            &&& pool.furnish(uid, buffer).lends(uid)
            &&& pool.furnish(uid, buffer).slots[held] == pool.slots[held]
        }),
{
    law_the_first_free_slot_is_found(pool);
}

/// A slot that is given back and handed out again has the same buffer, the same age
/// and the same things kept with it.
pub proof fn law_reuse_preserves_the_slot<B, F, U>(pool: PoolModel<B, F, U>, uid: usize)
    requires
        pool.wf(),
        pool.lends(uid),
        pool.chain.contains(uid),
    ensures
        pool.give_back(uid).lend(uid) == pool,
        !pool.give_back(uid).lends(uid),
{
    assert(pool.give_back(uid).lend(uid) =~= pool);
}

/// Giving a slot back changes nothing for those who hold others. One that is no
/// longer in the chain is gone.
pub proof fn law_giving_back_leaves_the_others<B, F, U>(
    pool: PoolModel<B, F, U>,
    uid: usize,
    held: usize,
)
    requires
        pool.wf(),
        pool.lends(uid),
        pool.lends(held),
        held != uid,
    ensures
        pool.give_back(uid).lends(held),
        pool.give_back(uid).slots[held] == pool.slots[held],
        pool.give_back(uid).slots.contains_key(uid) <==> pool.chain.contains(uid),
{
}

/// What renewing the first `n` slots of the chain does to each slot.
pub open spec fn renewed<B, F, U>(
    before: Turnover<B, F, U>,
    after: Turnover<B, F, U>,
    ages: Seq<Option<u8>>,
    n: int,
) -> bool {
    &&& after.pool.chain.len() == before.pool.chain.len()
    &&& before.live.next_uid <= after.live.next_uid <= before.live.next_uid + n
    &&& forall|uid: usize| #[trigger]
        after.pool.slots.contains_key(uid) ==> uid < after.live.next_uid
    &&& forall|i: int|
        0 <= i < before.pool.chain.len() ==> {
            let was = #[trigger] before.pool.chain[i];
            let is = after.pool.chain[i];
            if i >= n {
                is == was && after.pool.slots[is] == before.pool.slots[was]
            } else {
                match ages[i] {
                    Some(age) => is == was && after.pool.slots[is] == SlotModel {
                        age,
                        ..before.pool.slots[was]
                    },
                    None => {
                        &&& before.live.next_uid <= is < after.live.next_uid
                        &&& after.pool.slots[is] == SlotModel::<B, F, U>::fresh()
                        &&& before.pool.lends(was) ==> after.pool.slots.contains_key(was)
                            && after.pool.slots[was] == before.pool.slots[was]
                        &&& !before.pool.lends(was) ==> !after.pool.slots.contains_key(was)
                    },
                }
            }
        }
    &&& forall|uid: usize|
        before.pool.slots.contains_key(uid) && !before.pool.chain.contains(uid) ==> {
            &&& #[trigger] after.pool.slots.contains_key(uid)
            &&& after.pool.slots[uid] == before.pool.slots[uid]
        }
    &&& forall|i: int|
        0 <= i < after.pool.chain.len() ==> after.pool.slots.contains_key(
            #[trigger] after.pool.chain[i],
        )
}

/// Renewing gives each slot of the chain its age, or puts a fresh slot in its place.
/// A slot that is replaced lives on if it is held, and is gone otherwise. All other
/// slots stay as they are.
pub proof fn law_renewal_touches_each_slot_once<B, F, U>(
    before: Turnover<B, F, U>,
    ages: Seq<Option<u8>>,
    n: nat,
)
    requires
        before.pool.wf(),
        before.pool.fits(before.live),
        before.live.next_uid + SLOT_CAP <= usize::MAX,
        ages.len() == before.pool.chain.len(),
        n <= ages.len(),
    ensures
        renewed(before, before.renew_first(ages, n), ages, n as int),
    decreases n,
{
    if n > 0 {
        let k = n - 1;
        law_renewal_touches_each_slot_once(before, ages, k as nat);
        let here = before.renew_first(ages, k as nat);
        let after = before.renew_first(ages, n);
        assert(after == here.renew_at(k, ages[k]));
        let was = before.pool.chain[k];
        assert(here.pool.chain[k] == was);
        assert(before.pool.slots.contains_key(was));
        assert forall|i: int| 0 <= i < before.pool.chain.len() implies {
            let was = #[trigger] before.pool.chain[i];
            let is = after.pool.chain[i];
            if i >= n {
                is == was && after.pool.slots[is] == before.pool.slots[was]
            } else {
                match ages[i] {
                    Some(age) => is == was && after.pool.slots[is] == SlotModel {
                        age,
                        ..before.pool.slots[was]
                    },
                    None => {
                        &&& before.live.next_uid <= is < after.live.next_uid
                        &&& after.pool.slots[is] == SlotModel::<B, F, U>::fresh()
                        &&& before.pool.lends(was) ==> after.pool.slots.contains_key(was)
                            && after.pool.slots[was] == before.pool.slots[was]
                        &&& !before.pool.lends(was) ==> !after.pool.slots.contains_key(was)
                    },
                }
            }
        } by {
            assert(before.pool.slots.contains_key(before.pool.chain[i]));
            if i != k {
                assert(before.pool.chain[i] != before.pool.chain[k]);
                assert(here.pool.slots.contains_key(here.pool.chain[i]));
            }
        }
        assert forall|uid: usize|
            before.pool.slots.contains_key(uid) && !before.pool.chain.contains(uid) implies {
            &&& #[trigger] after.pool.slots.contains_key(uid)
            &&& after.pool.slots[uid] == before.pool.slots[uid]
        } by {
            assert(here.pool.slots.contains_key(uid));
            assert(uid != was);
        }
        assert forall|i: int| 0 <= i < after.pool.chain.len() implies
        after.pool.slots.contains_key(#[trigger] after.pool.chain[i]) by {
            assert(here.pool.slots.contains_key(here.pool.chain[i]));
            assert(before.pool.slots.contains_key(before.pool.chain[i]));
            if i != k {
                assert(before.pool.chain[i] != before.pool.chain[k]);
            }
        }
    }
}

/// Whatever is renewed, those who hold slots keep them, with their buffers and with
/// what is kept with them.
pub proof fn law_renewal_leaves_held_slots<B, F, U>(
    pool: PoolModel<B, F, U>,
    live: LiveSlotsModel,
    ages: Seq<Option<u8>>,
    held: usize,
)
    requires
        pool.wf(),
        pool.fits(live),
        live.next_uid + SLOT_CAP <= usize::MAX,
        ages.len() == pool.chain.len(),
        pool.lends(held),
    ensures
        ({
            let after = Turnover::of(pool, live).renew(ages).pool;
            &&& after.lends(held)
            &&& after.slots[held] == SlotModel { age: after.slots[held].age, ..pool.slots[held] }
        }),
{
    let before = Turnover::of(pool, live);
    law_renewal_touches_each_slot_once(before, ages, ages.len());
    if pool.chain.contains(held) {
        let i = choose|i: int| 0 <= i < pool.chain.len() && pool.chain[i] == held;
        assert(before.pool.chain[i] == held);
        assert(before.renew(ages).pool.slots.contains_key(before.renew(ages).pool.chain[i]));
    } else {
        assert(before.renew(ages).pool.slots.contains_key(held));
    }
}

/// Once all buffers have been reset, or the dimensions have changed, every slot of the
/// chain is free, was never used and was not exported. Slots that are held are as they
/// were, their ages too, and are no longer in the chain: giving one back leaves the
/// chain and its slots alone.
pub proof fn law_reset_hands_out_no_old_buffer<B, F, U>(
    pool: PoolModel<B, F, U>,
    live: LiveSlotsModel,
)
    requires
        pool.wf(),
        pool.fits(live),
        live.next_uid + SLOT_CAP <= usize::MAX,
    ensures
        ({
            let after = Turnover::of(pool, live).renew(pool.no_ages()).pool;
            &&& after.chain.len() == pool.chain.len()
            &&& allocated_upto(after, 0)
            &&& forall|i: int|
                0 <= i < after.chain.len() ==> {
                    &&& after.slots[#[trigger] after.chain[i]] == SlotModel::<B, F, U>::fresh()
                    &&& after.dmabuf_id(after.chain[i]) is None
                }
            &&& forall|held: usize| #[trigger]
                pool.lends(held) ==> {
                    &&& after.lends(held)
                    &&& after.slots[held] == pool.slots[held]
                    &&& is_detached(after, held)
                }
        }),
{
    let before = Turnover::of(pool, live);
    let ages = pool.no_ages();
    let after = before.renew(ages).pool;
    law_renewal_touches_each_slot_once(before, ages, ages.len());
    assert forall|i: int| 0 <= i < after.chain.len() implies {
        &&& after.slots[#[trigger] after.chain[i]] == SlotModel::<B, F, U>::fresh()
        &&& after.chain[i] >= live.next_uid
        &&& after.slots.contains_key(after.chain[i])
    } by {
        assert(before.pool.chain[i] == pool.chain[i]);
        assert(ages[i] is None);
    }
    assert forall|held: usize| #[trigger] pool.lends(held) implies {
        &&& after.lends(held)
        &&& after.slots[held] == pool.slots[held]
        &&& is_detached(after, held)
    } by {
        if pool.chain.contains(held) {
            let i = choose|i: int| 0 <= i < pool.chain.len() && pool.chain[i] == held;
            assert(before.pool.chain[i] == held);
            assert(ages[i] is None);
        } else {
            assert(after.slots.contains_key(held));
        }
        lemma_outside_slots_are_detached(after, held);
    }
}

/// Resizing to the dimensions that the buffers have changes nothing and drops nothing,
/// so that resizing twice to the same dimensions is resizing once.
pub proof fn law_resizing_twice_is_resizing_once<A: Allocator<F>, F, U>(
    swapchain: SwapchainModel<A, F, U>,
    live: LiveSlotsModel,
    width: u32,
    height: u32,
)
    ensures
        swapchain.has_size(width, height) ==> swapchain.resize(live, width, height) == (
            swapchain,
            live,
            Seq::<SlotModel<A::Buffer, F, U>>::empty(),
        ),
        ({
            let once = swapchain.resize(live, width, height);
            once.0.resize(once.1, width, height) == (
                once.0,
                once.1,
                Seq::<SlotModel<A::Buffer, F, U>>::empty(),
            )
        }),
{
    let once = swapchain.resize(live, width, height);
    if swapchain.has_size(width, height) {
        assert(once.0 =~= swapchain);
    }
    assert(once.0.has_size(width, height));
    assert(once.0.resize(once.1, width, height).0 =~= once.0);
}

/// Once the dimensions have changed, every slot of the chain is free, and its buffer is
/// allocated anew, with the new dimensions and with the format and the modifiers as
/// before, by the same allocator, which was not called. Slots that are held are as they
/// were, and no longer matter to the chain.
pub proof fn law_resizing_hands_out_new_buffers<A: Allocator<F>, F, U>(
    swapchain: SwapchainModel<A, F, U>,
    live: LiveSlotsModel,
    width: u32,
    height: u32,
)
    requires
        swapchain.wf(),
        swapchain.pool.fits(live),
        live.next_uid + SLOT_CAP <= usize::MAX,
        !swapchain.has_size(width, height),
    ensures
        ({
            let after = swapchain.resize(live, width, height).0;
            &&& after.allocator == swapchain.allocator
            &&& after.has_size(width, height)
            &&& after.request.fourcc == swapchain.request.fourcc
            &&& after.request.modifiers == swapchain.request.modifiers
            &&& after.pool.chain.len() == SLOT_CAP
            &&& allocated_upto(after.pool, 0)
            &&& forall|held: usize| #[trigger]
                swapchain.pool.lends(held) ==> {
                    &&& after.pool.lends(held)
                    &&& after.pool.slots[held] == swapchain.pool.slots[held]
                    &&& is_detached(after.pool, held)
                }
        }),
{
    law_reset_hands_out_no_old_buffer(swapchain.pool, live);
}

/// The slot `held` is not in the chain, and giving it back leaves the chain and its
/// slots as they are.
pub open spec fn is_detached<B, F, U>(pool: PoolModel<B, F, U>, held: usize) -> bool {
    &&& !pool.chain.contains(held)
    &&& pool.give_back(held).chain == pool.chain
    &&& forall|i: int|
        0 <= i < pool.chain.len() ==> pool.give_back(held).slots[#[trigger] pool.chain[i]]
            == pool.slots[pool.chain[i]]
}

/// Giving back a slot that is not in the chain leaves the chain alone.
proof fn lemma_outside_slots_are_detached<B, F, U>(pool: PoolModel<B, F, U>, held: usize)
    requires
        !pool.chain.contains(held),
    ensures
        is_detached(pool, held),
{
    assert forall|i: int| 0 <= i < pool.chain.len() implies pool.give_back(held).slots[
        #[trigger] pool.chain[i]
    ] == pool.slots[pool.chain[i]] by {
        assert(pool.chain[i] != held);
    }
}

/// The first `n` slots of the chain are held, and the others were never used.
pub open spec fn allocated_upto<B, F, U>(pool: PoolModel<B, F, U>, n: int) -> bool {
    &&& 0 <= n <= pool.chain.len()
    &&& forall|i: int| 0 <= i < n ==> pool.lends(#[trigger] pool.chain[i])
    &&& forall|i: int|
        n <= i < pool.chain.len() ==> pool.slots[#[trigger] pool.chain[i]] == SlotModel::<
            B,
            F,
            U,
        >::fresh()
}

/// Of a chain whose slots were never used, each one has its buffer allocated when it is
/// acquired, one after the other, and has no known age then.
pub proof fn law_unused_slots_are_allocated_in_turn<B, F, U>(
    pool: PoolModel<B, F, U>,
    n: int,
    buffer: B,
)
    requires
        pool.wf(),
        allocated_upto(pool, n),
        n < pool.chain.len(),
    ensures
        pool.first_free() == Some(n),
        pool.slots[pool.chain[n]].buffer is None,
        pool.furnish(pool.chain[n], buffer).slots[pool.chain[n]].age == 0,
        allocated_upto(pool.furnish(pool.chain[n], buffer), n + 1),
{
    law_the_first_free_slot_is_found(pool);
    assert(!pool.lends(pool.chain[n]));
    match pool.first_free() {
        Some(i) => {
            if i < n {
                assert(pool.lends(pool.chain[i]));
            }
            if n < i {
                assert(pool.lends(pool.chain[n]));
            }
        },
        None => {
            assert(pool.lends(pool.chain[n]));
        },
    }
    let after = pool.furnish(pool.chain[n], buffer);
    assert forall|i: int| 0 <= i < n + 1 implies after.lends(#[trigger] after.chain[i]) by {
        if i < n {
            assert(pool.lends(pool.chain[i]));
        }
    }
    assert forall|i: int| n + 1 <= i < after.chain.len() implies after.slots[
        #[trigger] after.chain[i]
    ] == SlotModel::<B, F, U>::fresh() by {
        assert(pool.chain[i] != pool.chain[n]);
    }
}

/// Once the ages have been reset, no buffer of the chain has a known age. Those that
/// nobody holds are kept, with what is kept with them. Those that somebody holds are as
/// they were, their ages too, and have made way for slots that were never used.
pub proof fn law_reset_forgets_all_ages<B, F, U>(
    pool: PoolModel<B, F, U>,
    live: LiveSlotsModel,
)
    requires
        pool.wf(),
        pool.fits(live),
        live.next_uid + SLOT_CAP <= usize::MAX,
    ensures
        ({
            let after = Turnover::of(pool, live).renew(pool.ages_after_reset()).pool;
            &&& after.chain.len() == pool.chain.len()
            &&& forall|i: int|
                0 <= i < after.chain.len() ==> after.slots[#[trigger] after.chain[i]].age == 0
            &&& forall|i: int|
                0 <= i < pool.chain.len() && !pool.lends(#[trigger] pool.chain[i]) ==> {
                    &&& after.chain[i] == pool.chain[i]
                    &&& after.slots[pool.chain[i]] == SlotModel {
                        age: 0,
                        ..pool.slots[pool.chain[i]]
                    }
                }
            &&& forall|i: int|
                0 <= i < pool.chain.len() && pool.lends(#[trigger] pool.chain[i])
                    ==> after.slots[after.chain[i]] == SlotModel::<B, F, U>::fresh()
            &&& forall|held: usize| #[trigger]
                pool.lends(held) ==> {
                    &&& after.lends(held)
                    &&& after.slots[held] == pool.slots[held]
                    &&& is_detached(after, held)
                }
        }),
{
    let before = Turnover::of(pool, live);
    let ages = pool.ages_after_reset();
    let after = before.renew(ages).pool;
    law_renewal_touches_each_slot_once(before, ages, ages.len());
    assert forall|i: int| 0 <= i < after.chain.len() implies after.slots[
        #[trigger] after.chain[i]
    ].age == 0 by {
        assert(before.pool.chain[i] == pool.chain[i]);
        assert(pool.slots.contains_key(pool.chain[i]));
    }
    assert forall|i: int| 0 <= i < pool.chain.len() && !pool.lends(
        #[trigger] pool.chain[i],
    ) implies {
        &&& after.chain[i] == pool.chain[i]
        &&& after.slots[pool.chain[i]] == SlotModel { age: 0, ..pool.slots[pool.chain[i]] }
    } by {
        assert(before.pool.chain[i] == pool.chain[i]);
        assert(pool.slots.contains_key(pool.chain[i]));
    }
    assert forall|i: int| 0 <= i < pool.chain.len() && pool.lends(
        #[trigger] pool.chain[i],
    ) implies after.slots[after.chain[i]] == SlotModel::<B, F, U>::fresh() by {
        assert(before.pool.chain[i] == pool.chain[i]);
        assert(ages[i] is None);
    }
    assert forall|held: usize| #[trigger] pool.lends(held) implies {
        &&& after.lends(held)
        &&& after.slots[held] == pool.slots[held]
        &&& is_detached(after, held)
    } by {
        if pool.chain.contains(held) {
            let i = choose|i: int| 0 <= i < pool.chain.len() && pool.chain[i] == held;
            assert(before.pool.chain[i] == held);
            assert(ages[i] is None);
        } else {
            assert(after.slots.contains_key(held));
        }
        assert forall|i: int| 0 <= i < after.chain.len() implies #[trigger] after.chain[i]
            != held by {
            assert(before.pool.chain[i] == pool.chain[i]);
            assert(pool.slots.contains_key(pool.chain[i]));
        }
        lemma_outside_slots_are_detached(after, held);
    }
}

/// A buffer of the chain without a known age is acquired and given back without one.
/// Submitting another one leaves it so.
pub proof fn law_unknown_ages_stay_unknown<B, F, U>(
    pool: PoolModel<B, F, U>,
    live: LiveSlotsModel,
    i: int,
    buffer: B,
    uid: usize,
)
    requires
        pool.wf(),
        pool.fits(live),
        live.next_uid + SLOT_CAP <= usize::MAX,
        0 <= i < pool.chain.len(),
        pool.slots[pool.chain[i]].age == 0,
        pool.lends(uid),
        pool.chain.contains(uid),
        uid != pool.chain[i],
    ensures
        ({
            let unknown = pool.chain[i];
            let after = Turnover::of(pool, live).renew(pool.ages_after_submission(uid)).pool;
            &&& pool.lend(unknown).slots[unknown].age == 0
            &&& pool.furnish(unknown, buffer).slots[unknown].age == 0
            &&& pool.give_back(unknown).slots[unknown].age == 0
            &&& after.chain[i] == unknown
            &&& after.slots[unknown].age == 0
        }),
{
    law_ages_count_submissions(pool, live, uid);
}

/// The ages of the buffers of the chain tell which was submitted later: no two known
/// ages are equal.
pub open spec fn ages_differ<B, F, U>(pool: PoolModel<B, F, U>) -> bool {
    forall|i: int, j: int|
        0 <= i < j < pool.chain.len() && pool.slots[#[trigger] pool.chain[i]].age > 0
            ==> pool.slots[pool.chain[i]].age != pool.slots[#[trigger] pool.chain[j]].age
}

/// The age of a slot counts the submissions since its own: it is one right after it,
/// and each later submission of another slot adds one to it. A slot whose age
/// cannot be told any more is replaced; an unknown age stays unknown.
pub proof fn law_ages_count_submissions<B, F, U>(
    pool: PoolModel<B, F, U>,
    live: LiveSlotsModel,
    uid: usize,
)
    requires
        pool.wf(),
        pool.fits(live),
        live.next_uid + SLOT_CAP <= usize::MAX,
        pool.lends(uid),
        pool.chain.contains(uid),
    ensures
        ({
            let after = Turnover::of(pool, live).renew(pool.ages_after_submission(uid)).pool;
            &&& after.chain.len() == pool.chain.len()
            &&& after.chain.contains(uid)
            &&& after.slots[uid].age == 1
            &&& forall|i: int|
                0 <= i < pool.chain.len() && #[trigger] pool.chain[i] != uid ==> {
                    let age = pool.slots[pool.chain[i]].age;
                    if age == u8::MAX {
                        after.slots[after.chain[i]] == SlotModel::<B, F, U>::fresh()
                    } else {
                        &&& after.chain[i] == pool.chain[i]
                        &&& after.slots[pool.chain[i]].age == if age == 0 {
                            0
                        } else {
                            age + 1
                        }
                    }
                }
        }),
{
    let before = Turnover::of(pool, live);
    let ages = pool.ages_after_submission(uid);
    let after = before.renew(ages).pool;
    law_renewal_touches_each_slot_once(before, ages, ages.len());
    let at = choose|i: int| 0 <= i < pool.chain.len() && pool.chain[i] == uid;
    assert(before.pool.chain[at] == uid);
    assert(after.chain[at] == uid);
    assert forall|i: int| 0 <= i < pool.chain.len() && #[trigger] pool.chain[i] != uid implies {
        let age = pool.slots[pool.chain[i]].age;
        if age == u8::MAX {
            after.slots[after.chain[i]] == SlotModel::<B, F, U>::fresh()
        } else {
            &&& after.chain[i] == pool.chain[i]
            &&& after.slots[pool.chain[i]].age == if age == 0 {
                0
            } else {
                age + 1
            }
        }
    } by {
        assert(before.pool.chain[i] == pool.chain[i]);
        assert(pool.slots.contains_key(pool.chain[i]));
        assert(pool.slots[pool.chain[i]].wf());
    }
}

/// Submitting a slot keeps the known ages different from each other.
pub proof fn law_submission_keeps_ages_different<B, F, U>(
    pool: PoolModel<B, F, U>,
    live: LiveSlotsModel,
    uid: usize,
)
    requires
        pool.wf(),
        pool.fits(live),
        live.next_uid + SLOT_CAP <= usize::MAX,
        pool.lends(uid),
        pool.chain.contains(uid),
        ages_differ(pool),
    ensures
        ages_differ(Turnover::of(pool, live).renew(pool.ages_after_submission(uid)).pool),
{
    let before = Turnover::of(pool, live);
    let ages = pool.ages_after_submission(uid);
    let after = before.renew(ages).pool;
    law_renewal_touches_each_slot_once(before, ages, ages.len());
    law_ages_count_submissions(pool, live, uid);
    assert forall|i: int, j: int|
        0 <= i < j < after.chain.len() && after.slots[#[trigger] after.chain[i]].age
            > 0 implies after.slots[after.chain[i]].age != after.slots[
        #[trigger] after.chain[j]
    ].age by {
        assert(before.pool.chain[i] == pool.chain[i]);
        assert(before.pool.chain[j] == pool.chain[j]);
        assert(pool.chain[i] != pool.chain[j]);
        assert(pool.slots.contains_key(pool.chain[i]));
        assert(pool.slots.contains_key(pool.chain[j]));
    }
}

/// Handing out, giving back and resetting keep the known ages different too.
pub proof fn law_ages_stay_different<B, F, U>(
    pool: PoolModel<B, F, U>,
    live: LiveSlotsModel,
    uid: usize,
    buffer: B,
)
    requires
        pool.wf(),
        pool.fits(live),
        live.next_uid + SLOT_CAP <= usize::MAX,
        pool.slots.contains_key(uid),
        ages_differ(pool),
    ensures
        ages_differ(pool.lend(uid)),
        ages_differ(pool.furnish(uid, buffer)),
        ages_differ(pool.give_back(uid)),
        ages_differ(Turnover::of(pool, live).renew(pool.ages_after_reset()).pool),
        ages_differ(Turnover::of(pool, live).renew(pool.no_ages()).pool),
{
    law_reset_forgets_all_ages(pool, live);
    let reset = Turnover::of(pool, live).renew(pool.ages_after_reset()).pool;
    assert(ages_differ(reset));
    let before = Turnover::of(pool, live);
    let ages = pool.no_ages();
    let renewed_all = before.renew(ages).pool;
    law_renewal_touches_each_slot_once(before, ages, ages.len());
    assert forall|i: int, j: int|
        0 <= i < j < renewed_all.chain.len() && renewed_all.slots[
            #[trigger] renewed_all.chain[i]
        ].age > 0 implies renewed_all.slots[renewed_all.chain[i]].age != renewed_all.slots[
        #[trigger] renewed_all.chain[j]
    ].age by {
        assert(before.pool.chain[i] == pool.chain[i]);
    }
    let lent = pool.lend(uid);
    assert forall|i: int| 0 <= i < lent.chain.len() implies lent.slots[
        #[trigger] lent.chain[i]
    ].age == pool.slots[pool.chain[i]].age by {}
    let furnished = pool.furnish(uid, buffer);
    assert forall|i: int| 0 <= i < furnished.chain.len() implies furnished.slots[
        #[trigger] furnished.chain[i]
    ].age == pool.slots[pool.chain[i]].age by {}
    let back = pool.give_back(uid);
    assert forall|i: int| 0 <= i < back.chain.len() implies back.slots[
        #[trigger] back.chain[i]
    ].age == pool.slots[pool.chain[i]].age by {}
}

/// The slot `uid` was at one of the first `n` positions of the chain, was replaced,
/// and nobody held it.
pub open spec fn is_dropped<B, F, U>(
    pool: PoolModel<B, F, U>,
    ages: Seq<Option<u8>>,
    n: int,
    uid: usize,
) -> bool {
    exists|i: int|
        {
            &&& 0 <= i < n
            &&& #[trigger] pool.chain[i] == uid
            &&& ages[i] is None
            &&& !pool.lends(uid)
        }
}

/// Renewing takes exactly the dropped slots off the live ones.
proof fn lemma_renewal_and_live_slots<B, F, U>(
    before: Turnover<B, F, U>,
    ages: Seq<Option<u8>>,
    n: nat,
)
    requires
        before.pool.wf(),
        before.pool.fits(before.live),
        before.live.next_uid + SLOT_CAP <= usize::MAX,
        ages.len() == before.pool.chain.len(),
        n <= ages.len(),
    ensures
        forall|uid: usize|
            {
                &&& #[trigger] before.renew_first(ages, n).live.slots.contains_key(uid)
                    <==> before.live.slots.contains_key(uid) && !is_dropped(
                    before.pool,
                    ages,
                    n as int,
                    uid,
                )
                &&& before.renew_first(ages, n).live.slots.contains_key(uid)
                    ==> before.renew_first(ages, n).live.slots[uid] == before.live.slots[uid]
            },
    decreases n,
{
    if n > 0 {
        let k = n - 1;
        lemma_renewal_and_live_slots(before, ages, k as nat);
        law_renewal_touches_each_slot_once(before, ages, k as nat);
        let here = before.renew_first(ages, k as nat);
        let after = before.renew_first(ages, n);
        assert(after == here.renew_at(k, ages[k]));
        let was = before.pool.chain[k];
        assert(here.pool.chain[k] == was);
        assert(before.pool.slots.contains_key(was));
        assert(here.pool.slots[was] == before.pool.slots[was]);
        assert forall|uid: usize|
            {
                &&& #[trigger] after.live.slots.contains_key(uid)
                    <==> before.live.slots.contains_key(uid) && !is_dropped(
                    before.pool,
                    ages,
                    n as int,
                    uid,
                )
                &&& after.live.slots.contains_key(uid) ==> after.live.slots[uid]
                    == before.live.slots[uid]
            } by {
            assert(here.live.slots.contains_key(uid) <==> before.live.slots.contains_key(uid)
                && !is_dropped(before.pool, ages, k as int, uid));
            if is_dropped(before.pool, ages, k as int, uid) {
                let i = choose|i: int|
                    {
                        &&& 0 <= i < k
                        &&& #[trigger] before.pool.chain[i] == uid
                        &&& ages[i] is None
                        &&& !before.pool.lends(uid)
                    };
                assert(0 <= i < n && before.pool.chain[i] == uid);
            }
            if is_dropped(before.pool, ages, n as int, uid) {
                let i = choose|i: int|
                    {
                        &&& 0 <= i < n
                        &&& #[trigger] before.pool.chain[i] == uid
                        &&& ages[i] is None
                        &&& !before.pool.lends(uid)
                    };
                if i < k {
                    assert(is_dropped(before.pool, ages, k as int, uid));
                }
            }
        }
    }
}

/// Once the buffers have been reset, or the dimensions have changed, a slot from
/// before stays among the live ones exactly if it is held: what is left behind there
/// names who still holds it.
pub proof fn law_slots_left_behind_are_held<B, F, U>(
    pool: PoolModel<B, F, U>,
    live: LiveSlotsModel,
    uid: usize,
)
    requires
        pool.wf(),
        pool.fits(live),
        live.next_uid + SLOT_CAP <= usize::MAX,
        pool.slots.contains_key(uid),
        pool.slots[uid].buffer is Some,
    ensures
        ({
            let after = Turnover::of(pool, live).renew(pool.no_ages()).live.slots;
            &&& after.contains_key(uid) <==> pool.lends(uid)
            &&& pool.lends(uid) ==> after[uid] == live.slots[uid]
        }),
{
    let before = Turnover::of(pool, live);
    let ages = pool.no_ages();
    lemma_renewal_and_live_slots(before, ages, ages.len());
    let after = before.renew(ages).live.slots;
    assert(after.contains_key(uid) <==> live.slots.contains_key(uid) && !is_dropped(
        pool,
        ages,
        ages.len() as int,
        uid,
    ));
    if !pool.lends(uid) {
        assert(pool.chain.contains(uid));
        let i = choose|i: int| 0 <= i < pool.chain.len() && pool.chain[i] == uid;
        assert(ages[i] is None);
        assert(is_dropped(pool, ages, ages.len() as int, uid));
    }
}

/// What is kept with a slot is what is found there, and nothing else changes.
pub proof fn law_kept_things_are_found<B, F, U>(
    pool: PoolModel<B, F, U>,
    uid: usize,
    key: u64,
    value: U,
    dmabuf: DmabufModel<F>,
    other: usize,
    other_key: u64,
)
    requires
        pool.wf(),
        pool.lends(uid),
        other != uid,
        other_key != key,
    ensures
        ({
            let kept = pool.keep_value(uid, key, value);
            &&& kept.slots[uid].userdata.values.contains_key(key)
            &&& kept.slots[uid].userdata.values[key] == value
            &&& kept.slots[uid].userdata.values.contains_key(other_key)
                <==> pool.slots[uid].userdata.values.contains_key(other_key)
            &&& kept.slots[uid].userdata.values[other_key]
                == pool.slots[uid].userdata.values[other_key]
            &&& kept.dmabuf_id(uid) == pool.dmabuf_id(uid)
            &&& kept.slots[other] == pool.slots[other]
        }),
        ({
            let kept = pool.keep_dmabuf(uid, dmabuf);
            &&& kept.dmabuf_id(uid) == Some(dmabuf.buffer.debug_id)
            &&& kept.slots[uid].userdata.values == pool.slots[uid].userdata.values
            &&& kept.slots[other] == pool.slots[other]
        }),
{
}

/// The pool and the live slots are in order.
pub open spec fn in_order<B, F, U>(turnover: Turnover<B, F, U>) -> bool {
    &&& turnover.pool.wf()
    &&& turnover.live.wf()
    &&& turnover.pool.fits(turnover.live)
}

/// Replacing a slot keeps the pool and the live slots in order.
proof fn lemma_replacing_keeps_order<B, F, U>(before: Turnover<B, F, U>, i: int)
    requires
        in_order(before),
        before.live.next_uid < usize::MAX,
        0 <= i < before.pool.chain.len(),
    ensures
        in_order(before.replace(i)),
{
    let after = before.replace(i);
    let uid = before.live.next_uid;
    let was = before.pool.chain[i];
    assert(before.pool.slots.contains_key(was));
    assert(after.pool.chain[i] == uid);
    assert forall|j: int| 0 <= j < after.pool.chain.len() implies
    after.pool.slots.contains_key(#[trigger] after.pool.chain[j]) by {
        if j != i {
            assert(after.pool.chain[j] == before.pool.chain[j]);
            assert(before.pool.slots.contains_key(before.pool.chain[j]));
        }
    }
    assert forall|j: int, k: int| 0 <= j < after.pool.chain.len() && 0 <= k
        < after.pool.chain.len() && j != k implies after.pool.chain[j] != after.pool.chain[k] by {
        assert(before.pool.slots.contains_key(before.pool.chain[j]));
        assert(before.pool.slots.contains_key(before.pool.chain[k]));
    }
    assert forall|other: usize| #[trigger] after.pool.slots.contains_key(other) implies {
        &&& after.pool.slots[other].wf()
        &&& after.pool.slots[other].acquired || after.pool.chain.contains(other)
    } by {
        if other != uid && !after.pool.slots[other].acquired {
            assert(before.pool.slots.contains_key(other));
            assert(before.pool.chain.contains(other));
            let j = choose|j: int| 0 <= j < before.pool.chain.len() && before.pool.chain[j]
                == other;
            assert(j != i);
            assert(after.pool.chain[j] == other);
        }
    }
}

/// Ages that leave slots without a buffer at zero keep every slot in order.
pub open spec fn ages_fit<B, F, U>(pool: PoolModel<B, F, U>, ages: Seq<Option<u8>>) -> bool {
    &&& ages.len() == pool.chain.len()
    &&& forall|i: int|
        0 <= i < ages.len() && pool.slots[pool.chain[i]].buffer is None ==> (#[trigger] ages[i])
            is None || ages[i] == Some(0u8)
}

/// Renewing keeps the pool and the live slots in order.
pub proof fn law_renewal_keeps_the_pool_in_order<B, F, U>(
    before: Turnover<B, F, U>,
    ages: Seq<Option<u8>>,
    n: nat,
)
    requires
        in_order(before),
        before.live.next_uid + SLOT_CAP <= usize::MAX,
        ages_fit(before.pool, ages),
        n <= ages.len(),
    ensures
        in_order(before.renew_first(ages, n)),
    decreases n,
{
    if n > 0 {
        let k = n - 1;
        law_renewal_keeps_the_pool_in_order(before, ages, k as nat);
        law_renewal_touches_each_slot_once(before, ages, k as nat);
        let here = before.renew_first(ages, k as nat);
        let was = before.pool.chain[k];
        assert(here.pool.chain[k] == was);
        assert(here.pool.slots.contains_key(here.pool.chain[k]));
        match ages[k] {
            None => {
                lemma_replacing_keeps_order(here, k);
            },
            Some(age) => {
                let after = here.renew_at(k, ages[k]);
                assert forall|uid: usize| #[trigger] after.pool.slots.contains_key(uid) implies {
                    &&& after.pool.slots[uid].wf()
                    &&& after.pool.slots[uid].acquired || after.pool.chain.contains(uid)
                } by {
                    assert(here.pool.slots.contains_key(uid));
                    if uid == was && after.pool.slots[uid].buffer is None {
                        assert(here.pool.slots[uid] == SlotModel::<B, F, U>::fresh());
                        assert(ages[k] == Some(0u8));
                    }
                }
            },
        }
    }
}

/// The pool and the live slots once the slot `uid` has been submitted `times` times.
pub open spec fn submitted_times<B, F, U>(
    pool: PoolModel<B, F, U>,
    live: LiveSlotsModel,
    uid: usize,
    times: nat,
) -> (PoolModel<B, F, U>, LiveSlotsModel)
    decreases times,
{
    if times == 0 {
        (pool, live)
    } else {
        let here = submitted_times(pool, live, uid, (times - 1) as nat);
        let after = Turnover::of(here.0, here.1).renew(here.0.ages_after_submission(uid));
        (after.pool, after.live)
    }
}

/// Over many submissions of a slot, the age of another one grows by one with each of
/// them, as long as it can be told.
pub proof fn law_ages_grow_with_every_submission<B, F, U>(
    pool: PoolModel<B, F, U>,
    live: LiveSlotsModel,
    uid: usize,
    times: nat,
    i: int,
)
    requires
        in_order(Turnover::of(pool, live)),
        live.next_uid + SLOT_CAP * times <= usize::MAX,
        pool.lends(uid),
        pool.chain.contains(uid),
        0 <= i < pool.chain.len(),
        pool.chain[i] != uid,
        pool.slots[pool.chain[i]].age > 0,
        pool.slots[pool.chain[i]].age + times <= u8::MAX,
    ensures
        ({
            let after = submitted_times(pool, live, uid, times);
            &&& in_order(Turnover::of(after.0, after.1))
            &&& after.1.next_uid <= live.next_uid + SLOT_CAP * times
            &&& after.0.lends(uid)
            &&& after.0.chain.contains(uid)
            &&& after.0.chain.len() == pool.chain.len()
            &&& after.0.chain[i] == pool.chain[i]
            &&& after.0.slots[pool.chain[i]].age == pool.slots[pool.chain[i]].age + times
            &&& times > 0 ==> after.0.slots[uid].age == 1
        }),
    decreases times,
{
    if times > 0 {
        let fewer = (times - 1) as nat;
        law_ages_grow_with_every_submission(pool, live, uid, fewer, i);
        let (here, live_here) = submitted_times(pool, live, uid, fewer);
        let before = Turnover::of(here, live_here);
        let ages = here.ages_after_submission(uid);
        assert(ages_fit(here, ages)) by {
            assert forall|j: int|
                0 <= j < ages.len() && here.slots[here.chain[j]].buffer is None implies (
            #[trigger] ages[j]) is None || ages[j] == Some(0u8) by {
                assert(here.slots.contains_key(here.chain[j]));
                assert(here.slots[here.chain[j]].wf());
            }
        }
        law_renewal_keeps_the_pool_in_order(before, ages, ages.len());
        law_renewal_touches_each_slot_once(before, ages, ages.len());
        law_ages_count_submissions(here, live_here, uid);
        law_renewal_leaves_held_slots(here, live_here, ages, uid);
        assert(here.chain[i] != uid);
    }
}

/// A slot that was never used has no buffer, is held by nobody, has no known age, and has
/// nothing kept with it.
pub open spec fn is_unused<B, F, U>(slot: SlotModel<B, F, U>) -> bool {
    &&& slot.buffer is None
    &&& !slot.acquired
    &&& slot.age == 0
    &&& slot.userdata.dmabuf is None
    &&& forall|key: u64| !(#[trigger] slot.userdata.values.contains_key(key))
}

/// A fresh slot was never used, and a slot without a buffer is one.
pub proof fn law_fresh_slots_are_unused<B, F, U>(slot: SlotModel<B, F, U>)
    requires
        slot.wf(),
    ensures
        is_unused(SlotModel::<B, F, U>::fresh()),
        slot.buffer is None ==> is_unused(slot),
{
}

/// Replacing every slot gives each position of the chain the next number, in order.
proof fn lemma_replaced_slots_are_numbered<B, F, U>(
    pool: PoolModel<B, F, U>,
    live: LiveSlotsModel,
    n: nat,
)
    requires
        pool.wf(),
        pool.fits(live),
        live.next_uid + SLOT_CAP <= usize::MAX,
        n <= pool.chain.len(),
    ensures
        ({
            let after = Turnover::of(pool, live).renew_first(pool.no_ages(), n);
            &&& after.pool.chain.len() == pool.chain.len()
            &&& after.live.next_uid == live.next_uid + n
            &&& forall|i: int|
                0 <= i < n ==> #[trigger] after.pool.chain[i] == live.next_uid + i
        }),
    decreases n,
{
    if n > 0 {
        lemma_replaced_slots_are_numbered(pool, live, (n - 1) as nat);
        assert(pool.no_ages()[n - 1] is None);
    }
}

/// The slots of the chain are dropped that were replaced and that nobody held.
proof fn lemma_dropped_slots<B, F, U>(
    pool: PoolModel<B, F, U>,
    live: LiveSlotsModel,
    ages: Seq<Option<u8>>,
    n: nat,
    gone: spec_fn(usize) -> bool,
)
    requires
        pool.wf(),
        pool.fits(live),
        live.next_uid + SLOT_CAP <= usize::MAX,
        ages.len() == pool.chain.len(),
        n <= ages.len(),
        forall|i: int|
            0 <= i < pool.chain.len() ==> (gone(#[trigger] pool.chain[i]) <==> ages[i] is None
                && !pool.slots[pool.chain[i]].acquired),
    ensures
        Turnover::of(pool, live).renew_first(ages, n).dropped == pool.chain.take(
            n as int,
        ).filter(gone).map_values(|uid: usize| pool.slots[uid]),
    decreases n,
{
    let before = Turnover::of(pool, live);
    let look = |uid: usize| pool.slots[uid];
    reveal(Seq::filter);
    if n == 0 {
        assert(before.dropped =~= pool.chain.take(0).filter(gone).map_values(look));
    } else {
        let k = n - 1;
        lemma_dropped_slots(pool, live, ages, k as nat, gone);
        law_renewal_touches_each_slot_once(before, ages, k as nat);
        let here = before.renew_first(ages, k as nat);
        assert(before.pool.chain[k] == pool.chain[k]);
        assert(here.pool.chain[k] == pool.chain[k]);
        assert(pool.chain.take(n as int).drop_last() =~= pool.chain.take(k));
        assert(pool.chain.take(n as int).last() == pool.chain[k]);
        let some = pool.chain.take(k).filter(gone);
        if gone(pool.chain[k]) {
            assert(some.push(pool.chain[k]).map_values(look) =~= some.map_values(look).push(
                pool.slots[pool.chain[k]],
            ));
        }
    }
}

/// After a resize the buffers have the new width and the new height, whatever they were. If
/// either differs from before, every slot of the chain is a new one that was never used, with
/// a number that no slot had before, and those of the old ones that nobody held are dropped,
/// in order; held ones are as they were. If neither differs, nothing changes.
pub proof fn law_resizing_sets_the_dimensions<A: Allocator<F>, F, U>(
    swapchain: SwapchainModel<A, F, U>,
    live: LiveSlotsModel,
    width: u32,
    height: u32,
)
    requires
        swapchain.wf(),
        swapchain.pool.fits(live),
        live.next_uid + 4 <= usize::MAX,
    ensures
        ({
            let (after, live_after, dropped) = swapchain.resize(live, width, height);
            &&& after.request.width == width
            &&& after.request.height == height
            &&& after.request.fourcc == swapchain.request.fourcc
            &&& after.request.modifiers == swapchain.request.modifiers
            &&& after.allocator == swapchain.allocator
            &&& swapchain.request.width == width && swapchain.request.height == height ==> {
                &&& after == swapchain
                &&& live_after == live
                &&& dropped.len() == 0
            }
            &&& swapchain.request.width != width || swapchain.request.height != height
                ==> all_replaced(swapchain.pool, live, after.pool, live_after, dropped)
        }),
{
    if swapchain.request.width == width && swapchain.request.height == height {
        assert(swapchain.resize(live, width, height).0 =~= swapchain);
    } else {
        law_resetting_replaces_every_slot(swapchain.pool, live);
    }
}

/// Every slot of the chain has made way for one that was never used.
pub open spec fn all_replaced<B, F, U>(
    pool: PoolModel<B, F, U>,
    live: LiveSlotsModel,
    after: PoolModel<B, F, U>,
    live_after: LiveSlotsModel,
    dropped: Seq<SlotModel<B, F, U>>,
) -> bool {
    &&& after.chain.len() == pool.chain.len()
    &&& live_after.next_uid == live.next_uid + pool.chain.len()
    &&& forall|i: int|
        0 <= i < after.chain.len() ==> {
            &&& #[trigger] after.chain[i] == live.next_uid + i
            &&& after.slots.contains_key(after.chain[i])
            &&& is_unused(after.slots[after.chain[i]])
        }
    &&& forall|uid: usize|
        uid < live.next_uid ==> {
            &&& #[trigger] after.slots.contains_key(uid) <==> pool.slots.contains_key(uid)
                && pool.slots[uid].acquired
            &&& after.slots.contains_key(uid) ==> after.slots[uid] == pool.slots[uid]
        }
    &&& forall|uid: usize|
        {
            &&& #[trigger] live_after.slots.contains_key(uid) <==> live.slots.contains_key(uid)
                && !(pool.chain.contains(uid) && !pool.slots[uid].acquired)
            &&& live_after.slots.contains_key(uid) ==> live_after.slots[uid] == live.slots[uid]
        }
    &&& dropped == pool.chain.filter(|uid: usize| !pool.slots[uid].acquired).map_values(
        |uid: usize| pool.slots[uid],
    )
}

/// Resetting the buffers puts slots that were never used, with numbers that no slot had
/// before, in place of all slots of the chain. The old ones that nobody held are dropped, in
/// order, and leave the live slots; held ones are as they were.
pub proof fn law_resetting_replaces_every_slot<B, F, U>(
    pool: PoolModel<B, F, U>,
    live: LiveSlotsModel,
)
    requires
        pool.wf(),
        pool.fits(live),
        live.next_uid + 4 <= usize::MAX,
    ensures
        ({
            let after = Turnover::of(pool, live).renew(pool.no_ages());
            all_replaced(pool, live, after.pool, after.live, after.dropped)
        }),
{
    let before = Turnover::of(pool, live);
    let ages = pool.no_ages();
    let after = before.renew(ages);
    let n = ages.len();
    law_renewal_touches_each_slot_once(before, ages, n);
    lemma_replaced_slots_are_numbered(pool, live, n);
    lemma_renewal_and_live_slots(before, ages, n);
    let gone = |uid: usize| !pool.slots[uid].acquired;
    lemma_dropped_slots(pool, live, ages, n, gone);
    assert(pool.chain.take(n as int) =~= pool.chain);
    assert forall|i: int| 0 <= i < after.pool.chain.len() implies {
        &&& #[trigger] after.pool.chain[i] == live.next_uid + i
        &&& after.pool.slots.contains_key(after.pool.chain[i])
        &&& is_unused(after.pool.slots[after.pool.chain[i]])
    } by {
        assert(before.pool.chain[i] == pool.chain[i]);
        assert(ages[i] is None);
    }
    assert forall|uid: usize| uid < live.next_uid implies {
        &&& #[trigger] after.pool.slots.contains_key(uid) <==> pool.slots.contains_key(uid)
            && pool.slots[uid].acquired
        &&& after.pool.slots.contains_key(uid) ==> after.pool.slots[uid] == pool.slots[uid]
    } by {
        if !pool.slots.contains_key(uid) {
            lemma_no_slot_comes_back(before, ages, n, uid);
        }
        if pool.chain.contains(uid) {
            let i = choose|i: int| 0 <= i < pool.chain.len() && pool.chain[i] == uid;
            assert(before.pool.chain[i] == uid);
            assert(ages[i] is None);
            assert(pool.slots.contains_key(pool.chain[i]));
        }
    }
    assert forall|uid: usize|
        {
            &&& #[trigger] after.live.slots.contains_key(uid) <==> live.slots.contains_key(uid)
                && !(pool.chain.contains(uid) && !pool.slots[uid].acquired)
            &&& after.live.slots.contains_key(uid) ==> after.live.slots[uid] == live.slots[uid]
        } by {
        assert(after.live.slots.contains_key(uid) <==> live.slots.contains_key(uid) && !is_dropped(
            pool,
            ages,
            n as int,
            uid,
        ));
        if pool.chain.contains(uid) && !pool.slots[uid].acquired {
            let i = choose|i: int| 0 <= i < pool.chain.len() && pool.chain[i] == uid;
            assert(ages[i] is None);
            assert(is_dropped(pool, ages, n as int, uid));
        }
        if is_dropped(pool, ages, n as int, uid) {
            let i = choose|i: int|
                {
                    &&& 0 <= i < n
                    &&& #[trigger] pool.chain[i] == uid
                    &&& ages[i] is None
                    &&& !pool.lends(uid)
                };
            assert(pool.slots.contains_key(pool.chain[i]));
        }
    }
}

/// Renewing brings back no slot from before.
proof fn lemma_no_slot_comes_back<B, F, U>(
    before: Turnover<B, F, U>,
    ages: Seq<Option<u8>>,
    n: nat,
    uid: usize,
)
    requires
        before.pool.wf(),
        before.pool.fits(before.live),
        before.live.next_uid + SLOT_CAP <= usize::MAX,
        ages.len() == before.pool.chain.len(),
        n <= ages.len(),
        uid < before.live.next_uid,
        !before.pool.slots.contains_key(uid),
    ensures
        !before.renew_first(ages, n).pool.slots.contains_key(uid),
    decreases n,
{
    if n > 0 {
        let k = (n - 1) as nat;
        lemma_no_slot_comes_back(before, ages, k, uid);
        law_renewal_touches_each_slot_once(before, ages, k);
        let here = before.renew_first(ages, k);
        assert(here.pool.slots.contains_key(here.pool.chain[n - 1]));
    }
}

/// Submitting a slot of the chain gives it the age one and makes the known ages of the
/// others one larger, except that a slot of the age 255 is replaced, and dropped if nobody
/// holds it. Nothing else about any slot changes, and no other slot is dropped.
pub proof fn law_submission_changes_only_ages<B, F, U>(
    pool: PoolModel<B, F, U>,
    live: LiveSlotsModel,
    uid: usize,
)
    requires
        pool.wf(),
        pool.fits(live),
        live.next_uid + 4 <= usize::MAX,
        pool.slots.contains_key(uid),
        pool.slots[uid].acquired,
        pool.chain.contains(uid),
    ensures
        ({
            let after = Turnover::of(pool, live).renew(pool.ages_after_submission(uid));
            let worn = |other: usize|
                other != uid && pool.slots[other].age == 255 && !pool.slots[other].acquired;
            &&& after.pool.chain.len() == pool.chain.len()
            &&& forall|i: int|
                0 <= i < pool.chain.len() ==> {
                    let was = #[trigger] pool.chain[i];
                    let slot = pool.slots[was];
                    let is = after.pool.chain[i];
                    if was != uid && slot.age == 255 {
                        &&& is >= live.next_uid
                        &&& is_unused(after.pool.slots[is])
                        &&& slot.acquired ==> after.pool.slots.contains_key(was)
                            && after.pool.slots[was] == slot
                        &&& !slot.acquired ==> !after.pool.slots.contains_key(was)
                    } else {
                        &&& is == was
                        &&& after.pool.slots[was].buffer == slot.buffer
                        &&& after.pool.slots[was].acquired == slot.acquired
                        &&& after.pool.slots[was].userdata == slot.userdata
                        &&& after.pool.slots[was].age == if was == uid {
                            1
                        } else if slot.age == 0 {
                            0
                        } else {
                            slot.age + 1
                        }
                    }
                }
            &&& forall|other: usize|
                pool.slots.contains_key(other) && !pool.chain.contains(other) ==> {
                    &&& #[trigger] after.pool.slots.contains_key(other)
                    &&& after.pool.slots[other] == pool.slots[other]
                }
            &&& forall|other: usize|
                {
                    &&& #[trigger] after.live.slots.contains_key(other)
                        <==> live.slots.contains_key(other) && !(pool.chain.contains(other) && worn(
                        other,
                    ))
                    &&& after.live.slots.contains_key(other) ==> after.live.slots[other]
                        == live.slots[other]
                }
            &&& after.dropped == pool.chain.filter(worn).map_values(|uid: usize| pool.slots[uid])
        }),
{
    let before = Turnover::of(pool, live);
    let ages = pool.ages_after_submission(uid);
    let after = before.renew(ages);
    let n = ages.len();
    let worn = |other: usize|
        other != uid && pool.slots[other].age == 255 && !pool.slots[other].acquired;
    law_renewal_touches_each_slot_once(before, ages, n);
    lemma_renewal_and_live_slots(before, ages, n);
    assert forall|i: int| 0 <= i < pool.chain.len() implies (worn(#[trigger] pool.chain[i])
        <==> ages[i] is None && !pool.slots[pool.chain[i]].acquired) by {
        assert(pool.slots.contains_key(pool.chain[i]));
        assert(pool.slots[pool.chain[i]].wf());
    }
    lemma_dropped_slots(pool, live, ages, n, worn);
    assert(pool.chain.take(n as int) =~= pool.chain);
    assert forall|i: int| 0 <= i < pool.chain.len() implies {
        let was = #[trigger] pool.chain[i];
        let slot = pool.slots[was];
        let is = after.pool.chain[i];
        if was != uid && slot.age == 255 {
            &&& is >= live.next_uid
            &&& is_unused(after.pool.slots[is])
            &&& slot.acquired ==> after.pool.slots.contains_key(was) && after.pool.slots[was]
                == slot
            &&& !slot.acquired ==> !after.pool.slots.contains_key(was)
        } else {
            &&& is == was
            &&& after.pool.slots[was].buffer == slot.buffer
            &&& after.pool.slots[was].acquired == slot.acquired
            &&& after.pool.slots[was].userdata == slot.userdata
            &&& after.pool.slots[was].age == if was == uid {
                1
            } else if slot.age == 0 {
                0
            } else {
                slot.age + 1
            }
        }
    } by {
        assert(before.pool.chain[i] == pool.chain[i]);
        assert(pool.slots.contains_key(pool.chain[i]));
        assert(pool.slots[pool.chain[i]].wf());
    }
    assert forall|other: usize|
        {
            &&& #[trigger] after.live.slots.contains_key(other) <==> live.slots.contains_key(other)
                && !(pool.chain.contains(other) && worn(other))
            &&& after.live.slots.contains_key(other) ==> after.live.slots[other]
                == live.slots[other]
        } by {
        lemma_dropped_numbers(pool, ages, other);
        if pool.chain.contains(other) {
            let i = choose|i: int| 0 <= i < pool.chain.len() && pool.chain[i] == other;
            assert(worn(pool.chain[i]) <==> ages[i] is None && !pool.slots[pool.chain[i]].acquired);
        }
    }
}

/// A slot is dropped exactly if it is in the chain, has no age to get, and nobody holds it.
proof fn lemma_dropped_numbers<B, F, U>(
    pool: PoolModel<B, F, U>,
    ages: Seq<Option<u8>>,
    uid: usize,
)
    requires
        pool.wf(),
        ages.len() == pool.chain.len(),
    ensures
        is_dropped(pool, ages, ages.len() as int, uid) ==> pool.chain.contains(uid)
            && !pool.slots[uid].acquired,
        forall|i: int|
            0 <= i < ages.len() && #[trigger] pool.chain[i] == uid ==> (is_dropped(
                pool,
                ages,
                ages.len() as int,
                uid,
            ) <==> ages[i] is None && !pool.slots[uid].acquired),
{
    let n = ages.len() as int;
    if is_dropped(pool, ages, n, uid) {
        let i = choose|i: int|
            {
                &&& 0 <= i < n
                &&& #[trigger] pool.chain[i] == uid
                &&& ages[i] is None
                &&& !pool.lends(uid)
            };
        assert(pool.slots.contains_key(pool.chain[i]));
    }
    assert forall|i: int| 0 <= i < ages.len() && #[trigger] pool.chain[i] == uid implies (
    is_dropped(pool, ages, n, uid) <==> ages[i] is None && !pool.slots[uid].acquired) by {
        assert(pool.slots.contains_key(pool.chain[i]));
    }
}

/// Resetting the ages drops no slot and takes none off the live ones. A slot that nobody holds
/// stays with the age zero and everything else; one that is held stays as it is, and has made
/// way for one that was never used.
pub proof fn law_resetting_ages_drops_nothing<B, F, U>(
    pool: PoolModel<B, F, U>,
    live: LiveSlotsModel,
)
    requires
        pool.wf(),
        pool.fits(live),
        live.next_uid + 4 <= usize::MAX,
    ensures
        ({
            let after = Turnover::of(pool, live).renew(pool.ages_after_reset());
            &&& after.dropped.len() == 0
            &&& after.live.slots == live.slots
            &&& after.pool.chain.len() == pool.chain.len()
            &&& forall|i: int|
                0 <= i < pool.chain.len() ==> {
                    let was = #[trigger] pool.chain[i];
                    let slot = pool.slots[was];
                    let is = after.pool.chain[i];
                    if slot.acquired {
                        &&& is >= live.next_uid
                        &&& is_unused(after.pool.slots[is])
                        &&& after.pool.slots.contains_key(was)
                        &&& after.pool.slots[was] == slot
                    } else {
                        &&& is == was
                        &&& after.pool.slots[was].age == 0
                        &&& after.pool.slots[was].buffer == slot.buffer
                        &&& !after.pool.slots[was].acquired
                        &&& after.pool.slots[was].userdata == slot.userdata
                    }
                }
            &&& forall|other: usize|
                pool.slots.contains_key(other) && !pool.chain.contains(other) ==> {
                    &&& #[trigger] after.pool.slots.contains_key(other)
                    &&& after.pool.slots[other] == pool.slots[other]
                }
        }),
{
    let before = Turnover::of(pool, live);
    let ages = pool.ages_after_reset();
    let after = before.renew(ages);
    let n = ages.len();
    let none = |uid: usize| false;
    law_renewal_touches_each_slot_once(before, ages, n);
    lemma_renewal_and_live_slots(before, ages, n);
    lemma_dropped_slots(pool, live, ages, n, none);
    lemma_nothing_is_filtered(pool.chain.take(n as int));
    assert forall|i: int| 0 <= i < pool.chain.len() implies {
        let was = #[trigger] pool.chain[i];
        let slot = pool.slots[was];
        let is = after.pool.chain[i];
        if slot.acquired {
            &&& is >= live.next_uid
            &&& is_unused(after.pool.slots[is])
            &&& after.pool.slots.contains_key(was)
            &&& after.pool.slots[was] == slot
        } else {
            &&& is == was
            &&& after.pool.slots[was].age == 0
            &&& after.pool.slots[was].buffer == slot.buffer
            &&& !after.pool.slots[was].acquired
            &&& after.pool.slots[was].userdata == slot.userdata
        }
    } by {
        assert(before.pool.chain[i] == pool.chain[i]);
        assert(pool.slots.contains_key(pool.chain[i]));
    }
    assert forall|uid: usize| #[trigger] after.live.slots.contains_key(
        uid,
    ) <==> live.slots.contains_key(uid) by {
        lemma_dropped_numbers(pool, ages, uid);
        if pool.chain.contains(uid) {
            let i = choose|i: int| 0 <= i < pool.chain.len() && pool.chain[i] == uid;
            assert(pool.chain[i] == uid);
            assert(is_dropped(pool, ages, n as int, uid) <==> ages[i] is None
                && !pool.slots[uid].acquired);
        }
    }
    assert(after.live.slots =~= live.slots);
}

/// Nothing is left of a sequence from which everything is taken.
proof fn lemma_nothing_is_filtered(numbers: Seq<usize>)
    ensures
        numbers.filter(|uid: usize| false).len() == 0,
    decreases numbers.len(),
{
    reveal(Seq::filter);
    if numbers.len() > 0 {
        lemma_nothing_is_filtered(numbers.drop_last());
    }
}

/// What letting go of the first `n` slots of the chain does.
proof fn lemma_withdrawn_slots<B, F, U>(pool: PoolModel<B, F, U>, live: LiveSlotsModel, n: nat)
    requires
        pool.wf(),
        n <= pool.chain.len(),
    ensures
        ({
            let after = Turnover::of(pool, live).withdraw_first(n);
            let first = pool.chain.take(n as int);
            &&& after.pool.chain == pool.chain.skip(n as int)
            &&& after.live.next_uid == live.next_uid
            &&& forall|uid: usize|
                {
                    &&& #[trigger] after.pool.slots.contains_key(uid)
                        <==> pool.slots.contains_key(uid) && !(first.contains(uid)
                        && !pool.slots[uid].acquired)
                    &&& after.pool.slots.contains_key(uid) ==> after.pool.slots[uid]
                        == pool.slots[uid]
                }
            &&& forall|uid: usize|
                {
                    &&& #[trigger] after.live.slots.contains_key(uid)
                        <==> live.slots.contains_key(uid) && !(first.contains(uid)
                        && !pool.slots[uid].acquired)
                    &&& after.live.slots.contains_key(uid) ==> after.live.slots[uid]
                        == live.slots[uid]
                }
            &&& after.dropped == first.filter(|uid: usize| !pool.slots[uid].acquired).map_values(
                |uid: usize| pool.slots[uid],
            )
        }),
    decreases n,
{
    let unheld = |uid: usize| !pool.slots[uid].acquired;
    let look = |uid: usize| pool.slots[uid];
    reveal(Seq::filter);
    if n == 0 {
        assert(pool.chain.skip(0) =~= pool.chain);
        assert(pool.chain.take(0).filter(unheld).map_values(look) =~= Seq::empty());
    } else {
        let k = n - 1;
        lemma_withdrawn_slots(pool, live, k as nat);
        let here = Turnover::of(pool, live).withdraw_first(k as nat);
        let after = Turnover::of(pool, live).withdraw_first(n);
        let was = pool.chain[k];
        let first = pool.chain.take(n as int);
        let fewer = pool.chain.take(k);
        assert(here.pool.chain.first() == was);
        assert(here.pool.chain.drop_first() =~= pool.chain.skip(n as int));
        assert(first.drop_last() =~= fewer);
        assert(first.last() == was);
        assert(pool.slots.contains_key(was));
        assert(!fewer.contains(was)) by {
            if fewer.contains(was) {
                let i = choose|i: int| 0 <= i < fewer.len() && fewer[i] == was;
                assert(pool.chain[i] == pool.chain[k]);
            }
        }
        assert forall|uid: usize| first.contains(uid) <==> fewer.contains(uid) || uid == was by {
            if first.contains(uid) {
                let i = choose|i: int| 0 <= i < first.len() && first[i] == uid;
                if i < k {
                    assert(fewer[i] == uid);
                }
            }
            if fewer.contains(uid) {
                let i = choose|i: int| 0 <= i < fewer.len() && fewer[i] == uid;
                assert(first[i] == uid);
            }
            assert(first[k] == was);
        }
        assert(here.pool.slots.contains_key(was));
        if unheld(was) {
            assert(fewer.filter(unheld).push(was).map_values(look) =~= fewer.filter(
                unheld,
            ).map_values(look).push(pool.slots[was]));
        }
    }
}

/// When a swapchain goes, the slots that somebody holds live on as they are. All others are
/// dropped, in the order of the chain, and leave the live slots.
pub proof fn law_retirement_leaves_held_slots<B, F, U>(
    pool: PoolModel<B, F, U>,
    live: LiveSlotsModel,
)
    requires
        pool.wf(),
    ensures
        ({
            let after = Turnover::of(pool, live).retire();
            &&& after.pool.chain.len() == 0
            &&& after.live.next_uid == live.next_uid
            &&& forall|uid: usize|
                {
                    &&& #[trigger] after.pool.slots.contains_key(uid)
                        <==> pool.slots.contains_key(uid) && pool.slots[uid].acquired
                    &&& after.pool.slots.contains_key(uid) ==> after.pool.slots[uid]
                        == pool.slots[uid]
                }
            &&& forall|uid: usize|
                {
                    &&& #[trigger] after.live.slots.contains_key(uid)
                        <==> live.slots.contains_key(uid) && !(pool.chain.contains(uid)
                        && !pool.slots[uid].acquired)
                    &&& after.live.slots.contains_key(uid) ==> after.live.slots[uid]
                        == live.slots[uid]
                }
            &&& after.dropped == pool.chain.filter(
                |uid: usize| !pool.slots[uid].acquired,
            ).map_values(|uid: usize| pool.slots[uid])
        }),
{
    lemma_withdrawn_slots(pool, live, pool.chain.len());
    assert(pool.chain.take(pool.chain.len() as int) =~= pool.chain);
}

/// A slot that is handed out is held, with all else as it was. One for which a buffer was
/// allocated has that buffer, besides. One that is given back is held by nobody, with all
/// else as it was, if it is in the chain, and is gone otherwise. The other slots and the
/// chain stay as they are.
pub proof fn law_handing_out_and_giving_back<B, F, U>(
    pool: PoolModel<B, F, U>,
    uid: usize,
    buffer: B,
    other: usize,
)
    requires
        pool.wf(),
        pool.slots.contains_key(uid),
        other != uid,
    ensures
        ({
            let slot = pool.slots[uid];
            let lent = pool.lend(uid);
            &&& lent.chain == pool.chain
            &&& lent.slots.contains_key(uid)
            &&& lent.slots[uid].acquired
            &&& lent.slots[uid].buffer == slot.buffer
            &&& lent.slots[uid].age == slot.age
            &&& lent.slots[uid].userdata == slot.userdata
            &&& lent.slots.contains_key(other) <==> pool.slots.contains_key(other)
            &&& lent.slots[other] == pool.slots[other]
        }),
        ({
            let slot = pool.slots[uid];
            let furnished = pool.furnish(uid, buffer);
            &&& furnished.chain == pool.chain
            &&& furnished.slots.contains_key(uid)
            &&& furnished.slots[uid].acquired
            &&& furnished.slots[uid].buffer == Some(buffer)
            &&& furnished.slots[uid].age == slot.age
            &&& furnished.slots[uid].userdata == slot.userdata
            &&& furnished.slots.contains_key(other) <==> pool.slots.contains_key(other)
            &&& furnished.slots[other] == pool.slots[other]
        }),
        ({
            let slot = pool.slots[uid];
            let back = pool.give_back(uid);
            &&& back.chain == pool.chain
            &&& back.slots.contains_key(uid) <==> pool.chain.contains(uid)
            &&& pool.chain.contains(uid) ==> {
                &&& !back.slots[uid].acquired
                &&& back.slots[uid].buffer == slot.buffer
                &&& back.slots[uid].age == slot.age
                &&& back.slots[uid].userdata == slot.userdata
            }
            &&& back.slots.contains_key(other) <==> pool.slots.contains_key(other)
            &&& pool.slots.contains_key(other) ==> back.slots[other] == pool.slots[other]
        }),
{
}

/// Keeping something with a slot leaves the chain, the other slots, and the buffer, the hold
/// and the age of the slot itself as they are.
pub proof fn law_keeping_changes_nothing_else<B, F, U>(
    pool: PoolModel<B, F, U>,
    uid: usize,
    key: u64,
    value: U,
    dmabuf: DmabufModel<F>,
    other: usize,
)
    requires
        pool.wf(),
        pool.slots.contains_key(uid),
        other != uid,
    ensures
        ({
            let slot = pool.slots[uid];
            let kept = pool.keep_value(uid, key, value);
            &&& kept.chain == pool.chain
            &&& kept.slots[uid].buffer == slot.buffer
            &&& kept.slots[uid].acquired == slot.acquired
            &&& kept.slots[uid].age == slot.age
            &&& kept.slots[uid].userdata.dmabuf == slot.userdata.dmabuf
            &&& kept.slots[uid].userdata.values == slot.userdata.values.insert(key, value)
            &&& kept.slots.contains_key(other) <==> pool.slots.contains_key(other)
            &&& kept.slots[other] == pool.slots[other]
        }),
        ({
            let slot = pool.slots[uid];
            let kept = pool.keep_dmabuf(uid, dmabuf);
            &&& kept.chain == pool.chain
            &&& kept.slots[uid].buffer == slot.buffer
            &&& kept.slots[uid].acquired == slot.acquired
            &&& kept.slots[uid].age == slot.age
            &&& kept.slots[uid].userdata.dmabuf == Some(dmabuf)
            &&& kept.slots[uid].userdata.values == slot.userdata.values
            &&& kept.slots.contains_key(other) <==> pool.slots.contains_key(other)
            &&& kept.slots[other] == pool.slots[other]
        }),
{
}

/// A swapchain has four slots, all of them different.
pub proof fn law_swapchains_have_four_slots<A: Allocator<F>, F, U>(
    swapchain: SwapchainModel<A, F, U>,
)
    requires
        swapchain.wf(),
    ensures
        swapchain.pool.chain.len() == 4,
        forall|i: int, j: int|
            0 <= i < j < 4 ==> #[trigger] swapchain.pool.chain[i]
                != #[trigger] swapchain.pool.chain[j],
        forall|i: int|
            0 <= i < 4 ==> swapchain.pool.slots.contains_key(#[trigger] swapchain.pool.chain[i]),
{
}

/// The slot at the position `i` is free, and all slots before it are held.
pub open spec fn is_first_free<B, F, U>(pool: PoolModel<B, F, U>, i: int) -> bool {
    &&& 0 <= i < pool.chain.len()
    &&& !pool.slots[pool.chain[i]].acquired
    &&& forall|j: int| 0 <= j < i ==> pool.slots[#[trigger] pool.chain[j]].acquired
}

/// The slot that is found is the first one of the chain that nobody holds; there is none only
/// if all are held. A buffer is allocated exactly if that slot has none.
pub proof fn law_the_first_slot_that_nobody_holds<A: Allocator<F>, F, U>(
    swapchain: SwapchainModel<A, F, U>,
)
    requires
        swapchain.wf(),
    ensures
        match swapchain.pool.first_free() {
            Some(i) => is_first_free(swapchain.pool, i),
            None => forall|j: int|
                0 <= j < 4 ==> swapchain.pool.slots[#[trigger] swapchain.pool.chain[j]].acquired,
        },
        swapchain.must_allocate() <==> exists|i: int| #[trigger]
            is_first_free(swapchain.pool, i) && swapchain.pool.slots[swapchain.pool.chain[i]].buffer
                is None,
{
    let pool = swapchain.pool;
    law_the_first_free_slot_is_found(pool);
    match pool.first_free() {
        Some(i) => {
            assert(pool.slots.contains_key(pool.chain[i]));
            assert forall|j: int| 0 <= j < i implies pool.slots[
                #[trigger] pool.chain[j]
            ].acquired by {
                assert(pool.lends(pool.chain[j]));
            }
            assert(is_first_free(pool, i));
            assert forall|k: int| #[trigger] is_first_free(pool, k) implies k == i by {
                if k < i {
                    assert(pool.lends(pool.chain[k]));
                }
                if i < k {
                    assert(pool.slots[pool.chain[i]].acquired);
                }
            }
        },
        None => {
            assert forall|j: int| 0 <= j < 4 implies pool.slots[
                #[trigger] pool.chain[j]
            ].acquired by {
                assert(pool.lends(pool.chain[j]));
            }
        },
    }
}

/// Acquiring a slot without a buffer asks the allocator for one with the dimensions, the
/// format and the modifiers of the swapchain. If it gives one, the first slot that nobody
/// holds is handed out with that buffer and an unknown age, and is entered with the live
/// slots, under the size that the buffer has. If it does not, its error is passed on and no
/// slot changes.
pub proof fn law_acquiring_allocates_what_was_asked_for<A: Allocator<F>, F, U>(
    before: (SwapchainModel<A, F, U>, LiveSlotsModel, RegistryModel<F>),
    after: (SwapchainModel<A, F, U>, LiveSlotsModel, RegistryModel<F>),
    result: Result<Option<usize>, A::Error>,
)
    requires
        before.0.wf(),
        before.0.must_allocate(),
        chain::acquires_new(before, after, result),
    ensures
        after.0.request == before.0.request,
        after.0.pool.chain == before.0.pool.chain,
        after.1.next_uid == before.1.next_uid,
        exists|created: Result<A::Buffer, A::Error>|
            {
                &&& #[trigger] before.0.allocator.creates(
                    before.2,
                    before.0.request,
                    after.0.allocator,
                    after.2,
                    created,
                )
                &&& created matches Err(error) ==> {
                    &&& result == Err::<Option<usize>, A::Error>(error)
                    &&& after.0.pool == before.0.pool
                    &&& after.1 == before.1
                }
                &&& created matches Ok(buffer) ==> {
                    &&& result matches Ok(Some(uid)) && was_furnished(before, after, uid, buffer)
                }
            },
{
    let (created, acquired_at) = choose|
        created: Result<A::Buffer, A::Error>,
        acquired_at: Seq<char>,
    |
        {
            &&& before.0.allocator.creates(
                before.2,
                before.0.request,
                after.0.allocator,
                after.2,
                created,
            )
            &&& created is Ok ==> signature::is_acquire_signature(acquired_at)
            &&& after.0.request == before.0.request
            &&& (after.0.pool, after.1, result) == #[trigger] before.0.settle(
                before.1,
                created,
                acquired_at,
            )
        };
    law_the_first_slot_that_nobody_holds(before.0);
    let i = before.0.pool.first_free()->0;
    let uid = before.0.pool.chain[i];
    assert(before.0.pool.slots.contains_key(uid));
    assert(is_first_free(before.0.pool, i));
    if let Ok(buffer) = created {
        assert(result == Ok::<Option<usize>, A::Error>(Some(uid)));
        assert(after.1.slots[uid].acquired_at == acquired_at);
        assert(was_furnished(before, after, uid, buffer));
    }
    assert(before.0.allocator.creates(
        before.2,
        before.0.request,
        after.0.allocator,
        after.2,
        created,
    ));
}

/// The first slot that nobody held is the slot `uid`, and has got the buffer.
pub open spec fn was_furnished<A: Allocator<F>, F, U>(
    before: (SwapchainModel<A, F, U>, LiveSlotsModel, RegistryModel<F>),
    after: (SwapchainModel<A, F, U>, LiveSlotsModel, RegistryModel<F>),
    uid: usize,
    buffer: A::Buffer,
) -> bool {
    &&& exists|i: int| #[trigger]
        is_first_free(before.0.pool, i) && before.0.pool.chain[i] == uid
    &&& after.0.pool.slots.contains_key(uid)
    &&& after.0.pool.slots[uid].buffer == Some(buffer)
    &&& after.0.pool.slots[uid].acquired
    &&& after.0.pool.slots[uid].age == 0
    &&& after.0.pool.slots[uid].userdata.dmabuf is None
    &&& forall|other: usize|
        other != uid ==> {
            &&& #[trigger] after.0.pool.slots.contains_key(other)
                <==> before.0.pool.slots.contains_key(other)
            &&& after.0.pool.slots[other] == before.0.pool.slots[other]
        }
    &&& after.1.slots.contains_key(uid)
    &&& after.1.slots[uid].width == buffer.dimensions().w
    &&& after.1.slots[uid].height == buffer.dimensions().h
    &&& after.1.slots[uid].dmabuf_id is None
    &&& signature::is_acquire_signature(after.1.slots[uid].acquired_at)
    &&& forall|other: usize|
        other != uid ==> {
            &&& #[trigger] after.1.slots.contains_key(other) <==> before.1.slots.contains_key(other)
            &&& before.1.slots.contains_key(other) ==> after.1.slots[other]
                == before.1.slots[other]
        }
}

/// The number that is told of a slot is that of the DMA buffer that is kept with it, and none
/// is told of a slot without one.
pub proof fn law_told_numbers_are_those_of_kept_buffers<B, F, U>(
    pool: PoolModel<B, F, U>,
    uid: usize,
    id: u64,
)
    ensures
        pool.dmabuf_id(uid) is None <==> pool.slots[uid].userdata.dmabuf is None,
        pool.dmabuf_id(uid) == Some(id) <==> (pool.slots[uid].userdata.dmabuf matches Some(kept)
            && kept.buffer.debug_id == id),
{
}

/// A slot that is exported for the first time keeps what its buffer was exported as, is linked
/// to it among the live slots, and gives one more reference to it. If the export fails, its
/// error is passed on and nothing is kept.
pub proof fn law_the_first_export_is_kept<B: AsDmabuf<F>, F, U>(
    uid: usize,
    before: (PoolModel<B, F, U>, LiveSlotsModel, RegistryModel<F>),
    after: (PoolModel<B, F, U>, LiveSlotsModel, RegistryModel<F>),
    result: Result<Dmabuf<F>, B::Error>,
)
    requires
        before.0.slots.contains_key(uid),
        before.0.slots[uid].buffer is Some,
        pool::exports_first(uid, before, after, result),
    ensures
        exists|exported: Result<Dmabuf<F>, B::Error>, registry_then: RegistryModel<F>|
            {
                &&& #[trigger] before.0.slots[uid].buffer->0.exports(
                    before.2,
                    registry_then,
                    exported,
                )
                &&& exported matches Err(error) ==> {
                    &&& result == Err::<Dmabuf<F>, B::Error>(error)
                    &&& after.0 == before.0
                    &&& after.1 == before.1
                    &&& after.2 == registry_then
                }
                &&& exported matches Ok(kept) ==> {
                    &&& result matches Ok(dmabuf) && dmabuf@.buffer == kept@.buffer
                    &&& after.0.slots[uid].userdata.dmabuf == Some(kept@)
                    &&& after.0.slots[uid].buffer == before.0.slots[uid].buffer
                    &&& after.0.slots[uid].acquired == before.0.slots[uid].acquired
                    &&& after.0.slots[uid].age == before.0.slots[uid].age
                    &&& after.0.chain == before.0.chain
                    &&& before.1.slots.contains_key(uid) ==> after.1.slots[uid].dmabuf_id == Some(
                        kept@.buffer.debug_id,
                    )
                    &&& after.1.slots.dom() == before.1.slots.dom()
                }
            },
{
    let (exported, registry_then) = choose|
        exported: Result<Dmabuf<F>, B::Error>,
        registry_then: RegistryModel<F>,
    |
        {
            &&& #[trigger] before.0.slots[uid].buffer->0.exports(
                before.2,
                registry_then,
                exported,
            )
            &&& match exported {
                Ok(kept) => {
                    &&& result is Ok
                    &&& after.0 == before.0.keep_dmabuf(uid, kept@)
                    &&& after.1 == before.1.link(uid, kept@.buffer.debug_id)
                    &&& registry_then.shared_into(kept@.buffer, after.2, result->Ok_0@)
                },
                Err(error) => {
                    &&& result == Err::<Dmabuf<F>, B::Error>(error)
                    &&& after == (before.0, before.1, registry_then)
                },
            }
        };
    assert(before.0.slots[uid].buffer->0.exports(before.2, registry_then, exported));
    if exported is Ok {
        assert(after.1.slots.dom() =~= before.1.slots.dom());
    }
}

/// A slot that is given up gives up its buffer, and then the DMA buffer that is kept with it:
/// one reference to it.
pub proof fn law_slots_give_up_what_they_hold<B: Disposable<F>, F, U>(
    slot: SlotModel<B, F, U>,
    registry: RegistryModel<F>,
)
    ensures
        slot.buffer is None && slot.userdata.dmabuf is None ==> slot.after_dispose(registry)
            == registry,
        slot.buffer is Some && slot.userdata.dmabuf is None ==> slot.after_dispose(registry)
            == slot.buffer->0.after_dispose(registry),
        slot.buffer is None && slot.userdata.dmabuf is Some ==> slot.after_dispose(registry)
            == registry.release(slot.userdata.dmabuf->0),
        slot.buffer is Some && slot.userdata.dmabuf is Some ==> slot.after_dispose(registry)
            == slot.buffer->0.after_dispose(registry).release(slot.userdata.dmabuf->0),
{
}

/// What the holders of slots do leaves the allocator of a swapchain alone, and what it is asked
/// for.
pub proof fn law_slots_do_not_matter_to_requests<A: Allocator<F>, F, U>(
    swapchain: SwapchainModel<A, F, U>,
    pool: PoolModel<A::Buffer, F, U>,
)
    ensures
        swapchain.with_pool(pool).pool == pool,
        swapchain.with_pool(pool).allocator == swapchain.allocator,
        swapchain.with_pool(pool).request.width == swapchain.request.width,
        swapchain.with_pool(pool).request.height == swapchain.request.height,
        swapchain.with_pool(pool).request.fourcc == swapchain.request.fourcc,
        swapchain.with_pool(pool).request.modifiers == swapchain.request.modifiers,
{
}

/// Putting a slot under a number changes nothing for the other slots, or for the chain.
pub proof fn law_other_slots_stay_as_they_are<B, F, U>(
    pool: PoolModel<B, F, U>,
    uid: usize,
    slot: SlotModel<B, F, U>,
    other: usize,
)
    requires
        other != uid,
    ensures
        pool.with_slot(uid, slot).chain == pool.chain,
        pool.with_slot(uid, slot).slots.contains_key(uid),
        pool.with_slot(uid, slot).slots[uid] == slot,
        pool.with_slot(uid, slot).slots.contains_key(other) <==> pool.slots.contains_key(other),
        pool.with_slot(uid, slot).slots[other] == pool.slots[other],
{
}

/// What is handed out is told by its number, and nothing else is made of a result.
pub proof fn law_results_are_told_by_number<E>(result: Result<Option<Slot>, E>)
    ensures
        match result {
            Ok(Some(slot)) => chain::handed_out(result) == Ok::<Option<usize>, E>(Some(slot@)),
            Ok(None) => chain::handed_out(result) == Ok::<Option<usize>, E>(None),
            Err(error) => chain::handed_out(result) == Err::<Option<usize>, E>(error),
        },
{
}

/// Before any slot was made, none is live, and numbers start at zero.
pub proof fn law_no_slot_is_live_at_first(uid: usize)
    ensures
        LiveSlotsModel::start().next_uid == 0,
        !LiveSlotsModel::start().slots.contains_key(uid),
{
}

} // verus!
