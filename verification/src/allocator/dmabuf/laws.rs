//! What holds of the buffers and their references as a whole.

use crate::allocator::dmabuf::buffer;
use crate::allocator::dmabuf::buffer::{BufferModel, BuilderModel, DmabufModel};
use crate::allocator::dmabuf::registry;
use crate::allocator::dmabuf::registry::{LiveModel, RegistryModel};
use crate::allocator::format::DrmNode;
use crate::allocator::swapchain::census::listings;
use crate::backtrace;
use crate::signature;
use std::backtrace::Backtrace;
use std::sync::Arc;
use vstd::prelude::*;

verus! {

/// How many of `handles` refer to the buffer `id`.
pub open spec fn references<F>(handles: Seq<DmabufModel<F>>, id: u64) -> nat
    decreases handles.len(),
{
    if handles.len() == 0 {
        0
    } else {
        let before = references(handles.drop_last(), id);
        if handles.last().buffer.debug_id == id {
            before + 1
        } else {
            before
        }
    }
}

/// `handles` are all the references that there are: the registry counts them, and
/// has an entry for each of them that is traced, and for no others.
pub open spec fn accounts_for<F>(
    registry: RegistryModel<F>,
    handles: Seq<DmabufModel<F>>,
) -> bool {
    &&& registry.wf()
    &&& forall|id: u64|
        references(handles, id) == if #[trigger] registry.live.contains_key(id) {
            registry.live[id].strong as nat
        } else {
            0
        }
    &&& forall|i: int|
        0 <= i < handles.len() ==> {
            let handle = #[trigger] handles[i];
            &&& registry.holds(handle.buffer)
            &&& registry.traces(handle.buffer) <==> handle.clone_id != 0
            &&& handle.clone_id != 0 ==> {
                &&& registry.clones.contains_key(handle.clone_id)
                &&& registry.clones[handle.clone_id].0 == handle.buffer.debug_id
                &&& handle.clone_id < registry.next_clone_id
            }
        }
    &&& forall|i: int, j: int|
        0 <= i < j < handles.len() && (#[trigger] handles[i]).clone_id != 0 ==> handles[i].clone_id
            != (#[trigger] handles[j]).clone_id
    &&& forall|clone_id: u64| #[trigger]
        registry.clones.contains_key(clone_id) ==> exists|i: int|
            0 <= i < handles.len() && (#[trigger] handles[i]).clone_id == clone_id && clone_id != 0
    &&& registry.next_clone_id >= 1
}

/// Adding a reference adds one to the count of its buffer alone.
proof fn lemma_references_push<F>(
    handles: Seq<DmabufModel<F>>,
    handle: DmabufModel<F>,
    id: u64,
)
    ensures
        references(handles.push(handle), id) == references(handles, id) + if handle.buffer.debug_id
            == id {
            1nat
        } else {
            0nat
        },
{
    assert(handles.push(handle).drop_last() =~= handles);
}

/// Removing a reference takes one from the count of its buffer alone.
proof fn lemma_references_remove<F>(handles: Seq<DmabufModel<F>>, i: int, id: u64)
    requires
        0 <= i < handles.len(),
    ensures
        references(handles, id) == references(handles.remove(i), id) + if handles[i].buffer.debug_id
            == id {
            1nat
        } else {
            0nat
        },
    decreases handles.len(),
{
    if i == handles.len() - 1 {
        assert(handles.remove(i) =~= handles.drop_last());
    } else {
        lemma_references_remove(handles.drop_last(), i, id);
        assert(handles.remove(i).drop_last() =~= handles.drop_last().remove(i));
    }
}

/// A registry before any buffer was built accounts for no references.
pub proof fn law_a_new_registry_is_empty<F>(trace: bool)
    ensures
        accounts_for(RegistryModel::<F>::start(trace), Seq::empty()),
{
}

/// Sharing a buffer keeps the books: the new reference is counted, and traced if
/// it is to be.
pub proof fn law_sharing_is_accounted_for<F>(
    registry: RegistryModel<F>,
    handles: Seq<DmabufModel<F>>,
    buffer: BufferModel<F>,
    site: Arc<Backtrace>,
)
    requires
        accounts_for(registry, handles),
        registry.can_share(buffer),
        registry.next_clone_id < u64::MAX,
    ensures
        accounts_for(
            registry.share(buffer, site),
            handles.push(DmabufModel { buffer, clone_id: registry.clone_id_for(buffer) }),
        ),
{
    let handle = DmabufModel { buffer, clone_id: registry.clone_id_for(buffer) };
    let after = registry.share(buffer, site);
    let more = handles.push(handle);
    lemma_new_reference(registry, registry.count_reference(buffer), after, handles, handle, site);
    assert forall|id: u64|
        references(more, id) == if #[trigger] after.live.contains_key(id) {
            after.live[id].strong as nat
        } else {
            0
        } by {
        lemma_references_push(handles, handle, id);
        assert(references(handles, id) == if registry.live.contains_key(id) {
            registry.live[id].strong as nat
        } else {
            0
        });
    }
}

/// Numbering a new reference keeps everything but the counts in order.
proof fn lemma_new_reference<F>(
    before: RegistryModel<F>,
    counted: RegistryModel<F>,
    after: RegistryModel<F>,
    handles: Seq<DmabufModel<F>>,
    handle: DmabufModel<F>,
    site: Arc<Backtrace>,
)
    requires
        accounts_for(before, handles),
        counted.wf(),
        counted.trace == before.trace,
        counted.next_clone_id == before.next_clone_id,
        counted.clones == before.clones,
        before.next_clone_id < u64::MAX,
        forall|id: u64|
            before.live.contains_key(id) ==> #[trigger] counted.live.contains_key(id)
                && counted.live[id].buffer == before.live[id].buffer,
        counted.holds(handle.buffer),
        handle.clone_id == before.clone_id_for(handle.buffer),
        after == counted.register_clone(handle.buffer, site),
    ensures
        after.wf(),
        after.next_clone_id >= 1,
        ({
            let more = handles.push(handle);
            &&& forall|i: int|
                0 <= i < more.len() ==> {
                    let handle = #[trigger] more[i];
                    &&& after.holds(handle.buffer)
                    &&& after.traces(handle.buffer) <==> handle.clone_id != 0
                    &&& handle.clone_id != 0 ==> {
                        &&& after.clones.contains_key(handle.clone_id)
                        &&& after.clones[handle.clone_id].0 == handle.buffer.debug_id
                        &&& handle.clone_id < after.next_clone_id
                    }
                }
            &&& forall|i: int, j: int|
                0 <= i < j < more.len() && (#[trigger] more[i]).clone_id != 0 ==> more[i].clone_id
                    != (#[trigger] more[j]).clone_id
            &&& forall|clone_id: u64| #[trigger]
                after.clones.contains_key(clone_id) ==> exists|i: int|
                    0 <= i < more.len() && (#[trigger] more[i]).clone_id == clone_id && clone_id
                        != 0
        }),
{
    let more = handles.push(handle);
    assert forall|i: int| 0 <= i < more.len() implies {
        let handle = #[trigger] more[i];
        &&& after.holds(handle.buffer)
        &&& after.traces(handle.buffer) <==> handle.clone_id != 0
        &&& handle.clone_id != 0 ==> {
            &&& after.clones.contains_key(handle.clone_id)
            &&& after.clones[handle.clone_id].0 == handle.buffer.debug_id
            &&& handle.clone_id < after.next_clone_id
        }
    } by {
        if i < handles.len() {
            assert(more[i] == handles[i]);
            assert(counted.live.contains_key(handles[i].buffer.debug_id));
        }
    }
    assert forall|i: int, j: int|
        0 <= i < j < more.len() && (#[trigger] more[i]).clone_id != 0 implies more[i].clone_id != (
    #[trigger] more[j]).clone_id by {
        assert(more[i] == handles[i]);
        if j < handles.len() {
            assert(more[j] == handles[j]);
        }
    }
    assert forall|clone_id: u64| #[trigger] after.clones.contains_key(clone_id) implies exists|
        i: int,
    |
        0 <= i < more.len() && (#[trigger] more[i]).clone_id == clone_id && clone_id != 0 by {
        if before.clones.contains_key(clone_id) {
            let i = choose|i: int|
                0 <= i < handles.len() && (#[trigger] handles[i]).clone_id == clone_id && clone_id
                    != 0;
            assert(more[i] == handles[i]);
        } else {
            assert(more[handles.len() as int] == handle);
        }
    }
}

/// Building a buffer keeps the books: its one reference is counted, and traced if
/// it is to be.
pub proof fn law_building_is_accounted_for<F>(
    registry: RegistryModel<F>,
    handles: Seq<DmabufModel<F>>,
    builder: BuilderModel<F>,
    created_at: Seq<char>,
    address: usize,
    site: Arc<Backtrace>,
)
    requires
        accounts_for(registry, handles),
        address != 0,
        buffer::has_address(builder.describes(registry.next_debug_id, created_at), address),
        builder.wf(),
        builder.planes.len() > 0,
        registry.next_debug_id < u64::MAX,
        registry.next_clone_id < u64::MAX,
    ensures
        ({
            let buffer = builder.describes(registry.next_debug_id, created_at);
            accounts_for(
                registry.build(builder, created_at, address, site),
                handles.push(DmabufModel { buffer, clone_id: registry.clone_id_for(buffer) }),
            )
        }),
{
    let buffer = builder.describes(registry.next_debug_id, created_at);
    let handle = DmabufModel { buffer, clone_id: registry.clone_id_for(buffer) };
    let counted = registry.enter_buffer(builder, created_at, address);
    let after = registry.build(builder, created_at, address, site);
    let more = handles.push(handle);
    lemma_new_reference(registry, counted, after, handles, handle, site);
    assert forall|id: u64|
        references(more, id) == if #[trigger] after.live.contains_key(id) {
            after.live[id].strong as nat
        } else {
            0
        } by {
        lemma_references_push(handles, handle, id);
        assert(references(handles, id) == if registry.live.contains_key(id) {
            registry.live[id].strong as nat
        } else {
            0
        });
    }
}

/// Releasing a reference keeps the books: it is no longer counted or traced, and
/// with the last one the buffer goes.
pub proof fn law_releasing_is_accounted_for<F>(
    registry: RegistryModel<F>,
    handles: Seq<DmabufModel<F>>,
    i: int,
)
    requires
        accounts_for(registry, handles),
        0 <= i < handles.len(),
    ensures
        accounts_for(registry.release(handles[i]), handles.remove(i)),
        registry.release(handles[i]).live.contains_key(handles[i].buffer.debug_id) <==> references(
            handles,
            handles[i].buffer.debug_id,
        ) > 1,
{
    let handle = handles[i];
    let id = handle.buffer.debug_id;
    let after = registry.release(handle);
    let fewer = handles.remove(i);
    assert(registry.holds(handle.buffer));
    assert(references(handles, id) == registry.live[id].strong);
    assert forall|other: u64|
        references(fewer, other) == if #[trigger] after.live.contains_key(other) {
            after.live[other].strong as nat
        } else {
            0
        } by {
        lemma_references_remove(handles, i, other);
        assert(references(handles, other) == if registry.live.contains_key(other) {
            registry.live[other].strong as nat
        } else {
            0
        });
    }
    assert forall|j: int| 0 <= j < fewer.len() implies {
        let handle = #[trigger] fewer[j];
        &&& after.holds(handle.buffer)
        &&& after.traces(handle.buffer) <==> handle.clone_id != 0
        &&& handle.clone_id != 0 ==> {
            &&& after.clones.contains_key(handle.clone_id)
            &&& after.clones[handle.clone_id].0 == handle.buffer.debug_id
            &&& handle.clone_id < after.next_clone_id
        }
    } by {
        let k = if j < i {
            j
        } else {
            j + 1
        };
        assert(fewer[j] == handles[k]);
        assert(registry.holds(handles[k].buffer));
        lemma_references_positive(fewer, j);
        if k < i {
            assert(handles[k].clone_id != 0 ==> handles[k].clone_id != handles[i].clone_id);
        } else {
            assert(handles[i].clone_id != 0 ==> handles[i].clone_id != handles[k].clone_id);
        }
        assert(after.live.contains_key(fewer[j].buffer.debug_id)) by {
            assert(references(fewer, fewer[j].buffer.debug_id) > 0);
        }
    }
    assert forall|a: int, b: int|
        0 <= a < b < fewer.len() && (#[trigger] fewer[a]).clone_id != 0 implies fewer[a].clone_id
        != (#[trigger] fewer[b]).clone_id by {
        let c = if a < i {
            a
        } else {
            a + 1
        };
        let d = if b < i {
            b
        } else {
            b + 1
        };
        assert(fewer[a] == handles[c] && fewer[b] == handles[d]);
    }
    assert forall|clone_id: u64| #[trigger] after.clones.contains_key(clone_id) implies exists|
        j: int,
    |
        0 <= j < fewer.len() && (#[trigger] fewer[j]).clone_id == clone_id && clone_id != 0 by {
        assert(registry.clones.contains_key(clone_id));
        let k = choose|k: int|
            0 <= k < handles.len() && (#[trigger] handles[k]).clone_id == clone_id && clone_id != 0;
        assert(k != i);
        let j = if k < i {
            k
        } else {
            k - 1
        };
        assert(fewer[j] == handles[k]);
    }
}

/// A buffer that one of `handles` refers to has a reference.
proof fn lemma_references_positive<F>(handles: Seq<DmabufModel<F>>, i: int)
    requires
        0 <= i < handles.len(),
    ensures
        references(handles, handles[i].buffer.debug_id) > 0,
{
    lemma_references_remove(handles, i, handles[i].buffer.debug_id);
}

/// A buffer is gone exactly if no references to it are left. A weak reference to it
/// can then no longer be upgraded.
pub proof fn law_buffers_live_as_long_as_their_references<F>(
    registry: RegistryModel<F>,
    handles: Seq<DmabufModel<F>>,
    id: u64,
)
    requires
        accounts_for(registry, handles),
    ensures
        registry.live.contains_key(id) <==> references(handles, id) > 0,
{
    assert(references(handles, id) == if registry.live.contains_key(id) {
        registry.live[id].strong as nat
    } else {
        0
    });
}

/// The last reference to a traced buffer is the one that is shown: there is exactly
/// one entry for the buffer, and it is that of the reference.
pub proof fn law_the_last_reference_is_shown<F>(
    registry: RegistryModel<F>,
    handles: Seq<DmabufModel<F>>,
    i: int,
    clone_id: u64,
)
    requires
        accounts_for(registry, handles),
        0 <= i < handles.len(),
        registry.live[handles[i].buffer.debug_id].strong == 1,
        registry.traces(handles[i].buffer),
    ensures
        registry.clones.contains_key(clone_id) && registry.clones[clone_id].0
            == handles[i].buffer.debug_id <==> clone_id == handles[i].clone_id,
{
    let id = handles[i].buffer.debug_id;
    assert(registry.holds(handles[i].buffer));
    assert(references(handles, id) == registry.live[id].strong);
    if registry.clones.contains_key(clone_id) && registry.clones[clone_id].0 == id {
        let j = choose|j: int|
            0 <= j < handles.len() && (#[trigger] handles[j]).clone_id == clone_id && clone_id != 0;
        if j != i {
            lemma_references_remove(handles, i, id);
            let k = if j < i {
                j
            } else {
                j - 1
            };
            assert(handles.remove(i)[k] == handles[j]);
            lemma_references_positive(handles.remove(i), k);
        }
    }
}

/// A buffer that was built is what its builder describes, has one reference and an
/// address, and has a number that is larger than that of every buffer before it. So no
/// reference to a buffer before it is equal to the one to it.
pub proof fn law_a_built_buffer_is_new<F>(
    registry: RegistryModel<F>,
    builder: BuilderModel<F>,
    after: RegistryModel<F>,
    dmabuf: DmabufModel<F>,
)
    requires
        registry.wf(),
        registry.next_debug_id < u64::MAX,
        registry.built_into(builder, after, dmabuf),
    ensures
        dmabuf.buffer == builder.describes(dmabuf.buffer.debug_id, dmabuf.buffer.created_at),
        after.holds(dmabuf.buffer),
        after.live[dmabuf.buffer.debug_id].strong == 1,
        after.live[dmabuf.buffer.debug_id].node == builder.node,
        after.live[dmabuf.buffer.debug_id].address != 0,
        buffer::has_address(dmabuf.buffer, after.live[dmabuf.buffer.debug_id].address),
        1 <= registry.next_debug_id <= dmabuf.buffer.debug_id < after.next_debug_id,
        forall|other: BufferModel<F>| #[trigger]
            registry.holds(other) ==> other.debug_id < dmabuf.buffer.debug_id && after.holds(other),
{
}

/// Equal references refer to the same buffer: they tell the same address, count and
/// node, whatever is set through either of them.
pub proof fn law_equal_references_agree<F>(
    registry: RegistryModel<F>,
    a: DmabufModel<F>,
    b: DmabufModel<F>,
    node: Option<DrmNode>,
)
    requires
        registry.wf(),
        registry.holds(a.buffer),
        registry.holds(b.buffer),
        a.buffer.debug_id == b.buffer.debug_id,
    ensures
        a.buffer == b.buffer,
        registry.live[a.buffer.debug_id].address == registry.live[b.buffer.debug_id].address,
        registry.live[a.buffer.debug_id].address != 0,
        ({
            let id = a.buffer.debug_id;
            let after = registry.with_live(id, LiveModel { node, ..registry.live[id] });
            &&& after.live[a.buffer.debug_id] == after.live[b.buffer.debug_id]
            &&& after.live[id].address == registry.live[id].address
            &&& after.live[id].node == node
        }),
{
}

/// A further reference is equal to the one that it was made from, and leaves the
/// address of the buffer as it is.
pub proof fn law_sharing_keeps_the_buffer<F>(
    registry: RegistryModel<F>,
    buffer: BufferModel<F>,
    after: RegistryModel<F>,
    dmabuf: DmabufModel<F>,
)
    requires
        registry.wf(),
        registry.can_share(buffer),
        registry.shared_into(buffer, after, dmabuf),
    ensures
        dmabuf.buffer == buffer,
        after.holds(buffer),
        after.live[buffer.debug_id].address == registry.live[buffer.debug_id].address,
        after.live[buffer.debug_id].strong == registry.live[buffer.debug_id].strong + 1,
{
}

/// A buffer that is gone, and was there before, does not come back: not by building,
/// sharing, releasing or setting a node.
pub proof fn law_gone_buffers_stay_gone<F>(
    registry: RegistryModel<F>,
    id: u64,
    builder: BuilderModel<F>,
    created_at: Seq<char>,
    address: usize,
    site: Arc<Backtrace>,
    dmabuf: DmabufModel<F>,
    node: Option<DrmNode>,
)
    requires
        registry.wf(),
        registry.next_debug_id < u64::MAX,
        id < registry.next_debug_id,
        !registry.live.contains_key(id),
        registry.can_share(dmabuf.buffer),
    ensures
        is_past(registry.build(builder, created_at, address, site), id),
        is_past(registry.share(dmabuf.buffer, site), id),
        is_past(registry.release(dmabuf), id),
        is_past(
            registry.with_live(
                dmabuf.buffer.debug_id,
                LiveModel { node, ..registry.live[dmabuf.buffer.debug_id] },
            ),
            id,
        ),
{
}

/// The number `id` was handed out to a buffer that is gone.
pub open spec fn is_past<F>(registry: RegistryModel<F>, id: u64) -> bool {
    id < registry.next_debug_id && !registry.live.contains_key(id)
}

/// The traced references have numbers that were handed out, none of them zero.
pub open spec fn traces_are_numbered<F>(registry: RegistryModel<F>) -> bool {
    &&& registry.next_clone_id >= 1
    &&& forall|clone_id: u64| #[trigger]
        registry.clones.contains_key(clone_id) ==> 1 <= clone_id < registry.next_clone_id
}

/// Where all references are accounted for, the traced ones are numbered.
pub proof fn law_accounted_traces_are_numbered<F>(
    registry: RegistryModel<F>,
    handles: Seq<DmabufModel<F>>,
)
    requires
        accounts_for(registry, handles),
    ensures
        traces_are_numbered(registry),
{
    assert forall|clone_id: u64| #[trigger] registry.clones.contains_key(clone_id) implies 1
        <= clone_id < registry.next_clone_id by {
        let i = choose|i: int|
            0 <= i < handles.len() && (#[trigger] handles[i]).clone_id == clone_id && clone_id != 0;
        assert(handles[i].clone_id < registry.next_clone_id);
    }
}

/// A reference gets the number zero exactly if it is not traced, and then nothing is
/// noted. Otherwise it gets a number that none had before it and that none after it
/// will get, and exactly one entry is made: under that number, for its buffer.
pub proof fn law_traced_references_get_new_numbers<F>(
    registry: RegistryModel<F>,
    buffer: BufferModel<F>,
    site: Arc<Backtrace>,
)
    requires
        registry.wf(),
        traces_are_numbered(registry),
        registry.next_clone_id < u64::MAX,
    ensures
        ({
            let clone_id = registry.clone_id_for(buffer);
            let after = registry.register_clone(buffer, site);
            &&& clone_id == 0 <==> !registry.trace || buffer.created_at.len() == 0
            &&& clone_id == 0 ==> after == registry
            &&& clone_id != 0 ==> {
                &&& !registry.clones.contains_key(clone_id)
                &&& registry.next_clone_id <= clone_id < after.next_clone_id
                &&& after.clones == registry.clones.insert(clone_id, (buffer.debug_id, site))
            }
            &&& after.live == registry.live
            &&& traces_are_numbered(after)
        }),
{
    if registry.clones.contains_key(registry.next_clone_id) {
        assert(registry.next_clone_id < registry.next_clone_id);
    }
}

/// Forgetting a reference undoes noting it, whether it is traced or not.
pub proof fn law_deregistering_undoes_registering<F>(
    registry: RegistryModel<F>,
    buffer: BufferModel<F>,
    site: Arc<Backtrace>,
)
    requires
        registry.wf(),
        traces_are_numbered(registry),
        registry.next_clone_id < u64::MAX,
    ensures
        ({
            let clone_id = registry.clone_id_for(buffer);
            let after = registry.register_clone(buffer, site).deregister_clone(clone_id);
            &&& after.clones == registry.clones
            &&& after.live == registry.live
        }),
{
    law_traced_references_get_new_numbers(registry, buffer, site);
    let clone_id = registry.clone_id_for(buffer);
    let after = registry.register_clone(buffer, site).deregister_clone(clone_id);
    assert(after.clones =~= registry.clones);
}

/// The numbers of the traced references to the buffer `id`.
pub open spec fn traced_references<F>(registry: RegistryModel<F>, id: u64) -> Set<u64> {
    registry.clones.dom().filter(|clone_id: u64| registry.clones[clone_id].0 == id)
}

/// A buffer whose references are traced has as many entries as references. One that is
/// gone, or whose references are not traced, has none.
pub proof fn law_every_traced_reference_is_shown<F>(
    registry: RegistryModel<F>,
    handles: Seq<DmabufModel<F>>,
    id: u64,
)
    requires
        accounts_for(registry, handles),
    ensures
        registry.clones.dom().finite(),
        traced_references(registry, id).len() == if registry.live.contains_key(id)
            && registry.traces(registry.live[id].buffer) {
            registry.live[id].strong as nat
        } else {
            0
        },
    decreases handles.len(),
{
    if handles.len() == 0 {
        assert(registry.clones.dom() =~= Set::empty());
        assert(traced_references(registry, id) =~= Set::empty());
        assert(references(handles, id) == if registry.live.contains_key(id) {
            registry.live[id].strong as nat
        } else {
            0
        });
    } else {
        let last = handles.len() - 1;
        let handle = handles[last];
        let after = registry.release(handle);
        law_releasing_is_accounted_for(registry, handles, last);
        law_every_traced_reference_is_shown(after, handles.remove(last), id);
        assert(registry.holds(handle.buffer));
        assert(references(handles, handle.buffer.debug_id)
            == registry.live[handle.buffer.debug_id].strong);
        let before = traced_references(registry, id);
        let fewer = traced_references(after, id);
        if handle.clone_id == 0 {
            assert(before =~= fewer);
        } else {
            assert(registry.clones.contains_key(handle.clone_id));
            assert(registry.clones.dom() =~= after.clones.dom().insert(handle.clone_id));
            if handle.buffer.debug_id == id {
                assert(before =~= fewer.insert(handle.clone_id));
                assert(!fewer.contains(handle.clone_id));
            } else {
                assert(before =~= fewer);
            }
        }
    }
}

/// How many of `sites` are about the buffer `id`.
pub open spec fn entries_for(sites: Seq<(u64, Arc<Backtrace>)>, id: u64) -> nat
    decreases sites.len(),
{
    if sites.len() == 0 {
        0
    } else {
        let before = entries_for(sites.drop_last(), id);
        if sites.last().0 == id {
            before + 1
        } else {
            before
        }
    }
}

/// Entries that are listed once each are as many as there are.
proof fn lemma_entries_are_listed<F>(registry: RegistryModel<F>, ids: Seq<u64>, id: u64)
    requires
        ids.no_duplicates(),
    ensures
        entries_for(ids.map_values(|clone_id: u64| registry.clones[clone_id]), id)
            == ids.to_set().filter(|clone_id: u64| registry.clones[clone_id].0 == id).len(),
        ids.to_set().filter(|clone_id: u64| registry.clones[clone_id].0 == id).finite(),
    decreases ids.len(),
{
    let look = |clone_id: u64| registry.clones[clone_id];
    let about = |clone_id: u64| registry.clones[clone_id].0 == id;
    if ids.len() == 0 {
        assert(ids.to_set().filter(about) =~= Set::empty());
    } else {
        let fewer = ids.drop_last();
        let last = ids.last();
        lemma_entries_are_listed(registry, fewer, id);
        assert(ids.map_values(look).drop_last() =~= fewer.map_values(look));
        assert(ids[ids.len() - 1] == last);
        assert(!fewer.contains(last)) by {
            if fewer.contains(last) {
                let i = choose|i: int| 0 <= i < fewer.len() && fewer[i] == last;
                assert(ids[i] == ids[ids.len() - 1]);
            }
        }
        assert forall|x: u64| ids.contains(x) <==> fewer.contains(x) || x == last by {
            if ids.contains(x) {
                let i = choose|i: int| 0 <= i < ids.len() && ids[i] == x;
                if i < fewer.len() {
                    assert(fewer[i] == x);
                }
            }
            if fewer.contains(x) {
                let i = choose|i: int| 0 <= i < fewer.len() && fewer[i] == x;
                assert(ids[i] == x);
            }
        }
        let some = fewer.to_set().filter(about);
        if about(last) {
            assert(ids.to_set().filter(about) =~= some.insert(last));
            assert(!some.contains(last));
        } else {
            assert(ids.to_set().filter(about) =~= some);
        }
    }
}

/// A list of the traced references names each buffer as often as it has references, if
/// they are traced, and not at all otherwise. It is empty unless tracing was asked for.
pub proof fn law_the_list_names_every_reference<F>(
    registry: RegistryModel<F>,
    handles: Seq<DmabufModel<F>>,
    sites: Seq<(u64, Arc<Backtrace>)>,
    id: u64,
)
    requires
        accounts_for(registry, handles),
        registry.listed_by(sites),
    ensures
        entries_for(sites, id) == if registry.live.contains_key(id) && registry.traces(
            registry.live[id].buffer,
        ) {
            registry.live[id].strong as nat
        } else {
            0
        },
        !registry.trace ==> sites.len() == 0,
{
    let ids = choose|ids: Seq<u64>|
        {
            &&& ids.no_duplicates()
            &&& ids.to_set() == registry.clones.dom()
            &&& sites == ids.map_values(|id: u64| registry.clones[id])
        };
    law_every_traced_reference_is_shown(registry, handles, id);
    lemma_entries_are_listed(registry, ids, id);
    assert(sites =~= ids.map_values(|clone_id: u64| registry.clones[clone_id]));
    assert(ids.to_set().filter(|clone_id: u64| registry.clones[clone_id].0 == id)
        =~= traced_references(registry, id));
    if !registry.trace && sites.len() > 0 {
        assert(ids.to_set().contains(ids[0]));
    }
}

/// The node that is set is the one that is read, through every reference to the
/// buffer; other buffers keep theirs.
pub proof fn law_nodes_are_shared<F>(
    registry: RegistryModel<F>,
    id: u64,
    node: Option<DrmNode>,
    other: u64,
)
    requires
        registry.wf(),
        registry.live.contains_key(id),
        registry.live.contains_key(other),
    ensures
        registry.with_live(id, LiveModel { node, ..registry.live[id] }).live[other].node
            == if other == id {
            node
        } else {
            registry.live[other].node
        },
{
}

/// A buffer tells where it was created exactly if it fills an output. Its
/// references are traced exactly if, besides, tracing was asked for.
pub proof fn law_output_sized_buffers_tell_their_origin<F>(
    registry: RegistryModel<F>,
    builder: BuilderModel<F>,
    after: RegistryModel<F>,
    dmabuf: DmabufModel<F>,
)
    requires
        registry.wf(),
        registry.built_into(builder, after, dmabuf),
    ensures
        dmabuf.buffer.created_at.len() > 0 <==> buffer::fills_output(builder.size),
        after.traces(dmabuf.buffer) <==> registry.trace && buffer::fills_output(builder.size),
{
    if buffer::fills_output(builder.size) {
        let text = choose|text: Seq<char>|
            {
                &&& signature::is_backtrace_text(text)
                &&& dmabuf.buffer.created_at == #[trigger] signature::signature(
                    text,
                    signature::creation_marks(),
                    signature::CREATION_FRAMES as nat,
                )
            };
        signature::law_signatures_are_not_empty(
            text,
            signature::creation_marks(),
            signature::CREATION_FRAMES as nat,
        );
    }
}

/// A reference that is made and given up again leaves the buffers and their counts
/// as they were.
pub proof fn law_release_undoes_sharing<F>(
    registry: RegistryModel<F>,
    buffer: BufferModel<F>,
    after: RegistryModel<F>,
)
    requires
        registry.wf(),
        registry.can_share(buffer),
        registry.visited_into(buffer, after),
    ensures
        after.live == registry.live,
{
    let (shared, dmabuf) = choose|shared: RegistryModel<F>, dmabuf: DmabufModel<F>|
        {
            &&& #[trigger] registry.shared_into(buffer, shared, dmabuf)
            &&& after == shared.release(dmabuf)
        };
    assert(after.live =~= registry.live);
}

/// A buffer tells where it was created exactly if it has at least as many pixels as an
/// output of 1280 by 720, whichever way round: width and height can be exchanged. Its one
/// reference is traced exactly if, besides, tracing was asked for.
pub proof fn law_origins_are_told_from_a_number_of_pixels_on<F>(
    registry: RegistryModel<F>,
    builder: BuilderModel<F>,
    after: RegistryModel<F>,
    dmabuf: DmabufModel<F>,
    turned: BuilderModel<F>,
    turned_after: RegistryModel<F>,
    turned_dmabuf: DmabufModel<F>,
)
    requires
        registry.wf(),
        registry.built_into(builder, after, dmabuf),
        registry.built_into(turned, turned_after, turned_dmabuf),
        turned.size.w == builder.size.h,
        turned.size.h == builder.size.w,
    ensures
        dmabuf.buffer.created_at.len() > 0 <==> builder.size.w * builder.size.h >= 921_600,
        dmabuf.buffer.created_at.len() > 0 <==> turned_dmabuf.buffer.created_at.len() > 0,
        registry.next_clone_id > 0 ==> (dmabuf.clone_id != 0 <==> registry.trace
            && builder.size.w * builder.size.h >= 921_600),
{
    law_output_sized_buffers_tell_their_origin(registry, builder, after, dmabuf);
    law_output_sized_buffers_tell_their_origin(registry, turned, turned_after, turned_dmabuf);
    let (w, h) = (builder.size.w as int, builder.size.h as int);
    assert(w * h == h * w) by (nonlinear_arith);
}

/// What is told of a buffer that was built is what was put into its builder. Nothing else
/// in the registry changes but the numbers for what comes next, and the trace of the one
/// reference, if it is traced: it shows where the buffer was built.
pub proof fn law_building_adds_one_buffer<F>(
    registry: RegistryModel<F>,
    builder: BuilderModel<F>,
    after: RegistryModel<F>,
    dmabuf: DmabufModel<F>,
)
    requires
        registry.wf(),
        registry.next_debug_id < u64::MAX,
        registry.built_into(builder, after, dmabuf),
    ensures
        dmabuf.buffer.planes == builder.planes,
        dmabuf.buffer.size == builder.size,
        dmabuf.buffer.format == builder.format,
        dmabuf.buffer.modifier == builder.modifier,
        dmabuf.buffer.flags == builder.flags,
        dmabuf.buffer.debug_id == registry.next_debug_id,
        after.next_debug_id == registry.next_debug_id + 1,
        after.trace == registry.trace,
        after.live.dom() == registry.live.dom().insert(registry.next_debug_id),
        forall|id: u64| #[trigger]
            registry.live.contains_key(id) ==> after.live[id] == registry.live[id],
        after.live[registry.next_debug_id].buffer == dmabuf.buffer,
        after.live[registry.next_debug_id].strong == 1,
        after.live[registry.next_debug_id].node == builder.node,
        ({
            let traced = registry.trace && dmabuf.buffer.created_at.len() > 0;
            &&& !traced ==> {
                &&& dmabuf.clone_id == 0
                &&& after.clones == registry.clones
                &&& after.next_clone_id == registry.next_clone_id
            }
            &&& traced ==> {
                &&& dmabuf.clone_id == registry.next_clone_id
                &&& after.next_clone_id == (registry.next_clone_id + 1)
                    % 0x1_0000_0000_0000_0000
                &&& after.clones.dom() == registry.clones.dom().insert(dmabuf.clone_id)
                &&& after.clones[dmabuf.clone_id].0 == dmabuf.buffer.debug_id
                &&& call_ensures(Backtrace::force_capture, (), *after.clones[dmabuf.clone_id].1)
                &&& forall|clone_id: u64| #[trigger]
                    registry.clones.contains_key(clone_id) && clone_id != dmabuf.clone_id
                        ==> after.clones[clone_id] == registry.clones[clone_id]
            }
        }),
{
    assert(after.live.dom() =~= registry.live.dom().insert(registry.next_debug_id));
    if registry.trace && dmabuf.buffer.created_at.len() > 0 {
        assert(after.clones.dom() =~= registry.clones.dom().insert(dmabuf.clone_id));
    }
}

/// One more reference adds one to the count of its buffer, and changes nothing else but
/// its own trace, if it is traced: that shows where it was made.
pub proof fn law_sharing_adds_one_reference<F>(
    registry: RegistryModel<F>,
    buffer: BufferModel<F>,
    after: RegistryModel<F>,
    dmabuf: DmabufModel<F>,
)
    requires
        registry.wf(),
        registry.live.contains_key(buffer.debug_id),
        registry.live[buffer.debug_id].buffer == buffer,
        registry.live[buffer.debug_id].strong < usize::MAX,
        registry.shared_into(buffer, after, dmabuf),
    ensures
        dmabuf.buffer == buffer,
        after.trace == registry.trace,
        after.next_debug_id == registry.next_debug_id,
        after.live.dom() == registry.live.dom(),
        forall|id: u64| #[trigger]
            registry.live.contains_key(id) ==> {
                &&& after.live[id].buffer == registry.live[id].buffer
                &&& after.live[id].node == registry.live[id].node
                &&& after.live[id].address == registry.live[id].address
                &&& after.live[id].strong == registry.live[id].strong + if id == buffer.debug_id {
                    1int
                } else {
                    0int
                }
            },
        ({
            let traced = registry.trace && buffer.created_at.len() > 0;
            &&& !traced ==> {
                &&& dmabuf.clone_id == 0
                &&& after.clones == registry.clones
                &&& after.next_clone_id == registry.next_clone_id
            }
            &&& traced ==> {
                &&& dmabuf.clone_id == registry.next_clone_id
                &&& after.next_clone_id == (registry.next_clone_id + 1)
                    % 0x1_0000_0000_0000_0000
                &&& after.clones.dom() == registry.clones.dom().insert(dmabuf.clone_id)
                &&& after.clones[dmabuf.clone_id].0 == buffer.debug_id
                &&& call_ensures(Backtrace::force_capture, (), *after.clones[dmabuf.clone_id].1)
                &&& forall|clone_id: u64| #[trigger]
                    registry.clones.contains_key(clone_id) && clone_id != dmabuf.clone_id
                        ==> after.clones[clone_id] == registry.clones[clone_id]
            }
        }),
{
    assert(after.live.dom() =~= registry.live.dom());
    if registry.trace && buffer.created_at.len() > 0 {
        assert(after.clones.dom() =~= registry.clones.dom().insert(dmabuf.clone_id));
    }
}

/// Giving up a reference takes one from the count of its buffer, and the buffer with the
/// last one. Its trace goes, if it was traced, and nothing else changes.
pub proof fn law_releasing_takes_one_reference<F>(
    registry: RegistryModel<F>,
    dmabuf: DmabufModel<F>,
)
    requires
        registry.wf(),
        registry.live.contains_key(dmabuf.buffer.debug_id),
    ensures
        ({
            let id = dmabuf.buffer.debug_id;
            let after = registry.release(dmabuf);
            &&& after.trace == registry.trace
            &&& after.next_debug_id == registry.next_debug_id
            &&& after.next_clone_id == registry.next_clone_id
            &&& after.live.contains_key(id) <==> registry.live[id].strong > 1
            &&& registry.live[id].strong > 1 ==> {
                &&& after.live[id].strong == registry.live[id].strong - 1
                &&& after.live[id].buffer == registry.live[id].buffer
                &&& after.live[id].node == registry.live[id].node
                &&& after.live[id].address == registry.live[id].address
            }
            &&& forall|other: u64|
                other != id ==> {
                    &&& #[trigger] after.live.contains_key(other) <==> registry.live.contains_key(
                        other,
                    )
                    &&& registry.live.contains_key(other) ==> after.live[other]
                        == registry.live[other]
                }
            &&& forall|clone_id: u64|
                {
                    &&& #[trigger] after.clones.contains_key(clone_id)
                        <==> registry.clones.contains_key(clone_id) && (clone_id
                        != dmabuf.clone_id || clone_id == 0)
                    &&& after.clones.contains_key(clone_id) ==> after.clones[clone_id]
                        == registry.clones[clone_id]
                }
        }),
{
}

/// `listed` has one row for each traced reference and none besides: the number of its
/// buffer, and the text that the backtrace of the place where it was made is rendered to.
pub open spec fn shows_each_reference(
    clones: Map<u64, (u64, Arc<Backtrace>)>,
    references: Seq<u64>,
    listed: Seq<(u64, String)>,
) -> bool {
    &&& references.len() == listed.len()
    &&& forall|i: int, j: int|
        0 <= i < j < references.len() ==> #[trigger] references[i] != #[trigger] references[j]
    &&& forall|clone_id: u64| #[trigger]
        clones.contains_key(clone_id) <==> references.contains(clone_id)
    &&& forall|i: int|
        0 <= i < listed.len() ==> {
            &&& (#[trigger] listed[i]).0 == clones[references[i]].0
            &&& call_ensures(
                backtrace::symbolise,
                (&*clones[references[i]].1,),
                listed[i].1,
            )
        }
}

/// The list of the traced references shows each of them once, with the number of its own
/// buffer and with the text of its own backtrace.
pub proof fn law_the_list_shows_each_reference_where_it_was_made<F>(
    registry: RegistryModel<F>,
    sites: Seq<(u64, Arc<Backtrace>)>,
    listed: Seq<(u64, String)>,
)
    requires
        registry.listed_by(sites),
        registry::renders(listed, sites),
    ensures
        exists|references: Seq<u64>| #[trigger]
            shows_each_reference(registry.clones, references, listed),
{
    let ids = choose|ids: Seq<u64>|
        {
            &&& ids.no_duplicates()
            &&& ids.to_set() == registry.clones.dom()
            &&& sites == ids.map_values(|id: u64| registry.clones[id])
        };
    assert forall|clone_id: u64| #[trigger] registry.clones.contains_key(
        clone_id,
    ) <==> ids.contains(clone_id) by {
        assert(ids.to_set().contains(clone_id) <==> ids.contains(clone_id));
    }
    assert forall|i: int| 0 <= i < listed.len() implies {
        &&& (#[trigger] listed[i]).0 == registry.clones[ids[i]].0
        &&& call_ensures(
            backtrace::symbolise,
            (&*registry.clones[ids[i]].1,),
            listed[i].1,
        )
    } by {
        assert(sites[i] == registry.clones[ids[i]]);
    }
    assert(shows_each_reference(registry.clones, ids, listed));
}

/// Every traced reference is in the list, with the text of the place where it was made.
pub proof fn law_a_traced_reference_is_in_the_list<F>(
    registry: RegistryModel<F>,
    sites: Seq<(u64, Arc<Backtrace>)>,
    listed: Seq<(u64, String)>,
    clone_id: u64,
)
    requires
        registry.listed_by(sites),
        registry::renders(listed, sites),
        registry.clones.contains_key(clone_id),
    ensures
        exists|i: int|
            {
                &&& 0 <= i < listed.len()
                &&& (#[trigger] listed[i]).0 == registry.clones[clone_id].0
                &&& call_ensures(
                    backtrace::symbolise,
                    (&*registry.clones[clone_id].1,),
                    listed[i].1,
                )
            },
{
    law_the_list_shows_each_reference_where_it_was_made(registry, sites, listed);
    let references = choose|references: Seq<u64>| #[trigger]
        shows_each_reference(registry.clones, references, listed);
    assert(references.contains(clone_id));
    let i = choose|i: int| 0 <= i < references.len() && references[i] == clone_id;
    assert(listed[i].0 == registry.clones[clone_id].0);
}

/// How many of `sites` are the row `row`.
pub open spec fn rows_like(
    sites: Seq<(u64, Arc<Backtrace>)>,
    row: (u64, Arc<Backtrace>),
) -> nat {
    sites.to_multiset().count(row)
}

/// As a multiset, the rows are the entries of the traced references: each pair of a buffer
/// and a place occurs as often as there are references with it.
pub proof fn law_the_rows_are_the_traced_references<F>(
    registry: RegistryModel<F>,
    sites: Seq<(u64, Arc<Backtrace>)>,
    row: (u64, Arc<Backtrace>),
)
    requires
        registry.listed_by(sites),
    ensures
        rows_like(sites, row) == registry.clones.dom().filter(
            |clone_id: u64| registry.clones[clone_id] == row,
        ).len(),
{
    let ids = choose|ids: Seq<u64>|
        {
            &&& ids.no_duplicates()
            &&& ids.to_set() == registry.clones.dom()
            &&& sites == ids.map_values(|id: u64| registry.clones[id])
        };
    let look = |id: u64| registry.clones[id];
    let about = |clone_id: u64| registry.clones[clone_id] == row;
    listings::lemma_count_of_images(ids, look, row, about);
    assert(sites =~= ids.map_values(look));
    assert(registry.clones.dom().filter(about) == ids.to_set().filter(about));
}

/// A builder with one more plane has the planes that it had, and behind them the new one,
/// which knows how many come before it. Nothing else changes.
pub proof fn law_planes_are_added_at_the_end<F>(
    builder: BuilderModel<F>,
    fd: F,
    offset: u32,
    stride: u32,
)
    requires
        builder.wf(),
        builder.planes.len() < 4,
    ensures
        ({
            let after = builder.with_plane(fd, offset, stride);
            let n = builder.planes.len() as int;
            &&& after.planes.len() == n + 1
            &&& forall|i: int| 0 <= i < n ==> #[trigger] after.planes[i] == builder.planes[i]
            &&& after.planes[n].fd == fd
            &&& after.planes[n].plane_idx == n
            &&& after.planes[n].offset == offset
            &&& after.planes[n].stride == stride
            &&& after.size == builder.size
            &&& after.format == builder.format
            &&& after.modifier == builder.modifier
            &&& after.flags == builder.flags
            &&& after.node == builder.node
            &&& after.wf()
        }),
{
}

/// A buffer in the registry has one plane at least and four at most, numbered from zero.
pub proof fn law_buffers_have_one_to_four_planes<F>(registry: RegistryModel<F>, id: u64)
    requires
        registry.wf(),
        registry.live.contains_key(id),
    ensures
        1 <= registry.live[id].buffer.planes.len() <= 4,
        forall|i: int|
            0 <= i < registry.live[id].buffer.planes.len() ==> (
            #[trigger] registry.live[id].buffer.planes[i]).plane_idx == i,
        registry.live[id].buffer.debug_id == id,
        registry.live[id].strong >= 1,
        1 <= id < registry.next_debug_id,
{
}

/// Waiting for nothing leaves the references and their traces as they were.
pub proof fn law_a_visit_leaves_no_trace<F>(
    registry: RegistryModel<F>,
    buffer: BufferModel<F>,
    after: RegistryModel<F>,
)
    requires
        registry.wf(),
        registry.can_share(buffer),
        traces_are_numbered(registry),
        registry.next_clone_id < u64::MAX,
        registry.visited_into(buffer, after),
    ensures
        after.live == registry.live,
        after.clones == registry.clones,
        after.next_debug_id == registry.next_debug_id,
{
    law_release_undoes_sharing(registry, buffer, after);
    let (shared, dmabuf) = choose|shared: RegistryModel<F>, dmabuf: DmabufModel<F>|
        {
            &&& #[trigger] registry.shared_into(buffer, shared, dmabuf)
            &&& after == shared.release(dmabuf)
        };
    if registry.clones.contains_key(registry.next_clone_id) {
        assert(registry.next_clone_id < registry.next_clone_id);
    }
    assert(after.clones =~= registry.clones);
}

/// What is put in place of what is known of a buffer is all that changes.
pub proof fn law_other_buffers_stay_as_they_are<F>(
    registry: RegistryModel<F>,
    id: u64,
    live: LiveModel<F>,
    other: u64,
)
    requires
        other != id,
    ensures
        ({
            let after = registry.with_live(id, live);
            &&& after.live.contains_key(id)
            &&& after.live[id] == live
            &&& after.live.contains_key(other) <==> registry.live.contains_key(other)
            &&& after.live[other] == registry.live[other]
            &&& after.clones == registry.clones
            &&& after.trace == registry.trace
            &&& after.next_debug_id == registry.next_debug_id
            &&& after.next_clone_id == registry.next_clone_id
        }),
{
}

/// A registry starts without buffers and traces, and numbers from one.
pub proof fn law_registries_start_empty<F>(trace: bool, id: u64)
    ensures
        RegistryModel::<F>::start(trace).trace == trace,
        RegistryModel::<F>::start(trace).next_debug_id == 1,
        RegistryModel::<F>::start(trace).next_clone_id == 1,
        !RegistryModel::<F>::start(trace).live.contains_key(id),
        !RegistryModel::<F>::start(trace).clones.contains_key(id),
{
}

/// A buffer that is built at a given place is the one that was described, and its one
/// reference, if it is traced, shows that place.
pub proof fn law_building_at_a_place<F>(
    registry: RegistryModel<F>,
    builder: BuilderModel<F>,
    created_at: Seq<char>,
    site: Arc<Backtrace>,
    after: RegistryModel<F>,
)
    requires
        registry.wf(),
        registry.next_debug_id < u64::MAX,
        registry.built_at(builder, created_at, site, after),
    ensures
        ({
            let id = registry.next_debug_id;
            let buffer = after.live[id].buffer;
            &&& after.next_debug_id == id + 1
            &&& after.live.dom() == registry.live.dom().insert(id)
            &&& after.live[id].strong == 1
            &&& after.live[id].node == builder.node
            &&& buffer.debug_id == id
            &&& buffer.created_at == created_at
            &&& buffer.planes == builder.planes
            &&& buffer.size == builder.size
            &&& buffer.format == builder.format
            &&& buffer.modifier == builder.modifier
            &&& buffer.flags == builder.flags
            &&& forall|other: u64| #[trigger]
                registry.live.contains_key(other) ==> after.live[other] == registry.live[other]
            &&& registry.trace && created_at.len() > 0 ==> after.clones == registry.clones.insert(
                registry.next_clone_id,
                (id, site),
            )
            &&& !(registry.trace && created_at.len() > 0) ==> after.clones == registry.clones
        }),
{
    assert(after.live.dom() =~= registry.live.dom().insert(registry.next_debug_id));
}

/// A reference is numbered by the next number if it is traced, and by zero otherwise; the one
/// after the largest number is zero.
pub proof fn law_references_are_numbered_in_order<F>(
    registry: RegistryModel<F>,
    buffer: BufferModel<F>,
    site: Arc<Backtrace>,
    clone_id: u64,
)
    ensures
        registry.trace && buffer.created_at.len() > 0 ==> {
            let after = registry.register_clone(buffer, site);
            &&& registry.clone_id_for(buffer) == registry.next_clone_id
            &&& after.next_clone_id == (registry.next_clone_id + 1) % 0x1_0000_0000_0000_0000
            &&& after.clones == registry.clones.insert(
                registry.next_clone_id,
                (buffer.debug_id, site),
            )
            &&& after.live == registry.live
            &&& after.trace == registry.trace
            &&& after.next_debug_id == registry.next_debug_id
        },
        !(registry.trace && buffer.created_at.len() > 0) ==> {
            &&& registry.clone_id_for(buffer) == 0
            &&& registry.register_clone(buffer, site) == registry
        },
        registry.deregister_clone(0) == registry,
        clone_id != 0 ==> {
            let after = registry.deregister_clone(clone_id);
            &&& after.clones == registry.clones.remove(clone_id)
            &&& after.live == registry.live
            &&& after.trace == registry.trace
            &&& after.next_debug_id == registry.next_debug_id
            &&& after.next_clone_id == registry.next_clone_id
        },
{
}

} // verus!
