//! Which buffers are referenced, how often, and by references made where.

use crate::allocator::dmabuf::buffer;
use crate::allocator::dmabuf::buffer::{BufferModel, BuilderModel, Dmabuf, DmabufBuilder};
use crate::allocator::dmabuf::buffer::{DmabufInternal, DmabufModel};
use crate::allocator::format::DrmNode;
use crate::backtrace;
use crate::signature;
use std::backtrace::Backtrace;
use std::collections::HashMap;
use std::sync::Arc;
use vstd::prelude::*;

verus! {

/// A buffer that is referenced.
pub struct LiveDmabuf<F> {
    internal: Arc<DmabufInternal<F>>,
    strong: usize,
    node: Option<DrmNode>,
    address: usize,
}

/// What a [`LiveDmabuf`] stands for.
#[verifier::ext_equal]
pub struct LiveModel<F> {
    /// The buffer.
    pub buffer: BufferModel<F>,
    /// How many strong references it has.
    pub strong: usize,
    /// The node it can presumably be imported with.
    pub node: Option<DrmNode>,
    /// The address of what all references to it share.
    pub address: usize,
}

impl<F> View for LiveDmabuf<F> {
    type V = LiveModel<F>;

    closed spec fn view(&self) -> LiveModel<F> {
        LiveModel {
            buffer: self.internal@,
            strong: self.strong,
            node: self.node,
            address: self.address,
        }
    }
}

/// The buffers that are referenced, and the references that are traced.
pub struct DmabufRegistry<F> {
    trace: bool,
    next_debug_id: u64,
    next_clone_id: u64,
    live: HashMap<u64, LiveDmabuf<F>>,
    clones: HashMap<u64, (u64, Arc<Backtrace>)>,
}

/// What a [`DmabufRegistry`] stands for.
#[verifier::ext_equal]
pub struct RegistryModel<F> {
    /// Whether references are traced.
    pub trace: bool,
    /// The number for the next buffer.
    pub next_debug_id: u64,
    /// The number for the next traced reference.
    pub next_clone_id: u64,
    /// The referenced buffers, by their numbers.
    pub live: Map<u64, LiveModel<F>>,
    /// The traced references by their numbers, each with the number of its buffer
    /// and the place where it was made.
    pub clones: Map<u64, (u64, Arc<Backtrace>)>,
}

impl<F> View for DmabufRegistry<F> {
    type V = RegistryModel<F>;

    closed spec fn view(&self) -> RegistryModel<F> {
        RegistryModel {
            trace: self.trace,
            next_debug_id: self.next_debug_id,
            next_clone_id: self.next_clone_id,
            live: self.live@.map_values(|live: LiveDmabuf<F>| live@),
            clones: self.clones@,
        }
    }
}

/// The number after `n`. The one after the largest is zero.
pub open spec fn wrapping_successor(n: u64) -> u64 {
    if n == u64::MAX {
        0
    } else {
        (n + 1) as u64
    }
}

impl<F> RegistryModel<F> {
    /// A registry before any buffer was built.
    pub open spec fn start(trace: bool) -> RegistryModel<F> {
        RegistryModel {
            trace,
            next_debug_id: 1,
            next_clone_id: 1,
            live: Map::empty(),
            clones: Map::empty(),
        }
    }

    /// Every buffer stands under its own number, which was handed out before, and
    /// has an address and at least one reference. No reference is traced unless asked
    /// for.
    pub open spec fn wf(self) -> bool {
        &&& self.next_debug_id >= 1
        &&& !self.trace ==> self.clones.dom().is_empty()
        &&& forall|id: u64| #[trigger]
            self.live.contains_key(id) ==> {
                &&& self.live[id].buffer.wf()
                &&& self.live[id].buffer.debug_id == id
                &&& self.live[id].strong >= 1
                &&& self.live[id].address != 0
                &&& buffer::has_address(self.live[id].buffer, self.live[id].address)
                &&& 1 <= id < self.next_debug_id
            }
    }

    /// The buffer is referenced.
    pub open spec fn holds(self, buffer: BufferModel<F>) -> bool {
        &&& self.live.contains_key(buffer.debug_id)
        &&& self.live[buffer.debug_id].buffer == buffer
    }

    /// The buffer is referenced, and one more reference can be counted.
    pub open spec fn can_share(self, buffer: BufferModel<F>) -> bool {
        &&& self.holds(buffer)
        &&& self.live[buffer.debug_id].strong < usize::MAX
    }

    /// References to the buffer are traced.
    pub open spec fn traces(self, buffer: BufferModel<F>) -> bool {
        self.trace && buffer.created_at.len() > 0
    }

    /// The number for a new reference to the buffer.
    pub open spec fn clone_id_for(self, buffer: BufferModel<F>) -> u64 {
        if self.traces(buffer) {
            self.next_clone_id
        } else {
            0
        }
    }

    /// The registry once a new reference to the buffer, made at `site`, has its
    /// number.
    pub open spec fn register_clone(
        self,
        buffer: BufferModel<F>,
        site: Arc<Backtrace>,
    ) -> RegistryModel<F> {
        if self.traces(buffer) {
            RegistryModel {
                next_clone_id: wrapping_successor(self.next_clone_id),
                clones: self.clones.insert(self.next_clone_id, (buffer.debug_id, site)),
                ..self
            }
        } else {
            self
        }
    }

    /// The registry without the traced reference `clone_id`.
    pub open spec fn deregister_clone(self, clone_id: u64) -> RegistryModel<F> {
        if clone_id == 0 {
            self
        } else {
            RegistryModel { clones: self.clones.remove(clone_id), ..self }
        }
    }

    /// The registry with `live` in place of what it knew of that buffer.
    pub open spec fn with_live(self, id: u64, live: LiveModel<F>) -> RegistryModel<F> {
        RegistryModel { live: self.live.insert(id, live), ..self }
    }

    /// The registry with one more reference to the buffer, not yet numbered.
    pub open spec fn count_reference(self, buffer: BufferModel<F>) -> RegistryModel<F> {
        let live = self.live[buffer.debug_id];
        self.with_live(
            buffer.debug_id,
            LiveModel { strong: (live.strong + 1) as usize, ..live },
        )
    }

    /// The registry with one more reference to the buffer, made at `site`.
    pub open spec fn share(self, buffer: BufferModel<F>, site: Arc<Backtrace>) -> RegistryModel<F> {
        self.count_reference(buffer).register_clone(buffer, site)
    }

    /// The registry with one reference less. With the last one the buffer goes.
    pub open spec fn release(self, dmabuf: DmabufModel<F>) -> RegistryModel<F> {
        let id = dmabuf.buffer.debug_id;
        let live = self.live[id];
        let counted = if live.strong == 1 {
            RegistryModel { live: self.live.remove(id), ..self }
        } else {
            self.with_live(id, LiveModel { strong: (live.strong - 1) as usize, ..live })
        };
        counted.deregister_clone(dmabuf.clone_id)
    }

    /// The registry once the buffer that `builder` describes has been built, at this
    /// address, with one reference to it that is not yet numbered.
    pub open spec fn enter_buffer(
        self,
        builder: BuilderModel<F>,
        created_at: Seq<char>,
        address: usize,
    ) -> RegistryModel<F> {
        let id = self.next_debug_id;
        RegistryModel {
            next_debug_id: (id + 1) as u64,
            live: self.live.insert(
                id,
                LiveModel {
                    buffer: builder.describes(id, created_at),
                    strong: 1,
                    node: builder.node,
                    address,
                },
            ),
            ..self
        }
    }

    /// The registry once the buffer that `builder` describes has been built at
    /// `site`, with this address in memory.
    pub open spec fn build(
        self,
        builder: BuilderModel<F>,
        created_at: Seq<char>,
        address: usize,
        site: Arc<Backtrace>,
    ) -> RegistryModel<F> {
        self.enter_buffer(builder, created_at, address).register_clone(
            builder.describes(self.next_debug_id, created_at),
            site,
        )
    }

    /// `after` is this registry with one more reference to the buffer. Where it was made
    /// is captured if it is traced.
    pub open spec fn shared_into(
        self,
        buffer: BufferModel<F>,
        after: RegistryModel<F>,
        dmabuf: DmabufModel<F>,
    ) -> bool {
        &&& exists|site: Arc<Backtrace>|
            {
                &&& self.traces(buffer) ==> backtrace::is_capture(*site)
                &&& after == #[trigger] self.share(buffer, site)
            }
        &&& dmabuf == DmabufModel { buffer, clone_id: self.clone_id_for(buffer) }
    }

    /// `after` is this registry once a further reference to the buffer was made
    /// somewhere and given up again.
    pub open spec fn visited_into(self, buffer: BufferModel<F>, after: RegistryModel<F>) -> bool {
        exists|shared: RegistryModel<F>, dmabuf: DmabufModel<F>|
            {
                &&& #[trigger] self.shared_into(buffer, shared, dmabuf)
                &&& after == shared.release(dmabuf)
            }
    }

    /// `after` is this registry once the buffer that `builder` describes has been
    /// built, and `dmabuf` is the reference to it. A buffer that fills an output
    /// tells where it was created.
    pub open spec fn built_into(
        self,
        builder: BuilderModel<F>,
        after: RegistryModel<F>,
        dmabuf: DmabufModel<F>,
    ) -> bool {
        let created_at = dmabuf.buffer.created_at;
        let buffer = builder.describes(self.next_debug_id, created_at);
        &&& buffer::fills_output(builder.size) ==> signature::is_creation_signature(created_at)
        &&& !buffer::fills_output(builder.size) ==> created_at.len() == 0
        &&& exists|address: usize, site: Arc<Backtrace>|
            {
                &&& address != 0
                &&& buffer::has_address(buffer, address)
                &&& self.traces(buffer) ==> backtrace::is_capture(*site)
                &&& after == #[trigger] self.build(builder, created_at, address, site)
            }
        &&& dmabuf == DmabufModel { buffer, clone_id: self.clone_id_for(buffer) }
    }

    /// `after` is this registry once the buffer that `builder` describes has been
    /// built at `site`, wherever in memory.
    pub open spec fn built_at(
        self,
        builder: BuilderModel<F>,
        created_at: Seq<char>,
        site: Arc<Backtrace>,
        after: RegistryModel<F>,
    ) -> bool {
        exists|address: usize|
            {
                &&& address != 0
                &&& buffer::has_address(
                    builder.describes(self.next_debug_id, created_at),
                    address,
                )
                &&& after == #[trigger] self.build(builder, created_at, address, site)
            }
    }

    /// `sites` lists the traced references in some order, each as the number of
    /// its buffer and the place where it was made.
    pub open spec fn listed_by(self, sites: Seq<(u64, Arc<Backtrace>)>) -> bool {
        exists|ids: Seq<u64>|
            {
                &&& ids.no_duplicates()
                &&& ids.to_set() == self.clones.dom()
                &&& sites == ids.map_values(|id: u64| self.clones[id])
            }
    }
}

impl<F> DmabufRegistry<F> {
    /// A registry before any buffer was built. References are traced if `trace`.
    pub fn new(trace: bool) -> (registry: DmabufRegistry<F>)
        ensures
            registry@.wf(),
            registry@ == RegistryModel::<F>::start(trace),
    {
        let registry = DmabufRegistry {
            trace,
            next_debug_id: 1,
            next_clone_id: 1,
            live: HashMap::new(),
            clones: HashMap::new(),
        };
        proof {
            assert(registry@.live =~= Map::empty());
        }
        registry
    }

    /// Whether there is a number for one more buffer.
    pub fn can_build(&self) -> (result: bool)
        ensures
            result == (self@.next_debug_id < u64::MAX),
    {
        self.next_debug_id < u64::MAX
    }

    /// Whether a reference to `internal` is to be traced.
    fn is_traced(&self, internal: &DmabufInternal<F>) -> (result: bool)
        ensures
            result == self@.traces(internal@),
    {
        self.trace && !internal.created_at.as_str().is_empty()
    }

    /// Give a new reference to `internal`, made at `site`, a number if it is to be
    /// traced, and zero otherwise.
    pub fn register_clone_at(
        &mut self,
        internal: &DmabufInternal<F>,
        site: Arc<Backtrace>,
    ) -> (clone_id: u64)
        requires
            old(self)@.wf(),
        ensures
            final(self)@.wf(),
            final(self)@ == old(self)@.register_clone(internal@, site),
            clone_id == old(self)@.clone_id_for(internal@),
    {
        if !self.is_traced(internal) {
            return 0;
        }
        let clone_id = self.next_clone_id;
        self.next_clone_id = clone_id.wrapping_add(1);
        self.clones.insert(clone_id, (internal.debug_id, site));
        clone_id
    }

    /// Give a new reference to `internal` a number if it is to be traced, and note
    /// where it was made. Gives it zero otherwise, so that its release is cheap.
    pub fn dmabuf_register_clone(&mut self, internal: &DmabufInternal<F>) -> (clone_id: u64)
        requires
            old(self)@.wf(),
        ensures
            final(self)@.wf(),
            exists|site: Arc<Backtrace>|
                {
                    &&& old(self)@.traces(internal@) ==> backtrace::is_capture(*site)
                    &&& final(self)@ == #[trigger] old(self)@.register_clone(internal@, site)
                },
            clone_id == old(self)@.clone_id_for(internal@),
    {
        if !self.is_traced(internal) {
            proof {
                let site = arbitrary::<Arc<Backtrace>>();
                assert(self@ == self@.register_clone(internal@, site));
            }
            return 0;
        }
        let site = Arc::new(Backtrace::force_capture());
        assert(backtrace::is_capture(*site));
        self.register_clone_at(internal, site)
    }

    /// Forget the traced reference `clone_id`. Zero stands for an untraced one.
    pub fn dmabuf_deregister_clone(&mut self, clone_id: u64)
        requires
            old(self)@.wf(),
        ensures
            final(self)@.wf(),
            final(self)@ == old(self)@.deregister_clone(clone_id),
    {
        if clone_id != 0 {
            self.clones.remove(&clone_id);
        }
    }

    /// Put `live` in place of what is known of the buffer `id`.
    fn put_live(&mut self, id: u64, live: LiveDmabuf<F>)
        ensures
            final(self)@ == old(self)@.with_live(id, live@),
    {
        let ghost before = self.live@;
        self.live.insert(id, live);
        proof {
            let view = |live: LiveDmabuf<F>| live@;
            assert(self.live@.map_values(view) =~= before.map_values(view).insert(id, live@));
        }
    }

    /// Take out what is known of the buffer `id`.
    fn take_live(&mut self, id: u64) -> (live: Option<LiveDmabuf<F>>)
        ensures
            live is Some <==> old(self)@.live.contains_key(id),
            live matches Some(live) ==> live@ == old(self)@.live[id],
            final(self)@ == (RegistryModel::<F> { live: old(self)@.live.remove(id), ..old(self)@ }),
    {
        let ghost before = self.live@;
        let live = self.live.remove(&id);
        proof {
            let view = |live: LiveDmabuf<F>| live@;
            assert(self.live@.map_values(view) =~= before.map_values(view).remove(id));
        }
        live
    }

    /// Look up the buffer `id`.
    fn get_live(&self, id: u64) -> (live: Option<&LiveDmabuf<F>>)
        ensures
            live is Some <==> self@.live.contains_key(id),
            live matches Some(live) ==> live@ == self@.live[id],
    {
        self.live.get(&id)
    }

    /// Count one more reference to the buffer `internal`.
    fn count_reference(&mut self, internal: &DmabufInternal<F>)
        requires
            old(self)@.wf(),
            old(self)@.can_share(internal@),
        ensures
            final(self)@.wf(),
            final(self)@ == old(self)@.count_reference(internal@),
    {
        let ghost before = self@;
        let id = internal.debug_id;
        if let Some(mut live) = self.take_live(id) {
            live.strong = live.strong + 1;
            self.put_live(id, live);
        }
        proof {
            assert(self@.live =~= before.count_reference(internal@).live);
        }
    }

    /// The traced references in some order: the number of the buffer of each, and
    /// the place where it was made.
    pub fn clone_sites(&self) -> (sites: Vec<(u64, Arc<Backtrace>)>)
        requires
            self@.wf(),
        ensures
            self@.listed_by(sites@),
    {
        let mut sites: Vec<(u64, Arc<Backtrace>)> = Vec::new();
        let ghost mut ids: Seq<u64> = Seq::empty();
        for (id, site) in it: self.clones.iter()
            invariant
                ids.len() == it.index(),
                it.seq().no_duplicates(),
                forall|i: int|
                    0 <= i < it.seq().len() ==> {
                        &&& self.clones@.contains_key(*(#[trigger] it.seq()[i]).0)
                        &&& self.clones@[*it.seq()[i].0] == *it.seq()[i].1
                    },
                forall|id: u64| #[trigger]
                    self.clones@.contains_key(id) ==> it.seq().contains(
                        (&id, &self.clones@[id]),
                    ),
                sites@ == ids.map_values(|id: u64| self@.clones[id]),
                forall|i: int|
                    #![trigger ids[i]]
                    #![trigger it.seq()[i]]
                    0 <= i < ids.len() ==> ids[i] == *it.seq()[i].0,
        {
            sites.push((site.0, site.1.clone()));
            proof {
                ids = ids.push(*id);
            }
        }
        proof {
            assert forall|i: int, j: int| 0 <= i < j < ids.len() implies ids[i] != ids[j] by {
                if ids[i] == ids[j] {
                }
            }
            assert forall|id: u64| #[trigger] self.clones@.contains_key(id) implies ids.contains(
                id,
            ) by {}
            assert(ids.to_set() =~= self.clones@.dom());
        }
        sites
    }
}

/// `listed` names the same buffers as `sites`, in the same order, each with the text of
/// its own backtrace.
pub open spec fn renders(
    listed: Seq<(u64, String)>,
    sites: Seq<(u64, Arc<Backtrace>)>,
) -> bool {
    &&& listed.len() == sites.len()
    &&& forall|i: int|
        0 <= i < sites.len() ==> {
            &&& (#[trigger] listed[i]).0 == sites[i].0
            &&& backtrace::is_rendering(*sites[i].1, listed[i].1)
        }
}

/// Each of `sites` with the text of its backtrace. It needs no registry, so that one
/// behind a lock is free while the text is rendered, which takes long.
///
/// What the text holds is not said: it depends on the debug information that is found
/// when it is rendered.
pub fn render_clone_sites(sites: &Vec<(u64, Arc<Backtrace>)>) -> (listed: Vec<(u64, String)>)
    ensures
        renders(listed@, sites@),
        listed@.len() == sites@.len(),
        forall|i: int|
            0 <= i < listed@.len() ==> {
                &&& (#[trigger] listed@[i]).0 == sites@[i].0
                &&& call_ensures(backtrace::symbolise, (&*sites@[i].1,), listed@[i].1)
            },
{
    let mut listed: Vec<(u64, String)> = Vec::new();
    for i in 0..sites.len()
        invariant
            listed@.len() == i,
            forall|j: int|
                0 <= j < i ==> {
                    &&& (#[trigger] listed@[j]).0 == sites@[j].0
                    &&& backtrace::is_rendering(*sites@[j].1, listed@[j].1)
                },
    {
        listed.push((sites[i].0, backtrace::symbolise(&sites[i].1)));
    }
    listed
}

/// The traced references in some order: the number of the buffer of each, and
/// the text of the backtrace that shows where it was made.
///
/// `registry` is `None` where it cannot be read. What the text holds is not said: it
/// depends on the debug information that is found when it is rendered.
pub fn debug_dmabuf_clone_sites<F>(registry: Option<&DmabufRegistry<F>>) -> (listed: Vec<
    (u64, String),
>)
    requires
        registry matches Some(registry) ==> registry@.wf(),
    ensures
        match registry {
            None => listed@.len() == 0,
            Some(registry) => exists|sites: Seq<(u64, Arc<Backtrace>)>|
                #[trigger] registry@.listed_by(sites) && renders(listed@, sites),
        },
{
    match registry {
        None => Vec::new(),
        Some(registry) => {
            let sites = registry.clone_sites();
            render_clone_sites(&sites)
        },
    }
}

impl<F> DmabufBuilder<F> {
    /// Build the buffer and enter it into `registry`. `None` if it has no planes.
    ///
    /// A buffer that fills an output is told where it was created.
    pub fn build(self, registry: &mut DmabufRegistry<F>) -> (built: Option<Dmabuf<F>>)
        requires
            self@.wf(),
            old(registry)@.wf(),
            old(registry)@.next_debug_id < u64::MAX,
        ensures
            final(registry)@.wf(),
            built is Some <==> self@.planes.len() > 0,
            built is None ==> final(registry)@ == old(registry)@,
            built matches Some(dmabuf) ==> old(registry)@.built_into(
                self@,
                final(registry)@,
                dmabuf@,
            ),
            built matches Some(dmabuf) ==> (dmabuf@.buffer.created_at.len() > 0 <==> self@.size.w
                * self@.size.h >= 921_600),
    {
        if self.is_empty() {
            return None;
        }
        let created_at = if self.fills_output() {
            signature::dmabuf_creation_signature()
        } else {
            String::new()
        };
        let ghost before = registry@;
        let ghost told = created_at@;
        proof {
            if self@.size.w * self@.size.h >= 921_600 {
                signature::lemma_creation_signatures_are_not_empty(told);
            }
        }
        let internal = self.enter(registry, created_at);
        let ghost entered = registry@;
        let ghost address = entered.live[before.next_debug_id].address;
        let clone_id = registry.dmabuf_register_clone(&internal);
        proof {
            let site = choose|site: Arc<Backtrace>|
                {
                    &&& entered.traces(internal@) ==> backtrace::is_capture(*site)
                    &&& registry@ == #[trigger] entered.register_clone(internal@, site)
                };
            assert(registry@ == before.build(self@, told, address, site));
            assert(entered.traces(internal@) == before.traces(internal@));
            assert(buffer::has_address(internal@, address));
        }
        let dmabuf = Dmabuf::from_parts(internal, clone_id);
        assert(before.built_into(self@, registry@, dmabuf@));
        Some(dmabuf)
    }

    /// Build the buffer as [`build`](Self::build) does, where `created_at` tells
    /// where it is created and `site` is the backtrace of that place.
    pub fn build_at(
        self,
        registry: &mut DmabufRegistry<F>,
        created_at: String,
        site: Arc<Backtrace>,
    ) -> (built: Option<Dmabuf<F>>)
        requires
            self@.wf(),
            old(registry)@.wf(),
            old(registry)@.next_debug_id < u64::MAX,
        ensures
            final(registry)@.wf(),
            built is Some <==> self@.planes.len() > 0,
            built is None ==> final(registry)@ == old(registry)@,
            built matches Some(dmabuf) ==> {
                let told = if buffer::fills_output(self@.size) {
                    created_at@
                } else {
                    Seq::empty()
                };
                let buffer = self@.describes(old(registry)@.next_debug_id, told);
                &&& old(registry)@.built_at(self@, told, site, final(registry)@)
                &&& dmabuf@ == DmabufModel {
                    buffer,
                    clone_id: old(registry)@.clone_id_for(buffer),
                }
                &&& self@.size.w * self@.size.h >= 921_600 ==> dmabuf@.buffer.created_at
                    == created_at@
                &&& self@.size.w * self@.size.h < 921_600 ==> dmabuf@.buffer.created_at.len() == 0
            },
    {
        if self.is_empty() {
            return None;
        }
        let told = if self.fills_output() {
            created_at
        } else {
            String::new()
        };
        let ghost before = registry@;
        let ghost told_at = told@;
        let internal = self.enter(registry, told);
        let ghost address = registry@.live[before.next_debug_id].address;
        let clone_id = registry.register_clone_at(&internal, site);
        proof {
            assert(registry@ == before.build(self@, told_at, address, site));
            assert(before.built_at(self@, told_at, site, registry@));
        }
        Some(Dmabuf::from_parts(internal, clone_id))
    }

    /// Enter the buffer into `registry`, with one reference.
    fn enter(self, registry: &mut DmabufRegistry<F>, created_at: String) -> (internal: Arc<
        DmabufInternal<F>,
    >)
        requires
            self@.wf(),
            self@.planes.len() > 0,
            old(registry)@.wf(),
            old(registry)@.next_debug_id < u64::MAX,
        ensures
            final(registry)@.wf(),
            ({
                let address = final(registry)@.live[old(registry)@.next_debug_id].address;
                &&& address != 0
                &&& buffer::has_address(internal@, address)
                &&& final(registry)@ == old(registry)@.enter_buffer(self@, created_at@, address)
            }),
            internal@ == self@.describes(old(registry)@.next_debug_id, created_at@),
    {
        let id = registry.next_debug_id;
        registry.next_debug_id = id + 1;
        let (internal, node) = self.into_internal(id, created_at);
        let internal = Arc::new(internal);
        let address = buffer::shared_address(&internal);
        registry.put_live(id, LiveDmabuf { internal: internal.clone(), strong: 1, node, address });
        internal
    }
}

impl<F> Dmabuf<F> {
    /// One more reference to the same buffer.
    pub fn duplicate(&self, registry: &mut DmabufRegistry<F>) -> (dmabuf: Dmabuf<F>)
        requires
            old(registry)@.wf(),
            old(registry)@.can_share(self@.buffer),
        ensures
            final(registry)@.wf(),
            old(registry)@.shared_into(self@.buffer, final(registry)@, dmabuf@),
    {
        let ghost before = registry@;
        let internal = self.shared();
        registry.count_reference(&internal);
        let ghost counted = registry@;
        let clone_id = registry.dmabuf_register_clone(&internal);
        proof {
            let site = choose|site: Arc<Backtrace>|
                {
                    &&& counted.traces(internal@) ==> backtrace::is_capture(*site)
                    &&& registry@ == #[trigger] counted.register_clone(internal@, site)
                };
            assert(registry@ == before.share(internal@, site));
        }
        Dmabuf::from_parts(internal, clone_id)
    }

    /// Give up the reference. With the last one, the registry lets go of the
    /// buffer.
    pub fn release(self, registry: &mut DmabufRegistry<F>)
        requires
            old(registry)@.wf(),
            old(registry)@.holds(self@.buffer),
        ensures
            final(registry)@.wf(),
            final(registry)@ == old(registry)@.release(self@),
    {
        let ghost before = registry@;
        let id = self.debug_id();
        if let Some(mut live) = registry.take_live(id) {
            if live.strong != 1 {
                live.strong = live.strong - 1;
                registry.put_live(id, live);
            }
        }
        registry.dmabuf_deregister_clone(self.clone_id());
        proof {
            assert(registry@.live =~= before.release(self@).live);
        }
    }

    /// A weak reference to the buffer. It can be hashed in place of this one.
    pub fn weak(&self) -> (weak: WeakDmabuf)
        ensures
            weak@ == self@.buffer.debug_id,
    {
        WeakDmabuf { debug_id: self.debug_id() }
    }

    /// The number of strong references to the buffer.
    pub fn debug_strong_count(&self, registry: &DmabufRegistry<F>) -> (count: usize)
        requires
            registry@.wf(),
            registry@.holds(self@.buffer),
        ensures
            count == registry@.live[self@.buffer.debug_id].strong,
    {
        match registry.get_live(self.debug_id()) {
            Some(live) => live.strong,
            None => 0,
        }
    }

    /// The address of what all references to the buffer share, to find its holders in
    /// a core dump. Every reference gives the same one.
    pub fn debug_ptr(&self, registry: &DmabufRegistry<F>) -> (address: usize)
        requires
            registry@.wf(),
            registry@.holds(self@.buffer),
        ensures
            address == registry@.live[self@.buffer.debug_id].address,
            buffer::has_address(self@.buffer, address),
            address != 0,
    {
        registry.get_live(self.debug_id()).unwrap().address
    }

    /// The node that the buffer can presumably be imported with. It is a hint only.
    pub fn node(&self, registry: &DmabufRegistry<F>) -> (node: Option<DrmNode>)
        requires
            registry@.wf(),
            registry@.holds(self@.buffer),
        ensures
            node == registry@.live[self@.buffer.debug_id].node,
    {
        match registry.get_live(self.debug_id()) {
            Some(live) => live.node,
            None => None,
        }
    }

    /// Set or unset the node for the buffer, for all of its references.
    pub fn set_node(&self, registry: &mut DmabufRegistry<F>, node: Option<DrmNode>)
        requires
            old(registry)@.wf(),
            old(registry)@.holds(self@.buffer),
        ensures
            final(registry)@.wf(),
            final(registry)@ == old(registry)@.with_live(
                self@.buffer.debug_id,
                LiveModel { node, ..old(registry)@.live[self@.buffer.debug_id] },
            ),
    {
        let ghost before = registry@;
        let id = self.debug_id();
        if let Some(mut live) = registry.take_live(id) {
            live.node = node;
            registry.put_live(id, live);
        }
        proof {
            assert(registry@.live =~= before.live.insert(
                id,
                LiveModel { node, ..before.live[id] },
            ));
        }
    }
}

/// Weak reference to a buffer.
#[derive(Clone, Copy, Debug, PartialEq, Eq, Hash, Structural)]
pub struct WeakDmabuf {
    debug_id: u64,
}

impl View for WeakDmabuf {
    type V = u64;

    closed spec fn view(&self) -> u64 {
        self.debug_id
    }
}

/// Weak references to the same buffer are one and the same value, so that they are equal
/// and hash alike: those of equal references are.
pub proof fn law_weak_references_are_their_buffer<F>(
    a: Dmabuf<F>,
    b: Dmabuf<F>,
    weak_a: WeakDmabuf,
    weak_b: WeakDmabuf,
)
    requires
        weak_a@ == a@.buffer.debug_id,
        weak_b@ == b@.buffer.debug_id,
    ensures
        weak_a == weak_b <==> vstd::std_specs::cmp::PartialEqSpec::eq_spec(&a, &b),
{
}

impl WeakDmabuf {
    /// Try to get a strong reference to the buffer.
    ///
    /// Fails if no strong references exist anymore.
    pub fn upgrade<F>(&self, registry: &mut DmabufRegistry<F>) -> (upgraded: Option<Dmabuf<F>>)
        requires
            old(registry)@.wf(),
            old(registry)@.live.contains_key(self@) ==> old(registry)@.live[self@].strong
                < usize::MAX,
        ensures
            final(registry)@.wf(),
            upgraded is Some <==> old(registry)@.live.contains_key(self@),
            upgraded is None ==> final(registry)@ == old(registry)@,
            upgraded matches Some(dmabuf) ==> old(registry)@.shared_into(
                old(registry)@.live[self@].buffer,
                final(registry)@,
                dmabuf@,
            ),
    {
        let internal = match registry.get_live(self.debug_id) {
            Some(live) => live.internal.clone(),
            None => {
                return None;
            },
        };
        let ghost before = registry@;
        registry.count_reference(&internal);
        let ghost counted = registry@;
        let clone_id = registry.dmabuf_register_clone(&internal);
        proof {
            let site = choose|site: Arc<Backtrace>|
                {
                    &&& counted.traces(internal@) ==> backtrace::is_capture(*site)
                    &&& registry@ == #[trigger] counted.register_clone(internal@, site)
                };
            assert(registry@ == before.share(internal@, site));
        }
        Some(Dmabuf::from_parts(internal, clone_id))
    }

    /// Whether one more strong reference could be counted.
    pub fn can_upgrade<F>(&self, registry: &DmabufRegistry<F>) -> (result: bool)
        requires
            registry@.wf(),
        ensures
            result == (registry@.live.contains_key(self@) ==> registry@.live[self@].strong
                < usize::MAX),
    {
        match registry.get_live(self.debug_id) {
            Some(live) => live.strong < usize::MAX,
            None => true,
        }
    }

    /// Whether no strong references remain.
    pub fn is_gone<F>(&self, registry: &DmabufRegistry<F>) -> (gone: bool)
        requires
            registry@.wf(),
        ensures
            gone == !registry@.live.contains_key(self@),
    {
        registry.get_live(self.debug_id).is_none()
    }
}

} // verus!
