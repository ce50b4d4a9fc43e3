//! Waiting for a buffer to become ready.
//!
//! A [`DmabufSource`] watches the planes of a buffer until each of them is ready
//! for the kind of access that it was created for. It fires once. Polling the
//! planes and keeping the event loop informed are the caller's; which planes to
//! watch, and what each event leads to, is decided here.

use crate::allocator::dmabuf::buffer::{Dmabuf, MAX_PLANES};
use crate::allocator::dmabuf::registry::DmabufRegistry;
use vstd::prelude::*;

verus! {

/// The kinds of readiness to wait for.
#[derive(Clone, Copy, Debug, PartialEq, Eq, Structural)]
pub struct Interest {
    /// Wait until the buffer can be read.
    pub readable: bool,
    /// Wait until the buffer can be written.
    pub writable: bool,
}

/// What to poll a plane for.
#[derive(Clone, Copy, Debug, PartialEq, Eq, Structural)]
pub enum PollDirection {
    /// Whether it can be read.
    In,
    /// Whether it can be written.
    Out,
}

/// The buffer is already ready for the given interest.
#[derive(Clone, Copy, Debug, PartialEq, Eq, Structural)]
pub struct AlreadyReady;

/// What the event loop is to do with an event source.
#[derive(Clone, Copy, Debug, PartialEq, Eq, Structural)]
pub enum PostAction {
    /// Keep it as it is.
    Continue,
    /// Register it anew.
    Reregister,
    /// Disable it.
    Disable,
    /// Remove it.
    Remove,
}

/// Whether something that waits for a buffer may go on.
#[derive(Clone, Copy, Debug, PartialEq, Eq, Structural)]
pub enum BlockerState {
    /// It has to wait.
    Pending,
    /// It may go on.
    Released,
}

/// What waits for a [`DmabufSource`] to fire.
#[derive(Debug, PartialEq, Eq, Structural)]
pub struct DmabufBlocker {
    signal: bool,
}

impl DmabufBlocker {
    /// Whether the source has fired.
    pub closed spec fn is_released(self) -> bool {
        self.signal
    }

    /// Whether to wait or to go on.
    pub fn state(&self) -> (state: BlockerState)
        ensures
            state == if self.is_released() {
                BlockerState::Released
            } else {
                BlockerState::Pending
            },
    {
        if self.signal {
            BlockerState::Released
        } else {
            BlockerState::Pending
        }
    }

    /// A blocker for a source that has fired, if `released`, or has not.
    pub(crate) fn new(released: bool) -> (blocker: DmabufBlocker)
        ensures
            blocker.is_released() == released,
    {
        DmabufBlocker { signal: released }
    }
}

/// One plane of a [`DmabufSource`], where `S` is its event source.
#[derive(Debug)]
pub enum Subsource<S> {
    /// The plane is not ready yet.
    Active(S),
    /// The plane has become ready.
    Done(S),
    /// There is nothing to wait for.
    Empty,
}

impl<S> Subsource<S> {
    /// Nothing is left to wait for.
    pub open spec fn is_settled(self) -> bool {
        !(self is Active)
    }

    /// The same plane once it has become ready.
    pub open spec fn settle(self) -> Subsource<S> {
        match self {
            Subsource::Active(source) => Subsource::Done(source),
            Subsource::Done(source) => Subsource::Done(source),
            Subsource::Empty => Subsource::Empty,
        }
    }

    /// Note that the plane has become ready.
    pub fn done(&mut self)
        ensures
            *final(self) == old(self).settle(),
    {
        let mut this = Subsource::Empty;
        std::mem::swap(self, &mut this);
        match this {
            Subsource::Done(source) => {
                *self = Subsource::Done(source);
            },
            Subsource::Active(source) => {
                *self = Subsource::Done(source);
            },
            Subsource::Empty => {},
        }
    }

    /// Whether the plane is not ready yet.
    fn is_active(&self) -> (result: bool)
        ensures
            result == self is Active,
    {
        match self {
            Subsource::Active(_) => true,
            _ => false,
        }
    }
}

/// What polling a plane has come to, with an event source for the plane.
pub struct PolledPlane<S> {
    /// The number of ready descriptors, or `None` if the call failed.
    pub ready: Option<usize>,
    /// The event source to watch the plane with.
    pub source: S,
}

/// What a step of waiting has come to.
#[derive(Clone, Copy, Debug, PartialEq, Eq, Structural)]
pub enum Progress {
    /// Every plane is ready: the callback is due.
    Ready,
    /// Some plane is not ready.
    Waiting,
}

/// What to do with the event source of one plane.
#[derive(Clone, Copy, Debug, PartialEq, Eq, Structural)]
pub enum Registration {
    /// Register it. Its failure is the caller's.
    Register,
    /// Register it anew. Its failure is the caller's.
    Reregister,
    /// Remove it. Its failure is the caller's.
    Unregister,
    /// Remove it, and ignore a failure.
    Discard,
}

/// Event source that watches a buffer. `D` stands for the buffer, `S` for the
/// event source of a plane.
pub struct DmabufSource<D, S> {
    dmabuf: D,
    sources: Vec<Subsource<S>>,
}

/// What to poll the planes for. `None` if there is nothing to wait for.
///
/// Readiness for writing is that of all accesses, so it covers reading too.
pub fn poll_direction(interest: Interest) -> (direction: Option<PollDirection>)
    ensures
        direction == if interest.writable {
            Some(PollDirection::Out)
        } else if interest.readable {
            Some(PollDirection::In)
        } else {
            None
        },
{
    if !interest.readable && !interest.writable {
        None
    } else if interest.writable {
        Some(PollDirection::Out)
    } else {
        Some(PollDirection::In)
    }
}

/// What watches each plane at first: nothing if the plane is ready, or is not
/// there.
pub open spec fn first_sources<S>(polled: Seq<PolledPlane<S>>) -> Seq<Subsource<S>> {
    Seq::new(
        MAX_PLANES as nat,
        |i: int|
            if i < polled.len() && polled[i].ready != Some(1usize) {
                Subsource::Active(polled[i].source)
            } else {
                Subsource::Empty
            },
    )
}

/// No plane is left to wait for.
pub open spec fn all_settled<S>(sources: Seq<Subsource<S>>) -> bool {
    forall|i: int| 0 <= i < sources.len() ==> (#[trigger] sources[i]).is_settled()
}

/// The planes after one event: those that watched and were told to be removed
/// have become ready.
pub open spec fn after_events<S>(
    sources: Seq<Subsource<S>>,
    outcomes: Seq<Option<PostAction>>,
) -> Seq<Subsource<S>> {
    Seq::new(
        sources.len(),
        |i: int|
            if sources[i] is Active && outcomes[i] == Some(PostAction::Remove) {
                sources[i].settle()
            } else {
                sources[i]
            },
    )
}

/// What to do with the planes, in order. `choice` says what to do with one; a
/// plane that it says nothing of is left alone.
pub open spec fn registrations<S>(
    sources: Seq<Subsource<S>>,
    choice: spec_fn(Subsource<S>) -> Option<Registration>,
) -> Seq<(usize, Registration)>
    decreases sources.len(),
{
    if sources.len() == 0 {
        Seq::empty()
    } else {
        let before = registrations(sources.drop_last(), choice);
        match choice(sources.last()) {
            Some(registration) => before.push(((sources.len() - 1) as usize, registration)),
            None => before,
        }
    }
}

/// What registering a source does with a plane.
pub open spec fn on_register<S>(source: Subsource<S>) -> Option<Registration> {
    match source {
        Subsource::Active(_) => Some(Registration::Register),
        _ => None,
    }
}

/// What registering a source anew does with a plane.
pub open spec fn on_reregister<S>(source: Subsource<S>) -> Option<Registration> {
    match source {
        Subsource::Active(_) => Some(Registration::Reregister),
        Subsource::Done(_) => Some(Registration::Discard),
        Subsource::Empty => None,
    }
}

/// What removing a source does with a plane.
pub open spec fn on_unregister<S>(source: Subsource<S>) -> Option<Registration> {
    match source {
        Subsource::Active(_) => Some(Registration::Unregister),
        Subsource::Done(_) => Some(Registration::Discard),
        Subsource::Empty => None,
    }
}

/// Whether no plane is left to wait for.
fn settled<S>(sources: &Vec<Subsource<S>>) -> (result: bool)
    ensures
        result == all_settled(sources@),
{
    for i in 0..sources.len()
        invariant
            forall|j: int| 0 <= j < i ==> (#[trigger] sources@[j]).is_settled(),
    {
        if sources[i].is_active() {
            assert(!sources@[i as int].is_settled());
            return false;
        }
    }
    true
}

/// There is nothing to wait for.
pub open spec fn is_ready<S>(interest: Interest, polled: Seq<PolledPlane<S>>) -> bool {
    ||| !interest.readable && !interest.writable
    ||| all_settled(first_sources(polled))
}

/// What watches each plane at first, or `None` if there is nothing to wait for.
fn watch<S>(interest: Interest, polled: Vec<PolledPlane<S>>) -> (watching: Option<
    Vec<Subsource<S>>,
>)
    requires
        polled@.len() <= MAX_PLANES,
    ensures
        match watching {
            None => is_ready(interest, polled@),
            Some(sources) => !is_ready(interest, polled@) && sources@ == first_sources(polled@),
        },
{
    if !interest.readable && !interest.writable {
        return None;
    }
    let mut sources: Vec<Subsource<S>> = Vec::new();
    for plane in it: polled
        invariant
            it.seq() == polled@,
            polled@.len() <= MAX_PLANES,
            sources@.len() == it.index(),
            sources@ =~= first_sources(polled@).take(it.index()),
    {
        match plane.ready {
            Some(1) => {
                sources.push(Subsource::Empty);
            },
            _ => {
                sources.push(Subsource::Active(plane.source));
            },
        }
    }
    while sources.len() < MAX_PLANES
        invariant
            polled@.len() <= sources@.len() <= MAX_PLANES,
            sources@ =~= first_sources(polled@).take(sources@.len() as int),
        decreases MAX_PLANES - sources@.len(),
    {
        sources.push(Subsource::Empty);
    }
    proof {
        assert(sources@ =~= first_sources(polled@));
    }
    if settled(&sources) {
        None
    } else {
        Some(sources)
    }
}

impl<D, S> DmabufSource<D, S> {
    /// The buffer that is watched.
    pub closed spec fn watched(self) -> D {
        self.dmabuf
    }

    /// What watches each plane.
    pub closed spec fn sources(self) -> Seq<Subsource<S>> {
        self.sources@
    }

    /// There is a place for each plane that a buffer can have.
    pub open spec fn wf(self) -> bool {
        self.sources().len() == MAX_PLANES
    }

    /// A source that watches `dmabuf`, whose planes were polled with the results
    /// `polled`.
    ///
    /// Returns [`AlreadyReady`], and hands `dmabuf` back, if all planes are ready or
    /// if `interest` is empty.
    pub fn new(dmabuf: D, interest: Interest, polled: Vec<PolledPlane<S>>) -> (source: Result<
        DmabufSource<D, S>,
        (AlreadyReady, D),
    >)
        requires
            polled@.len() <= MAX_PLANES,
        ensures
            match source {
                Err((_, back)) => is_ready(interest, polled@) && back == dmabuf,
                Ok(source) => {
                    &&& !is_ready(interest, polled@)
                    &&& source.wf()
                    &&& source.watched() == dmabuf
                    &&& source.sources() == first_sources(polled@)
                },
            },
    {
        match watch(interest, polled) {
            None => Err((AlreadyReady, dmabuf)),
            Some(sources) => Ok(DmabufSource { dmabuf, sources }),
        }
    }

    /// The buffer that is watched, given up by the source.
    pub fn into_dmabuf(self) -> (dmabuf: D)
        ensures
            dmabuf == self.watched(),
    {
        self.dmabuf
    }

    /// Let `handle` stand for the buffer that is watched. Returns what stood for it.
    pub fn exchange<E>(self, handle: E) -> (parts: (D, DmabufSource<E, S>))
        ensures
            parts.0 == self.watched(),
            parts.1.watched() == handle,
            parts.1.sources() == self.sources(),
    {
        (self.dmabuf, DmabufSource { dmabuf: handle, sources: self.sources })
    }

    /// The buffer that is watched, for the callback.
    pub fn dmabuf_mut(&mut self) -> (dmabuf: &mut D)
        ensures
            *dmabuf == old(self).watched(),
            final(self).watched() == *final(dmabuf),
            final(self).sources() == old(self).sources(),
    {
        &mut self.dmabuf
    }

    /// The event source of the plane `idx`, unless there is nothing to wait for.
    pub fn source_mut(&mut self, idx: usize) -> (source: Option<&mut S>)
        requires
            old(self).wf(),
            idx < MAX_PLANES,
        ensures
            final(self).wf(),
            final(self).watched() == old(self).watched(),
            match source {
                Some(source) => {
                    &&& old(self).sources()[idx as int] is Active ==> {
                        &&& *source == old(self).sources()[idx as int]->Active_0
                        &&& final(self).sources() == old(self).sources().update(
                            idx as int,
                            Subsource::Active(*final(source)),
                        )
                    }
                    &&& old(self).sources()[idx as int] is Done ==> {
                        &&& *source == old(self).sources()[idx as int]->Done_0
                        &&& final(self).sources() == old(self).sources().update(
                            idx as int,
                            Subsource::Done(*final(source)),
                        )
                    }
                    &&& !(old(self).sources()[idx as int] is Empty)
                },
                None => {
                    &&& old(self).sources()[idx as int] is Empty
                    &&& final(self).sources() == old(self).sources()
                },
            },
    {
        match &mut self.sources[idx] {
            Subsource::Active(source) => Some(source),
            Subsource::Done(source) => Some(source),
            Subsource::Empty => None,
        }
    }

    /// Whether the plane `idx` is not ready yet.
    pub fn is_waiting(&self, idx: usize) -> (result: bool)
        requires
            self.wf(),
            idx < MAX_PLANES,
        ensures
            result == self.sources()[idx as int] is Active,
    {
        self.sources[idx].is_active()
    }

    /// What waits for this source. It may go on at once if no plane is left to wait for.
    pub fn blocker(&self) -> (blocker: DmabufBlocker)
        ensures
            blocker.is_released() == all_settled(self.sources()),
            blocker.is_released() <==> forall|i: int|
                0 <= i < self.sources().len() ==> !((#[trigger] self.sources()[i]) is Active),
    {
        DmabufBlocker::new(settled(&self.sources))
    }

    /// Take in what the event source of each plane made of an event, `None` where
    /// it failed. Once every plane is ready, `blocker` is released.
    ///
    /// An outcome for a plane that is not waiting counts for nothing.
    pub fn process_events(
        &mut self,
        outcomes: &Vec<Option<PostAction>>,
        blocker: &mut DmabufBlocker,
    ) -> (progress: Progress)
        requires
            old(self).wf(),
            outcomes@.len() == MAX_PLANES,
        ensures
            final(self).wf(),
            final(self).watched() == old(self).watched(),
            final(self).sources() == after_events(old(self).sources(), outcomes@),
            progress == if all_settled(final(self).sources()) {
                Progress::Ready
            } else {
                Progress::Waiting
            },
            final(blocker).is_released() == (old(blocker).is_released() || progress
                == Progress::Ready),
            progress == Progress::Ready <==> forall|i: int|
                0 <= i < 4 ==> !((#[trigger] final(self).sources()[i]) is Active),
    {
        let ghost before = self.sources@;
        for i in 0..MAX_PLANES
            invariant
                before.len() == MAX_PLANES,
                outcomes@.len() == MAX_PLANES,
                self.watched() == old(self).watched(),
                self.sources@.len() == MAX_PLANES,
                forall|j: int|
                    0 <= j < i ==> self.sources@[j] == after_events(before, outcomes@)[j],
                forall|j: int| i <= j < MAX_PLANES ==> self.sources@[j] == before[j],
        {
            if self.sources[i].is_active() {
                match outcomes[i] {
                    Some(PostAction::Remove) => {
                        self.sources[i].done();
                    },
                    _ => {},
                }
            }
        }
        proof {
            assert(self.sources@ =~= after_events(before, outcomes@));
        }
        if settled(&self.sources) {
            blocker.signal = true;
            Progress::Ready
        } else {
            Progress::Waiting
        }
    }

    /// What to do with the planes to register the source.
    pub fn register(&self) -> (plan: Vec<(usize, Registration)>)
        requires
            self.wf(),
        ensures
            plan@ == registrations(self.sources(), |source: Subsource<S>| on_register(source)),
    {
        let mut plan: Vec<(usize, Registration)> = Vec::new();
        let ghost choice = |source: Subsource<S>| on_register(source);
        for i in 0..self.sources.len()
            invariant
                choice == (|source: Subsource<S>| on_register(source)),
                plan@ == registrations(self.sources@.take(i as int), choice),
        {
            match &self.sources[i] {
                Subsource::Active(_) => {
                    plan.push((i, Registration::Register));
                },
                _ => {},
            }
            proof {
                assert(self.sources@.take(i + 1).drop_last() =~= self.sources@.take(i as int));
            }
        }
        proof {
            assert(self.sources@.take(self.sources@.len() as int) =~= self.sources@);
        }
        plan
    }

    /// What to do with the planes to register the source anew.
    pub fn reregister(&self) -> (plan: Vec<(usize, Registration)>)
        requires
            self.wf(),
        ensures
            plan@ == registrations(self.sources(), |source: Subsource<S>| on_reregister(source)),
    {
        let mut plan: Vec<(usize, Registration)> = Vec::new();
        let ghost choice = |source: Subsource<S>| on_reregister(source);
        for i in 0..self.sources.len()
            invariant
                choice == (|source: Subsource<S>| on_reregister(source)),
                plan@ == registrations(self.sources@.take(i as int), choice),
        {
            match &self.sources[i] {
                Subsource::Active(_) => {
                    plan.push((i, Registration::Reregister));
                },
                Subsource::Done(_) => {
                    plan.push((i, Registration::Discard));
                },
                Subsource::Empty => {},
            }
            proof {
                assert(self.sources@.take(i + 1).drop_last() =~= self.sources@.take(i as int));
            }
        }
        proof {
            assert(self.sources@.take(self.sources@.len() as int) =~= self.sources@);
        }
        plan
    }

    /// What to do with the planes to remove the source.
    pub fn unregister(&self) -> (plan: Vec<(usize, Registration)>)
        requires
            self.wf(),
        ensures
            plan@ == registrations(self.sources(), |source: Subsource<S>| on_unregister(source)),
    {
        let mut plan: Vec<(usize, Registration)> = Vec::new();
        let ghost choice = |source: Subsource<S>| on_unregister(source);
        for i in 0..self.sources.len()
            invariant
                choice == (|source: Subsource<S>| on_unregister(source)),
                plan@ == registrations(self.sources@.take(i as int), choice),
        {
            match &self.sources[i] {
                Subsource::Active(_) => {
                    plan.push((i, Registration::Unregister));
                },
                Subsource::Done(_) => {
                    plan.push((i, Registration::Discard));
                },
                Subsource::Empty => {},
            }
            proof {
                assert(self.sources@.take(i + 1).drop_last() =~= self.sources@.take(i as int));
            }
        }
        proof {
            assert(self.sources@.take(self.sources@.len() as int) =~= self.sources@);
        }
        plan
    }
}

impl<F> Dmabuf<F> {
    /// A source that watches this buffer, whose planes were polled with the results
    /// `polled`, and what waits for it.
    ///
    /// Returns [`AlreadyReady`] if all planes are ready or if `interest` is empty.
    pub fn generate_blocker<S>(
        &self,
        registry: &mut DmabufRegistry<F>,
        interest: Interest,
        polled: Vec<PolledPlane<S>>,
    ) -> (generated: Result<(DmabufBlocker, DmabufSource<Dmabuf<F>, S>), AlreadyReady>)
        requires
            self@.buffer.wf(),
            old(registry)@.wf(),
            old(registry)@.can_share(self@.buffer),
            interest.readable || interest.writable ==> polled@.len() == self@.buffer.planes.len(),
            polled@.len() <= MAX_PLANES,
        ensures
            final(registry)@.wf(),
            match generated {
                Err(_) => {
                    &&& is_ready(interest, polled@)
                    &&& old(registry)@.visited_into(self@.buffer, final(registry)@)
                },
                Ok((blocker, source)) => {
                    &&& !is_ready(interest, polled@)
                    &&& !blocker.is_released()
                    &&& source.wf()
                    &&& source.sources() == first_sources(polled@)
                    &&& old(registry)@.shared_into(
                        self@.buffer,
                        final(registry)@,
                        source.watched()@,
                    )
                },
            },
    {
        let ghost before = registry@;
        let dmabuf = self.duplicate(registry);
        let ghost shared = registry@;
        match DmabufSource::new(dmabuf, interest, polled) {
            Err((ready, dmabuf)) => {
                dmabuf.release(registry);
                assert(before.visited_into(self@.buffer, registry@));
                Err(ready)
            },
            Ok(source) => Ok((source.blocker(), source)),
        }
    }
}

/// What the event loop is to do with the source after a step. `called` is what
/// the callback returned, which is called when the source is ready.
pub fn conclude<E>(progress: Progress, called: Result<(), E>) -> (action: Result<PostAction, E>)
    ensures
        action == match progress {
            Progress::Waiting => Ok::<PostAction, E>(PostAction::Reregister),
            Progress::Ready => match called {
                Ok(()) => Ok(PostAction::Remove),
                Err(error) => Err(error),
            },
        },
{
    match progress {
        Progress::Waiting => Ok(PostAction::Reregister),
        Progress::Ready => match called {
            Ok(()) => Ok(PostAction::Remove),
            Err(error) => Err(error),
        },
    }
}

/// There is nothing to wait for exactly if nothing is asked for, or if every plane
/// was polled with one ready descriptor.
pub proof fn law_ready_means_that_every_plane_is<S>(
    interest: Interest,
    polled: Seq<PolledPlane<S>>,
)
    requires
        polled.len() <= MAX_PLANES,
    ensures
        is_ready(interest, polled) <==> {
            ||| !interest.readable && !interest.writable
            ||| forall|i: int|
                0 <= i < polled.len() ==> (#[trigger] polled[i]).ready == Some(1usize)
        },
{
    let sources = first_sources(polled);
    if all_settled(sources) {
        assert forall|i: int| 0 <= i < polled.len() implies (#[trigger] polled[i]).ready == Some(
            1usize,
        ) by {
            assert(sources[i].is_settled());
        }
    } else {
        let i = choose|i: int| 0 <= i < sources.len() && !(#[trigger] sources[i]).is_settled();
        assert(polled[i].ready != Some(1usize));
    }
}

/// A plane that is ready stays ready, whatever happens.
pub proof fn law_ready_planes_stay_ready<S>(
    sources: Seq<Subsource<S>>,
    outcomes: Seq<Option<PostAction>>,
)
    ensures
        after_events(sources, outcomes).len() == sources.len(),
        forall|i: int|
            0 <= i < sources.len() && (#[trigger] sources[i]).is_settled() ==> after_events(
                sources,
                outcomes,
            )[i] == sources[i],
        all_settled(sources) ==> after_events(sources, outcomes) == sources,
{
    if all_settled(sources) {
        assert(after_events(sources, outcomes) =~= sources);
    }
}

/// A source is ready once each plane that was still waiting has been told to be
/// removed, and not before.
pub proof fn law_a_source_is_ready_with_its_last_plane<S>(
    sources: Seq<Subsource<S>>,
    outcomes: Seq<Option<PostAction>>,
)
    ensures
        all_settled(after_events(sources, outcomes)) <==> forall|i: int|
            0 <= i < sources.len() && (#[trigger] sources[i]) is Active ==> outcomes[i] == Some(
                PostAction::Remove,
            ),
{
    let after = after_events(sources, outcomes);
    if all_settled(after) {
        assert forall|i: int| 0 <= i < sources.len() && (
        #[trigger] sources[i]) is Active implies outcomes[i] == Some(PostAction::Remove) by {
            assert(after[i].is_settled());
        }
    } else {
        let i = choose|i: int| 0 <= i < after.len() && !(#[trigger] after[i]).is_settled();
        assert(sources[i] is Active);
    }
}

/// What is done with a plane is what was chosen for it, once and in order.
pub proof fn law_planes_are_handled_once<S>(
    sources: Seq<Subsource<S>>,
    choice: spec_fn(Subsource<S>) -> Option<Registration>,
    i: usize,
    registration: Registration,
)
    requires
        sources.len() <= MAX_PLANES,
    ensures
        registrations(sources, choice).contains((i, registration)) <==> {
            &&& i < sources.len()
            &&& choice(sources[i as int]) == Some(registration)
        },
        forall|a: int, b: int|
            0 <= a < b < registrations(sources, choice).len() ==> (#[trigger] registrations(
                sources,
                choice,
            )[a]).0 < (#[trigger] registrations(sources, choice)[b]).0,
        forall|a: int|
            0 <= a < registrations(sources, choice).len() ==> (#[trigger] registrations(
                sources,
                choice,
            )[a]).0 < sources.len(),
    decreases sources.len(),
{
    let plan = registrations(sources, choice);
    if sources.len() > 0 {
        law_planes_are_handled_once(sources.drop_last(), choice, i, registration);
        let before = registrations(sources.drop_last(), choice);
        let last = (sources.len() - 1) as usize;
        match choice(sources.last()) {
            Some(chosen) => {
                assert(plan == before.push((last, chosen)));
                if before.contains((i, registration)) {
                    let k = choose|k: int|
                        0 <= k < before.len() && before[k] == (i, registration);
                    assert(plan[k] == (i, registration));
                    assert(sources.drop_last()[i as int] == sources[i as int]);
                }
                if i == last && chosen == registration {
                    assert(plan[before.len() as int] == (i, registration));
                }
                if plan.contains((i, registration)) {
                    let k = choose|k: int| 0 <= k < plan.len() && plan[k] == (i, registration);
                    if k < before.len() {
                        assert(before[k] == (i, registration));
                    }
                }
                if i < last {
                    assert(sources.drop_last()[i as int] == sources[i as int]);
                }
            },
            None => {
                assert(plan == before);
                if i < last {
                    assert(sources.drop_last()[i as int] == sources[i as int]);
                }
            },
        }
    }
}

/// There are places for four planes. A plane that was polled as ready, or that is not
/// there, has nothing to watch it; every other one is watched by its own event source.
pub proof fn law_planes_are_watched_by_their_own_source<S>(polled: Seq<PolledPlane<S>>, i: int)
    requires
        polled.len() <= 4,
        0 <= i < 4,
    ensures
        first_sources(polled).len() == 4,
        i >= polled.len() || polled[i].ready == Some(1usize) ==> first_sources(polled)[i] is Empty,
        i < polled.len() && polled[i].ready != Some(1usize) ==> first_sources(polled)[i]
            == Subsource::Active(polled[i].source),
{
}

/// A plane that was watched and whose event source is to be removed is done, with the same
/// event source. Every other plane stays as it is.
pub proof fn law_events_settle_the_planes_that_fired<S>(
    sources: Seq<Subsource<S>>,
    outcomes: Seq<Option<PostAction>>,
    i: int,
)
    requires
        0 <= i < sources.len(),
        outcomes.len() == sources.len(),
    ensures
        after_events(sources, outcomes).len() == sources.len(),
        sources[i] is Active && outcomes[i] == Some(PostAction::Remove) ==> after_events(
            sources,
            outcomes,
        )[i] == Subsource::Done(sources[i]->Active_0),
        !(sources[i] is Active && outcomes[i] == Some(PostAction::Remove)) ==> after_events(
            sources,
            outcomes,
        )[i] == sources[i],
{
}

/// A plane is done once it is noted as ready, with the event source that it had.
pub proof fn law_settling_keeps_the_source<S>(source: Subsource<S>)
    ensures
        match source {
            Subsource::Active(watch) => source.settle() == Subsource::Done(watch),
            Subsource::Done(watch) => source.settle() == Subsource::Done(watch),
            Subsource::Empty => source.settle() is Empty,
        },
        source.is_settled() <==> source is Done || source is Empty,
{
}

/// Nothing is left to wait for exactly if no plane is watched.
pub proof fn law_nothing_is_left_without_watched_planes<S>(sources: Seq<Subsource<S>>)
    ensures
        all_settled(sources) <==> forall|i: int|
            0 <= i < sources.len() ==> !((#[trigger] sources[i]) is Active),
{
}

/// To register a source, exactly the watched planes are registered, once each. To register
/// it anew, those are registered anew, and the ones that are done are discarded. To remove
/// it, those are removed, and again the ones that are done are discarded.
pub proof fn law_every_plane_gets_its_registration<S>(
    sources: Seq<Subsource<S>>,
    i: usize,
    registration: Registration,
)
    requires
        sources.len() <= 4,
    ensures
        registrations(sources, |source: Subsource<S>| on_register(source)).contains(
            (i, registration),
        ) <==> i < sources.len() && sources[i as int] is Active && registration
            == Registration::Register,
        registrations(sources, |source: Subsource<S>| on_reregister(source)).contains(
            (i, registration),
        ) <==> i < sources.len() && ((sources[i as int] is Active && registration
            == Registration::Reregister) || (sources[i as int] is Done && registration
            == Registration::Discard)),
        registrations(sources, |source: Subsource<S>| on_unregister(source)).contains(
            (i, registration),
        ) <==> i < sources.len() && ((sources[i as int] is Active && registration
            == Registration::Unregister) || (sources[i as int] is Done && registration
            == Registration::Discard)),
{
    law_planes_are_handled_once(
        sources,
        |source: Subsource<S>| on_register(source),
        i,
        registration,
    );
    law_planes_are_handled_once(
        sources,
        |source: Subsource<S>| on_reregister(source),
        i,
        registration,
    );
    law_planes_are_handled_once(
        sources,
        |source: Subsource<S>| on_unregister(source),
        i,
        registration,
    );
}

} // verus!
