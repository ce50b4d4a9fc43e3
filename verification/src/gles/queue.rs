//! Queue of deferred cleanup requests that accounts for every request once.
//!
//! A request is counted when it is sent. From then on it is either received by
//! the side that cleans up, or discarded: because the receiving side had
//! already retired when it was sent, or because it retired before receiving it.
//! In every case the request is finished exactly once.

use std::collections::VecDeque;
use vstd::prelude::*;

verus! {

/// A resource that keeps books about its own cleanup request.
///
/// The books are kept in a ledger. The contracts speak of what the ledger
/// stands for, its model, and of what each entry in the books does to it.
pub trait Accounting: Sized {
    /// Where the books are kept.
    type Ledger;

    /// What the books say.
    type Model;

    /// What `ledger` says.
    spec fn model(ledger: Self::Ledger) -> Self::Model;

    /// The books are consistent.
    spec fn consistent(books: Self::Model) -> bool;

    /// The books have room for one more request for this resource.
    spec fn has_room(self, books: Self::Model) -> bool;

    /// The books once this resource has been queued.
    spec fn after_queued(self, books: Self::Model) -> Self::Model;

    /// The sequence number that this resource gets when it is queued.
    spec fn next_sequence(self, books: Self::Model) -> u64;

    /// The books once this resource has been discarded.
    spec fn after_discarded(self, books: Self::Model) -> Self::Model;

    /// The books once the request `sequence` for this resource is finished.
    spec fn after_finished(self, books: Self::Model, sequence: u64) -> Self::Model;

    /// Note that the resource was queued, and give its request a sequence number.
    fn queued(&self, ledger: &mut Self::Ledger) -> (sequence: u64)
        requires
            Self::consistent(Self::model(*old(ledger))),
            self.has_room(Self::model(*old(ledger))),
        ensures
            Self::consistent(Self::model(*final(ledger))),
            Self::model(*final(ledger)) == self.after_queued(Self::model(*old(ledger))),
            sequence == self.next_sequence(Self::model(*old(ledger))),
    ;

    /// Note that the request for the resource was dropped without cleanup.
    fn discarded(&self, ledger: &mut Self::Ledger)
        requires
            Self::consistent(Self::model(*old(ledger))),
        ensures
            Self::consistent(Self::model(*final(ledger))),
            Self::model(*final(ledger)) == self.after_discarded(Self::model(*old(ledger))),
    ;

    /// Note that the request `sequence` is over.
    fn finished(&self, ledger: &mut Self::Ledger, sequence: u64)
        requires
            Self::consistent(Self::model(*old(ledger))),
        ensures
            Self::consistent(Self::model(*final(ledger))),
            Self::model(*final(ledger)) == self.after_finished(Self::model(*old(ledger)), sequence),
    ;
}

/// A request in the queue, or on its way out of it.
pub struct Entry<T> {
    resource: T,
    sequence: u64,
    delivered: bool,
}

/// What an [`Entry`] stands for.
pub struct EntryModel<T> {
    /// The resource to clean up.
    pub resource: T,
    /// The sequence number of the request.
    pub sequence: u64,
    /// Whether the cleaning side has received the request.
    pub delivered: bool,
}

impl<T> View for Entry<T> {
    type V = EntryModel<T>;

    closed spec fn view(&self) -> EntryModel<T> {
        EntryModel { resource: self.resource, sequence: self.sequence, delivered: self.delivered }
    }
}

impl<T> EntryModel<T> {
    /// The same request, received.
    pub open spec fn deliver(self) -> EntryModel<T> {
        EntryModel { resource: self.resource, sequence: self.sequence, delivered: true }
    }
}

impl<T: Accounting> EntryModel<T> {
    /// The books once the request has come to its end: discarded if it was never
    /// received, and finished either way.
    pub open spec fn close(self, books: T::Model) -> T::Model {
        let books = if self.delivered {
            books
        } else {
            self.resource.after_discarded(books)
        };
        self.resource.after_finished(books, self.sequence)
    }
}

/// The books once all of `entries` have come to their end, the first one first.
pub open spec fn close_all<T: Accounting>(
    entries: Seq<EntryModel<T>>,
    books: T::Model,
) -> T::Model
    decreases entries.len(),
{
    if entries.len() == 0 {
        books
    } else {
        entries.last().close(close_all(entries.drop_last(), books))
    }
}

impl<T> Entry<T> {
    /// The resource to clean up.
    pub fn resource(&self) -> (resource: &T)
        ensures
            *resource == self@.resource,
    {
        &self.resource
    }
}

impl<T: Accounting> Entry<T> {
    /// Bring the request to its end. One that was never received counts as
    /// discarded.
    pub fn close(self, ledger: &mut T::Ledger)
        requires
            T::consistent(T::model(*old(ledger))),
        ensures
            T::consistent(T::model(*final(ledger))),
            T::model(*final(ledger)) == self@.close(T::model(*old(ledger))),
    {
        if !self.delivered {
            self.resource.discarded(ledger);
        }
        self.resource.finished(ledger, self.sequence);
    }
}

/// The queue between the sides that send requests and the one that receives them.
pub struct Channel<T> {
    receiving: bool,
    entries: VecDeque<Entry<T>>,
}

/// What a [`Channel`] stands for.
#[verifier::ext_equal]
pub struct ChannelModel<T> {
    /// Whether the receiving side is still there.
    pub receiving: bool,
    /// The requests that were sent and not received, the oldest one first.
    pub entries: Seq<EntryModel<T>>,
}

impl<T> View for Channel<T> {
    type V = ChannelModel<T>;

    closed spec fn view(&self) -> ChannelModel<T> {
        ChannelModel {
            receiving: self.receiving,
            entries: self.entries@.map_values(|entry: Entry<T>| entry@),
        }
    }
}

impl<T> ChannelModel<T> {
    /// Nothing waits once the receiving side is gone, and nothing that waits has
    /// been received.
    pub open spec fn wf(self) -> bool {
        &&& !self.receiving ==> self.entries.len() == 0
        &&& forall|i: int|
            0 <= i < self.entries.len() ==> !(#[trigger] self.entries[i]).delivered
    }
}

/// A new queue with a receiving side and nothing in it.
pub fn channel<T>() -> (channel: Channel<T>)
    ensures
        channel@.wf(),
        channel@ == (ChannelModel::<T> { receiving: true, entries: Seq::empty() }),
{
    Channel { receiving: true, entries: VecDeque::new() }
}

impl<T> Channel<T> {
    /// Receive the oldest waiting request, if there is one.
    pub fn try_next(&mut self) -> (entry: Option<Entry<T>>)
        requires
            old(self)@.wf(),
        ensures
            final(self)@.wf(),
            entry is Some <==> old(self)@.entries.len() > 0,
            entry matches Some(entry) ==> {
                &&& entry@ == old(self)@.entries.first().deliver()
                &&& final(self)@ == (ChannelModel::<T> {
                    receiving: old(self)@.receiving,
                    entries: old(self)@.entries.drop_first(),
                })
            },
            entry is None ==> final(self)@ == old(self)@,
    {
        let ghost before = self.entries@;
        match self.entries.pop_front() {
            Some(mut entry) => {
                entry.delivered = true;
                proof {
                    let view = |entry: Entry<T>| entry@;
                    assert(self.entries@.map_values(view) =~= before.map_values(view).drop_first());
                }
                Some(entry)
            },
            None => None,
        }
    }

    /// Receive every waiting request, the oldest one first.
    pub fn try_iter(&mut self) -> (received: Vec<Entry<T>>)
        requires
            old(self)@.wf(),
        ensures
            final(self)@.wf(),
            received@.len() == old(self)@.entries.len(),
            forall|i: int|
                0 <= i < received@.len() ==> (#[trigger] received@[i])@
                    == old(self)@.entries[i].deliver(),
            final(self)@ == (ChannelModel::<T> {
                receiving: old(self)@.receiving,
                entries: Seq::empty(),
            }),
    {
        let mut received: Vec<Entry<T>> = Vec::new();
        let ghost before = self@.entries;
        loop
            invariant
                before == old(self)@.entries,
                self@.wf(),
                self@.receiving == old(self)@.receiving,
                received@.len() <= before.len(),
                self@.entries == before.skip(received@.len() as int),
                forall|i: int|
                    0 <= i < received@.len() ==> (#[trigger] received@[i])@ == before[i].deliver(),
            ensures
                self@.entries.len() == 0,
            decreases self@.entries.len(),
        {
            match self.try_next() {
                Some(entry) => {
                    received.push(entry);
                },
                None => {
                    break;
                },
            }
        }
        received
    }
}

impl<T: Accounting> Channel<T> {
    /// Send a cleanup request for `resource`.
    ///
    /// Fails if the receiving side has retired; the request then counts as
    /// discarded at once.
    pub fn send(&mut self, resource: T, ledger: &mut T::Ledger) -> (result: Result<(), ()>)
        requires
            old(self)@.wf(),
            T::consistent(T::model(*old(ledger))),
            resource.has_room(T::model(*old(ledger))),
        ensures
            final(self)@.wf(),
            T::consistent(T::model(*final(ledger))),
            result is Ok <==> old(self)@.receiving,
            ({
                let before = T::model(*old(ledger));
                let entry = EntryModel {
                    resource,
                    sequence: resource.next_sequence(before),
                    delivered: false,
                };
                let queued = resource.after_queued(before);
                if old(self)@.receiving {
                    &&& final(self)@ == (ChannelModel::<T> {
                        receiving: true,
                        entries: old(self)@.entries.push(entry),
                    })
                    &&& T::model(*final(ledger)) == queued
                } else {
                    &&& final(self)@ == old(self)@
                    &&& T::model(*final(ledger)) == entry.close(queued)
                }
            }),
    {
        let sequence = resource.queued(ledger);
        let entry = Entry { resource, sequence, delivered: false };
        if self.receiving {
            let ghost before = self.entries@;
            self.entries.push_back(entry);
            proof {
                let view = |entry: Entry<T>| entry@;
                assert(self.entries@.map_values(view) =~= before.map_values(view).push(entry@));
            }
            Ok(())
        } else {
            entry.close(ledger);
            Err(())
        }
    }

    /// Retire the receiving side. What it has not received is discarded.
    pub fn retire(&mut self, ledger: &mut T::Ledger)
        requires
            old(self)@.wf(),
            T::consistent(T::model(*old(ledger))),
        ensures
            final(self)@.wf(),
            T::consistent(T::model(*final(ledger))),
            final(self)@ == (ChannelModel::<T> { receiving: false, entries: Seq::empty() }),
            T::model(*final(ledger)) == close_all(old(self)@.entries, T::model(*old(ledger))),
    {
        let ghost before = self@.entries;
        let ghost books = T::model(*ledger);
        let ghost mut closed: int = 0;
        self.receiving = false;
        loop
            invariant
                !self.receiving,
                0 <= closed <= before.len(),
                self@.entries == before.skip(closed),
                T::consistent(T::model(*ledger)),
                T::model(*ledger) == close_all(before.take(closed), books),
            ensures
                self.entries@.len() == 0,
                closed == before.len(),
            decreases self.entries@.len(),
        {
            let ghost waiting = self.entries@;
            match self.entries.pop_front() {
                Some(entry) => {
                    entry.close(ledger);
                    proof {
                        let view = |entry: Entry<T>| entry@;
                        assert(waiting.map_values(view) == before.skip(closed));
                        assert(entry@ == waiting.map_values(view)[0]);
                        assert(self.entries@.map_values(view) =~= waiting.map_values(
                            view,
                        ).drop_first());
                        assert(before.skip(closed).drop_first() =~= before.skip(closed + 1));
                        assert(before.take(closed + 1).drop_last() =~= before.take(closed));
                        closed = closed + 1;
                    }
                },
                None => {
                    assert(before.skip(closed).len() == waiting.len());
                    break;
                },
            }
        }
        proof {
            assert(before.take(closed) =~= before);
        }
    }
}

} // verus!
