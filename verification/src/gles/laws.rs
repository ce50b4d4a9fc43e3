//! What holds of the books as a whole.

use crate::backtrace;
use crate::gles::counters;
use crate::gles::counters::{CleanupResource, Counter, ObjectCounter, ResourceClass};
use crate::gles::counters::{VramCounters, VramModel};
use crate::gles::queue;
use crate::gles::queue::{Accounting, EntryModel};
use crate::gles::queue_tracker::{QueueModel, QueueSnapshot};
use std::backtrace::Backtrace;
use std::sync::Arc;
use vstd::prelude::*;

verus! {

/// A snapshot names an oldest request exactly if one is outstanding.
pub proof fn law_oldest_is_zero_when_nothing_is_pending(
    requests: QueueModel,
    snapshot: QueueSnapshot,
)
    requires
        requests.wf(),
        requests.reported_by(snapshot),
    ensures
        snapshot.oldest == 0 <==> snapshot.pending == 0,
        snapshot.oldest <= snapshot.submitted,
        snapshot.pending <= snapshot.submitted,
{
    if !requests.pending.is_empty() {
        assert(requests.pending.contains(snapshot.oldest));
        if requests.pending.len() == 0 {
            assert(requests.pending =~= Set::empty());
        }
    }
    lemma_pending_is_bounded(requests);
}

/// No more requests are outstanding than were submitted.
proof fn lemma_pending_is_bounded(requests: QueueModel)
    requires
        requests.wf(),
    ensures
        requests.pending.len() <= requests.submitted,
    decreases requests.submitted,
{
    if requests.submitted == 0 {
        assert(requests.pending =~= Set::empty());
    } else {
        let last = requests.submitted;
        let fewer = QueueModel {
            submitted: (last - 1) as u64,
            pending: requests.pending.remove(last),
        };
        lemma_pending_is_bounded(fewer);
    }
}

/// Completing a request that is not the oldest leaves the oldest one in sight.
pub proof fn law_newer_completions_do_not_hide_the_oldest(
    requests: QueueModel,
    oldest: u64,
    newer: u64,
)
    requires
        requests.wf(),
        requests.is_oldest(oldest),
        newer != oldest,
    ensures
        requests.complete(newer).is_oldest(oldest),
{
    if requests.pending.is_empty() {
        assert(requests.complete(newer).pending =~= Set::empty());
    } else {
        assert(requests.complete(newer).pending.contains(oldest));
    }
}

/// Once the oldest request has completed, the oldest one is newer, or none is
/// outstanding.
pub proof fn law_oldest_advances(requests: QueueModel, oldest: u64, next: u64)
    requires
        requests.wf(),
        requests.pending.contains(oldest),
        requests.is_oldest(oldest),
        requests.complete(oldest).is_oldest(next),
    ensures
        next > oldest || (next == 0 && requests.complete(oldest).pending.is_empty()),
{
    if !requests.complete(oldest).pending.is_empty() {
        assert(requests.complete(oldest).pending.contains(next));
        assert(requests.pending.contains(next));
    }
}

/// A new request never becomes the oldest one while another is outstanding.
pub proof fn law_submissions_do_not_hide_the_oldest(requests: QueueModel, oldest: u64)
    requires
        requests.wf(),
        requests.submitted < u64::MAX,
        !requests.pending.is_empty(),
        requests.is_oldest(oldest),
    ensures
        requests.submit().is_oldest(oldest),
{
    assert(requests.submit().pending.contains(oldest));
}

/// If the oldest outstanding request is newer than `sequence`, or there is none,
/// then every request up to `sequence` has completed.
pub proof fn law_oldest_is_a_watermark(requests: QueueModel, oldest: u64, sequence: u64)
    requires
        requests.wf(),
        requests.is_oldest(oldest),
        oldest == 0 || sequence < oldest,
    ensures
        forall|earlier: u64|
            earlier <= sequence ==> !(#[trigger] requests.pending.contains(earlier)),
{
    if oldest == 0 && !requests.pending.is_empty() {
        assert(requests.pending.contains(oldest));
    }
}

/// Every request gets a sequence number of its own, larger than all before it.
pub proof fn law_sequence_numbers_are_fresh(requests: QueueModel)
    requires
        requests.wf(),
        requests.submitted < u64::MAX,
    ensures
        !requests.pending.contains(requests.submit().submitted),
        requests.submit().pending.contains(requests.submit().submitted),
        requests.submit().submitted > requests.submitted,
        requests.submit().wf(),
        requests.submit().pending.len() == requests.pending.len() + 1,
{
}

/// Completing a new request leaves the outstanding ones as they were before it.
pub proof fn law_completion_undoes_submission(requests: QueueModel)
    requires
        requests.wf(),
        requests.submitted < u64::MAX,
    ensures
        requests.submit().complete(requests.submit().submitted).pending == requests.pending,
{
    assert(requests.submit().complete(requests.submit().submitted).pending =~= requests.pending);
}

/// Requests complete in any order with the same outcome, and completing one again
/// changes nothing.
pub proof fn law_completions_commute(requests: QueueModel, a: u64, b: u64)
    ensures
        requests.complete(a).complete(b) == requests.complete(b).complete(a),
        requests.complete(a).complete(a) == requests.complete(a),
{
    assert(requests.complete(a).complete(b) =~= requests.complete(b).complete(a));
    assert(requests.complete(a).complete(a) =~= requests.complete(a));
}

/// Closing requests one queue after the other is closing them all.
pub proof fn law_closing_is_cumulative<T: Accounting>(
    first: Seq<EntryModel<T>>,
    second: Seq<EntryModel<T>>,
    books: T::Model,
)
    ensures
        queue::close_all(first + second, books) == queue::close_all(
            second,
            queue::close_all(first, books),
        ),
    decreases second.len(),
{
    if second.len() == 0 {
        assert(first + second =~= first);
    } else {
        law_closing_is_cumulative(first, second.drop_last(), books);
        assert((first + second).drop_last() =~= first + second.drop_last());
    }
}

/// The outstanding requests of a class, by the counters: those queued, less those
/// drained and discarded. The counters wrap around, and so does this.
pub open spec fn outstanding(books: VramModel, class: ResourceClass) -> int {
    (books.counters.queued(class) - books.counters.drained(class) - books.counters.discarded(
        class,
    )) % 0x1_0000_0000_0000_0000
}

/// The counters agree with the requests that are pending.
pub open spec fn balanced(books: VramModel) -> bool {
    forall|class: ResourceClass| #[trigger]
        outstanding(books, class) == books.trackers.get(class).pending.len()
            % 0x1_0000_0000_0000_0000
}

/// The books that nothing was entered in are balanced.
pub proof fn law_books_start_balanced(trace: bool)
    ensures
        balanced(VramModel::start(trace)),
        VramModel::start(trace).wf(),
{
    assert forall|class: ResourceClass| #[trigger]
        outstanding(VramModel::start(trace), class) == VramModel::start(trace).trackers.get(
            class,
        ).pending.len() % 0x1_0000_0000_0000_0000 by {}
}

/// What queueing a resource does to the books on one class.
proof fn lemma_queueing(books: VramModel, resource: CleanupResource, class: ResourceClass)
    ensures
        ({
            let after = resource.after_queued(books);
            let own = class == resource.class();
            let requests = books.trackers.get(class);
            &&& after.trackers.get(class) == if own {
                requests.submit()
            } else {
                requests
            }
            &&& after.counters.queued(class) == if own {
                counters::tick(books.counters.queued(class))
            } else {
                books.counters.queued(class)
            }
            &&& after.counters.drained(class) == books.counters.drained(class)
            &&& after.counters.discarded(class) == books.counters.discarded(class)
        }),
{
    let requests = books.trackers.get(resource.class()).submit();
    counters::lemma_counting(books.counters, resource.class(), class);
    counters::lemma_setting(books.trackers, resource.class(), requests, class);
}

/// What closing a request does to the books on one class.
proof fn lemma_closing(
    books: VramModel,
    entry: EntryModel<CleanupResource>,
    class: ResourceClass,
)
    ensures
        ({
            let after = entry.close(books);
            let own = class == entry.resource.class();
            let requests = books.trackers.get(class);
            &&& after.trackers.get(class) == if own {
                requests.complete(entry.sequence)
            } else {
                requests
            }
            &&& after.counters.discarded(class) == if own && !entry.delivered {
                counters::tick(books.counters.discarded(class))
            } else {
                books.counters.discarded(class)
            }
            &&& after.counters.queued(class) == books.counters.queued(class)
            &&& after.counters.drained(class) == books.counters.drained(class)
        }),
{
    let requests = books.trackers.get(entry.resource.class()).complete(entry.sequence);
    counters::lemma_counting(books.counters, entry.resource.class(), class);
    counters::lemma_setting(books.trackers, entry.resource.class(), requests, class);
}

/// One request less is outstanding once it is counted as drained or as discarded.
proof fn lemma_one_less(queued: u64, drained: u64, discarded: u64, pending: nat)
    requires
        (queued - drained - discarded) % 0x1_0000_0000_0000_0000 == pending
            % 0x1_0000_0000_0000_0000,
    ensures
        (queued - counters::tick(drained) - discarded) % 0x1_0000_0000_0000_0000 == (pending - 1)
            % 0x1_0000_0000_0000_0000,
        (queued - drained - counters::tick(discarded)) % 0x1_0000_0000_0000_0000 == (pending - 1)
            % 0x1_0000_0000_0000_0000,
{
}

/// Sending a request keeps the books balanced.
pub proof fn law_sending_keeps_the_balance(books: VramModel, resource: CleanupResource)
    requires
        books.wf(),
        balanced(books),
        resource.has_room(books),
    ensures
        balanced(resource.after_queued(books)),
        resource.after_queued(books).trackers.get(resource.class()).pending.contains(
            resource.next_sequence(books),
        ),
{
    let after = resource.after_queued(books);
    assert forall|class: ResourceClass| #[trigger]
        outstanding(after, class) == after.trackers.get(class).pending.len()
            % 0x1_0000_0000_0000_0000 by {
        assert(outstanding(books, class) == books.trackers.get(class).pending.len()
            % 0x1_0000_0000_0000_0000);
        assert(books.trackers.get(class).wf());
        lemma_queueing(books, resource, class);
        if class == resource.class() {
            law_sequence_numbers_are_fresh(books.trackers.get(class));
        }
    }
    lemma_queueing(books, resource, resource.class());
}

/// Discarding a pending request keeps the books balanced: it is counted as
/// discarded once, and is no longer pending.
pub proof fn law_discarding_keeps_the_balance(
    books: VramModel,
    entry: EntryModel<CleanupResource>,
)
    requires
        books.wf(),
        balanced(books),
        !entry.delivered,
        books.trackers.get(entry.resource.class()).pending.contains(entry.sequence),
    ensures
        balanced(entry.close(books)),
        entry.close(books).counters == books.counters.count_discarded(entry.resource.class()),
{
    let after = entry.close(books);
    assert forall|class: ResourceClass| #[trigger]
        outstanding(after, class) == after.trackers.get(class).pending.len()
            % 0x1_0000_0000_0000_0000 by {
        assert(outstanding(books, class) == books.trackers.get(class).pending.len()
            % 0x1_0000_0000_0000_0000);
        assert(books.trackers.get(class).wf());
        lemma_one_less(
            books.counters.queued(class),
            books.counters.drained(class),
            books.counters.discarded(class),
            books.trackers.get(class).pending.len(),
        );
        lemma_closing(books, entry, class);
    }
}

/// Carrying out a received request keeps the books balanced, and counts nothing as
/// discarded.
pub proof fn law_draining_keeps_the_balance(
    books: VramModel,
    entry: EntryModel<CleanupResource>,
)
    requires
        books.wf(),
        balanced(books),
        entry.delivered,
        books.trackers.get(entry.resource.class()).pending.contains(entry.sequence),
    ensures
        balanced(
            entry.close(
                books.with_counters(books.counters.count_drained(entry.resource.class())),
            ),
        ),
        forall|class: ResourceClass|
            entry.close(
                books.with_counters(books.counters.count_drained(entry.resource.class())),
            ).counters.discarded(class) == #[trigger] books.counters.discarded(class),
{
    let drained = books.with_counters(books.counters.count_drained(entry.resource.class()));
    let after = entry.close(drained);
    assert forall|class: ResourceClass| #[trigger]
        outstanding(after, class) == after.trackers.get(class).pending.len()
            % 0x1_0000_0000_0000_0000 by {
        assert(outstanding(books, class) == books.trackers.get(class).pending.len()
            % 0x1_0000_0000_0000_0000);
        assert(books.trackers.get(class).wf());
        lemma_one_less(
            books.counters.queued(class),
            books.counters.drained(class),
            books.counters.discarded(class),
            books.trackers.get(class).pending.len(),
        );
        lemma_closing(drained, entry, class);
        counters::lemma_counting(books.counters, entry.resource.class(), class);
    }
    assert forall|class: ResourceClass| after.counters.discarded(class)
        == #[trigger] books.counters.discarded(class) by {
        lemma_closing(drained, entry, class);
        counters::lemma_counting(books.counters, entry.resource.class(), class);
    }
}

/// A request that a retired queue rejects is counted as queued once and as
/// discarded once, and leaves nothing outstanding behind.
pub proof fn law_rejected_requests_are_discarded_once(
    books: VramModel,
    resource: CleanupResource,
)
    requires
        books.wf(),
        balanced(books),
        resource.has_room(books),
    ensures
        ({
            let class = resource.class();
            let entry = EntryModel {
                resource,
                sequence: resource.next_sequence(books),
                delivered: false,
            };
            let after = entry.close(resource.after_queued(books));
            &&& balanced(after)
            &&& after.counters == books.counters.count_queued(class).count_discarded(class)
            &&& after.trackers.get(class).pending == books.trackers.get(class).pending
            &&& after.trackers.get(class).submitted == books.trackers.get(class).submitted + 1
        }),
{
    let class = resource.class();
    let queued = resource.after_queued(books);
    let entry = EntryModel {
        resource,
        sequence: resource.next_sequence(books),
        delivered: false,
    };
    assert(books.trackers.get(class).wf());
    law_sending_keeps_the_balance(books, resource);
    lemma_queueing_keeps_order(books, resource);
    law_discarding_keeps_the_balance(queued, entry);
    law_completion_undoes_submission(books.trackers.get(class));
    lemma_queueing(books, resource, class);
    lemma_closing(queued, entry, class);
}

/// Queueing keeps the trackers in order.
proof fn lemma_queueing_keeps_order(books: VramModel, resource: CleanupResource)
    requires
        books.wf(),
        resource.has_room(books),
    ensures
        resource.after_queued(books).wf(),
{
    let after = resource.after_queued(books);
    assert forall|class: ResourceClass| (#[trigger] after.trackers.get(class)).wf() by {
        lemma_queueing(books, resource, class);
        assert(books.trackers.get(class).wf());
    }
}

/// Closing a request keeps the trackers in order.
proof fn lemma_closing_keeps_order(books: VramModel, entry: EntryModel<CleanupResource>)
    requires
        books.wf(),
    ensures
        entry.close(books).wf(),
{
    let after = entry.close(books);
    assert forall|class: ResourceClass| (#[trigger] after.trackers.get(class)).wf() by {
        lemma_closing(books, entry, class);
        assert(books.trackers.get(class).wf());
    }
}

/// The request is pending.
pub open spec fn is_pending(books: VramModel, entry: EntryModel<CleanupResource>) -> bool {
    books.trackers.get(entry.resource.class()).pending.contains(entry.sequence)
}

/// `a` and `b` are different requests.
pub open spec fn differ(
    a: EntryModel<CleanupResource>,
    b: EntryModel<CleanupResource>,
) -> bool {
    a.resource.class() != b.resource.class() || a.sequence != b.sequence
}

/// `entries` are different requests, all of them pending.
pub open spec fn all_pending(
    books: VramModel,
    entries: Seq<EntryModel<CleanupResource>>,
) -> bool {
    &&& forall|i: int| 0 <= i < entries.len() ==> is_pending(books, #[trigger] entries[i])
    &&& forall|i: int, j: int|
        0 <= i < j < entries.len() ==> differ(#[trigger] entries[i], #[trigger] entries[j])
}

/// A request that is sent is pending, and different from all that were pending
/// before.
pub proof fn law_sent_requests_are_pending(
    books: VramModel,
    entries: Seq<EntryModel<CleanupResource>>,
    resource: CleanupResource,
)
    requires
        books.wf(),
        all_pending(books, entries),
        resource.has_room(books),
    ensures
        all_pending(
            resource.after_queued(books),
            entries.push(
                EntryModel { resource, sequence: resource.next_sequence(books), delivered: false },
            ),
        ),
{
    let after = resource.after_queued(books);
    let entry = EntryModel { resource, sequence: resource.next_sequence(books), delivered: false };
    let more = entries.push(entry);
    let requests = books.trackers.get(resource.class());
    assert(requests.wf());
    law_sequence_numbers_are_fresh(requests);
    assert forall|i: int| 0 <= i < more.len() implies is_pending(after, #[trigger] more[i]) by {
        lemma_queueing(books, resource, more[i].resource.class());
        if i < entries.len() {
            assert(is_pending(books, entries[i]));
        }
    }
    assert forall|i: int, j: int| 0 <= i < j < more.len() implies differ(
        #[trigger] more[i],
        #[trigger] more[j],
    ) by {
        assert(is_pending(books, entries[i]));
        if j < entries.len() {
            assert(differ(entries[i], entries[j]));
        }
    }
}

/// Closing a request leaves every other one pending.
pub proof fn law_closing_leaves_the_others(
    books: VramModel,
    entry: EntryModel<CleanupResource>,
    other: EntryModel<CleanupResource>,
)
    requires
        is_pending(books, other),
        differ(entry, other),
    ensures
        is_pending(entry.close(books), other),
        !is_pending(entry.close(books), entry),
{
    lemma_closing(books, entry, entry.resource.class());
    lemma_closing(books, entry, other.resource.class());
}

/// A request that is received stays pending until it is closed.
pub proof fn law_received_requests_stay_pending(
    books: VramModel,
    entry: EntryModel<CleanupResource>,
)
    requires
        is_pending(books, entry),
    ensures
        is_pending(books, entry.deliver()),
        !is_pending(entry.deliver().close(books), entry),
{
    lemma_closing(books, entry.deliver(), entry.resource.class());
}

/// How many of `entries` are requests of this class.
pub open spec fn of_class(
    entries: Seq<EntryModel<CleanupResource>>,
    class: ResourceClass,
) -> nat
    decreases entries.len(),
{
    if entries.len() == 0 {
        0
    } else {
        let before = of_class(entries.drop_last(), class);
        if entries.last().resource.class() == class {
            before + 1
        } else {
            before
        }
    }
}

/// When a queue retires with `entries` waiting in it, each of them is counted as
/// discarded once and is no longer pending, all others stay pending, and the books
/// stay balanced.
pub proof fn law_retirement_discards_every_waiting_request(
    books: VramModel,
    entries: Seq<EntryModel<CleanupResource>>,
    others: Seq<EntryModel<CleanupResource>>,
)
    requires
        books.wf(),
        balanced(books),
        all_pending(books, entries + others),
        forall|i: int| 0 <= i < entries.len() ==> !(#[trigger] entries[i]).delivered,
    ensures
        ({
            let after = queue::close_all(entries, books);
            &&& after.wf()
            &&& balanced(after)
            &&& all_pending(after, others)
            &&& forall|i: int|
                0 <= i < entries.len() ==> !is_pending(after, #[trigger] entries[i])
            &&& forall|class: ResourceClass|
                {
                    &&& #[trigger] after.counters.discarded(class) as int == (
                    books.counters.discarded(class) + of_class(entries, class))
                        % 0x1_0000_0000_0000_0000
                    &&& after.counters.queued(class) == books.counters.queued(class)
                    &&& after.counters.drained(class) == books.counters.drained(class)
                }
        }),
    decreases entries.len(),
{
    let all = entries + others;
    if entries.len() == 0 {
        assert(all =~= others);
        assert forall|class: ResourceClass|
            {
                &&& #[trigger] books.counters.discarded(class) as int == (
                books.counters.discarded(class) + of_class(entries, class))
                    % 0x1_0000_0000_0000_0000
            } by {}
    } else {
        let n = entries.len() - 1;
        let entry = entries[n];
        let rest = seq![entry] + others;
        let fewer = entries.drop_last();
        assert(fewer + rest =~= all);
        law_retirement_discards_every_waiting_request(books, fewer, rest);
        let then = queue::close_all(fewer, books);
        let after = entry.close(then);
        assert(rest[0] == entry);
        assert(is_pending(then, rest[0]));
        law_discarding_keeps_the_balance(then, entry);
        lemma_closing_keeps_order(then, entry);
        assert forall|i: int| 0 <= i < others.len() implies is_pending(
            after,
            #[trigger] others[i],
        ) by {
            assert(rest[i + 1] == others[i]);
            assert(differ(rest[0], rest[i + 1]));
            law_closing_leaves_the_others(then, entry, others[i]);
        }
        assert forall|i: int, j: int| 0 <= i < j < others.len() implies differ(
            #[trigger] others[i],
            #[trigger] others[j],
        ) by {
            assert(rest[i + 1] == others[i] && rest[j + 1] == others[j]);
        }
        assert forall|i: int| 0 <= i < entries.len() implies !is_pending(
            after,
            #[trigger] entries[i],
        ) by {
            lemma_closing(then, entry, entries[i].resource.class());
            if i < n {
                assert(fewer[i] == entries[i]);
                assert(!is_pending(then, fewer[i]));
            }
        }
        assert forall|class: ResourceClass|
            {
                &&& #[trigger] after.counters.discarded(class) as int == (
                books.counters.discarded(class) + of_class(entries, class))
                    % 0x1_0000_0000_0000_0000
                &&& after.counters.queued(class) == books.counters.queued(class)
                &&& after.counters.drained(class) == books.counters.drained(class)
            } by {
            lemma_closing(then, entry, class);
            assert(then.counters.discarded(class) as int == (books.counters.discarded(class)
                + of_class(fewer, class)) % 0x1_0000_0000_0000_0000);
        }
    }
}

/// What can be entered in the books.
pub enum Event {
    /// A cleanup request was sent, to whichever queue.
    Queued(CleanupResource),
    /// A cleanup request of this class was counted as carried out.
    Drained(ResourceClass),
    /// A cleanup request was closed: received before, or else dropped or rejected.
    Closed(EntryModel<CleanupResource>),
    /// An object other than a handle came or went, or a handle was freed because
    /// binding it failed on import.
    Counted(ObjectCounter),
    /// An `EGLImage` handle was created at this place.
    ImageCreated(usize, Arc<Backtrace>),
    /// An `EGLImage` handle was destroyed.
    ImageDestroyed(usize),
}

impl Event {
    /// It can happen.
    pub open spec fn can_happen(self, books: VramModel) -> bool {
        match self {
            Event::Queued(resource) => resource.has_room(books),
            Event::Closed(entry) => is_pending(books, entry),
            _ => true,
        }
    }

    /// The books once it has been entered.
    pub open spec fn apply(self, books: VramModel) -> VramModel {
        match self {
            Event::Queued(resource) => resource.after_queued(books),
            Event::Drained(class) => books.with_counters(books.counters.count_drained(class)),
            Event::Closed(entry) => entry.close(books),
            Event::Counted(counter) => books.with_counters(books.counters.count_object(counter)),
            Event::ImageCreated(handle, site) => books.image_created(handle, site),
            Event::ImageDestroyed(handle) => books.image_destroyed(handle),
        }
    }

    /// It is an event for this counter.
    pub open spec fn records(self, counter: Counter) -> bool {
        match self {
            Event::Queued(resource) => counter == Counter::Queued(resource.class()),
            Event::Drained(class) => counter == Counter::Drained(class),
            Event::Closed(entry) => {
                !entry.delivered && counter == Counter::Discarded(entry.resource.class())
            },
            Event::Counted(object) => counter == Counter::Object(object),
            Event::ImageCreated(_, _) => {
                counter == Counter::Object(ObjectCounter::EglImagesCreated)
            },
            Event::ImageDestroyed(_) => {
                counter == Counter::Object(ObjectCounter::EglImagesDestroyed)
            },
        }
    }

    /// A received request of this class was closed.
    pub open spec fn finishes(self, class: ResourceClass) -> bool {
        self matches Event::Closed(entry) && entry.delivered && entry.resource.class() == class
    }
}

/// The books after all of `events`.
pub open spec fn after_all(books: VramModel, events: Seq<Event>) -> VramModel
    decreases events.len(),
{
    if events.len() == 0 {
        books
    } else {
        events.last().apply(after_all(books, events.drop_last()))
    }
}

/// Each of `events` can happen after those before it.
pub open spec fn can_all_happen(books: VramModel, events: Seq<Event>) -> bool
    decreases events.len(),
{
    events.len() > 0 ==> {
        &&& can_all_happen(books, events.drop_last())
        &&& events.last().can_happen(after_all(books, events.drop_last()))
    }
}

/// How many of `events` are events for this counter.
pub open spec fn recordings(events: Seq<Event>, counter: Counter) -> nat
    decreases events.len(),
{
    if events.len() == 0 {
        0
    } else {
        let before = recordings(events.drop_last(), counter);
        if events.last().records(counter) {
            before + 1
        } else {
            before
        }
    }
}

/// How many of `events` close a received request of this class.
pub open spec fn completions(events: Seq<Event>, class: ResourceClass) -> nat
    decreases events.len(),
{
    if events.len() == 0 {
        0
    } else {
        let before = completions(events.drop_last(), class);
        if events.last().finishes(class) {
            before + 1
        } else {
            before
        }
    }
}

/// What one event does to one counter.
proof fn lemma_recording(books: VramModel, event: Event, counter: Counter)
    ensures
        event.apply(books).counters.read(counter) == if event.records(counter) {
            counters::tick(books.counters.read(counter))
        } else {
            books.counters.read(counter)
        },
{
    let counted = match event {
        Event::Queued(resource) => Counter::Queued(resource.class()),
        Event::Drained(class) => Counter::Drained(class),
        Event::Closed(entry) => Counter::Discarded(entry.resource.class()),
        Event::Counted(object) => Counter::Object(object),
        Event::ImageCreated(_, _) => Counter::Object(ObjectCounter::EglImagesCreated),
        Event::ImageDestroyed(_) => Counter::Object(ObjectCounter::EglImagesDestroyed),
    };
    counters::lemma_reading(books.counters, counted, counter);
}

/// Between any two snapshots every counter grows by the number of its own events. It
/// wraps around, so it is their sum as long as that fits.
pub proof fn law_every_counter_is_a_total(books: VramModel, events: Seq<Event>, counter: Counter)
    ensures
        ({
            let before = books.counters.read(counter);
            let after = after_all(books, events).counters.read(counter);
            let n = recordings(events, counter);
            &&& after as int == (before + n) % 0x1_0000_0000_0000_0000
            &&& before + n <= u64::MAX ==> after == before + n
        }),
    decreases events.len(),
{
    if events.len() > 0 {
        let then = after_all(books, events.drop_last());
        law_every_counter_is_a_total(books, events.drop_last(), counter);
        lemma_recording(then, events.last(), counter);
    }
}

/// In the books that nothing was entered in every counter is zero.
pub proof fn law_counters_start_at_zero(trace: bool, counter: Counter)
    ensures
        VramModel::start(trace).counters.read(counter) == 0,
{
}

/// Two snapshots with no event for any counter between them agree in every field.
pub proof fn law_snapshots_without_events_agree(books: VramModel, events: Seq<Event>)
    requires
        forall|counter: Counter| #[trigger] recordings(events, counter) == 0,
    ensures
        after_all(books, events).counters == books.counters,
{
    let after = after_all(books, events);
    assert forall|counter: Counter| #[trigger] after.counters.read(counter)
        == books.counters.read(counter) by {
        law_every_counter_is_a_total(books, events, counter);
        assert(recordings(events, counter) == 0);
    }
    counters::lemma_counters_are_what_is_read(after.counters, books.counters);
}

/// From the start on, the counters of a class are the totals of what has happened: of
/// the requests sent, with the rejected ones; of those carried out; and of those
/// rejected or dropped. Those that were neither discarded nor received and closed are
/// pending. So if each that was received is counted as carried out, the difference of
/// the counters is the number of requests that are pending.
pub proof fn law_counters_are_totals(trace: bool, events: Seq<Event>, class: ResourceClass)
    requires
        can_all_happen(VramModel::start(trace), events),
    ensures
        ({
            let after = after_all(VramModel::start(trace), events);
            let n = recordings(events, Counter::Queued(class));
            let k = recordings(events, Counter::Drained(class));
            let m = recordings(events, Counter::Discarded(class));
            let pending = after.trackers.get(class).pending.len();
            &&& after.wf()
            &&& after.counters.queued(class) == n
            &&& k <= u64::MAX ==> after.counters.drained(class) == k
            &&& after.counters.discarded(class) == m
            &&& after.trackers.get(class).submitted == n
            &&& pending == n - completions(events, class) - m
            &&& k == completions(events, class) ==> pending == after.counters.queued(class)
                - after.counters.drained(class) - after.counters.discarded(class)
        }),
    decreases events.len(),
{
    let start = VramModel::start(trace);
    law_every_counter_is_a_total(start, events, Counter::Queued(class));
    law_every_counter_is_a_total(start, events, Counter::Drained(class));
    law_every_counter_is_a_total(start, events, Counter::Discarded(class));
    if events.len() == 0 {
        law_books_start_balanced(trace);
    } else {
        let before = after_all(start, events.drop_last());
        law_counters_are_totals(trace, events.drop_last(), class);
        assert(before.trackers.get(class).wf());
        match events.last() {
            Event::Queued(resource) => {
                lemma_queueing(before, resource, class);
                lemma_queueing_keeps_order(before, resource);
            },
            Event::Closed(entry) => {
                lemma_closing(before, entry, class);
                lemma_closing_keeps_order(before, entry);
            },
            _ => {},
        }
    }
}

/// A handle that is created and destroyed again is counted both times, and leaves
/// no trace of where it was created.
pub proof fn law_destruction_undoes_the_trace_of_creation(
    books: VramModel,
    handle: usize,
    site: Arc<Backtrace>,
)
    requires
        books.wf(),
        !books.images.contains_key(handle),
    ensures
        ({
            let after = books.image_created(handle, site).image_destroyed(handle);
            &&& after.images == books.images
            &&& after.counters.egl_images_created == counters::tick(
                books.counters.egl_images_created,
            )
            &&& after.counters.egl_images_destroyed == counters::tick(
                books.counters.egl_images_destroyed,
            )
        }),
{
    reveal(VramCounters::count_object);
    assert(books.image_created(handle, site).image_destroyed(handle).images =~= books.images);
}

/// A handle that was created and not destroyed shows where it was created, if that
/// is traced; nothing shows otherwise.
pub proof fn law_living_handles_show_their_site(
    books: VramModel,
    handle: usize,
    site: Arc<Backtrace>,
    other: usize,
)
    requires
        books.wf(),
        other != handle,
    ensures
        ({
            let after = books.image_created(handle, site).image_destroyed(other);
            &&& books.trace ==> after.images.contains_key(handle) && after.images[handle] == site
            &&& !books.trace ==> after.images.dom().is_empty()
        }),
{
}

/// The number that follows in 64 bits.
pub open spec fn next(n: u64) -> u64 {
    if n < 0xffff_ffff_ffff_ffff {
        (n + 1) as u64
    } else {
        0
    }
}

/// A request that is sent adds one to the queued ones of its own kind, and to no other
/// counter.
pub proof fn law_sent_requests_count_for_their_kind(books: VramModel, resource: CleanupResource)
    ensures
        ({
            let before = books.counters;
            resource.after_queued(books).counters == match resource {
                CleanupResource::Texture(_) => VramCounters {
                    queued_texture: next(before.queued_texture),
                    ..before
                },
                CleanupResource::FramebufferObject(_) => VramCounters {
                    queued_framebuffer: next(before.queued_framebuffer),
                    ..before
                },
                CleanupResource::RenderbufferObject(_) => VramCounters {
                    queued_renderbuffer: next(before.queued_renderbuffer),
                    ..before
                },
                CleanupResource::EGLImage(_) => VramCounters {
                    queued_egl_image: next(before.queued_egl_image),
                    ..before
                },
                CleanupResource::Mapping(_, _) => VramCounters {
                    queued_mapping: next(before.queued_mapping),
                    ..before
                },
                CleanupResource::Program(_) => VramCounters {
                    queued_program: next(before.queued_program),
                    ..before
                },
                CleanupResource::Sync(_) => VramCounters {
                    queued_sync: next(before.queued_sync),
                    ..before
                },
            }
        }),
        resource.after_queued(books).images == books.images,
        resource.after_queued(books).trace == books.trace,
{
    reveal(VramCounters::count_queued);
}

/// A request that is discarded adds one to the discarded ones of its own kind, and to no other
/// counter.
pub proof fn law_discarded_requests_count_for_their_kind(
    books: VramModel,
    resource: CleanupResource,
)
    ensures
        ({
            let before = books.counters;
            resource.after_discarded(books).counters == match resource {
                CleanupResource::Texture(_) => VramCounters {
                    discarded_texture: next(before.discarded_texture),
                    ..before
                },
                CleanupResource::FramebufferObject(_) => VramCounters {
                    discarded_framebuffer: next(before.discarded_framebuffer),
                    ..before
                },
                CleanupResource::RenderbufferObject(_) => VramCounters {
                    discarded_renderbuffer: next(before.discarded_renderbuffer),
                    ..before
                },
                CleanupResource::EGLImage(_) => VramCounters {
                    discarded_egl_image: next(before.discarded_egl_image),
                    ..before
                },
                CleanupResource::Mapping(_, _) => VramCounters {
                    discarded_mapping: next(before.discarded_mapping),
                    ..before
                },
                CleanupResource::Program(_) => VramCounters {
                    discarded_program: next(before.discarded_program),
                    ..before
                },
                CleanupResource::Sync(_) => VramCounters {
                    discarded_sync: next(before.discarded_sync),
                    ..before
                },
            }
        }),
        resource.after_discarded(books).trackers == books.trackers,
        resource.after_discarded(books).images == books.images,
        resource.after_discarded(books).trace == books.trace,
{
    reveal(VramCounters::count_discarded);
}

/// A request that is carried out adds one to the drained ones of its own kind, and to no other
/// counter.
pub proof fn law_drained_requests_count_for_their_kind(before: VramCounters, class: ResourceClass)
    ensures
        before.count_drained(class) == match class {
            ResourceClass::Texture => VramCounters {
                drained_texture: next(before.drained_texture),
                ..before
            },
            ResourceClass::Framebuffer => VramCounters {
                drained_framebuffer: next(before.drained_framebuffer),
                ..before
            },
            ResourceClass::Renderbuffer => VramCounters {
                drained_renderbuffer: next(before.drained_renderbuffer),
                ..before
            },
            ResourceClass::EglImage => VramCounters {
                drained_egl_image: next(before.drained_egl_image),
                ..before
            },
            ResourceClass::Mapping => VramCounters {
                drained_mapping: next(before.drained_mapping),
                ..before
            },
            ResourceClass::Program => VramCounters {
                drained_program: next(before.drained_program),
                ..before
            },
            ResourceClass::Sync => VramCounters {
                drained_sync: next(before.drained_sync),
                ..before
            },
        },
{
    reveal(VramCounters::count_drained);
}

/// An object that is counted adds one to its own counter, and to no other.
pub proof fn law_objects_count_for_their_counter(before: VramCounters, counter: ObjectCounter)
    ensures
        before.count_object(counter) == match counter {
            ObjectCounter::TexturesCreated => VramCounters {
                textures_created: next(before.textures_created),
                ..before
            },
            ObjectCounter::TexturesDestroyed => VramCounters {
                textures_destroyed: next(before.textures_destroyed),
                ..before
            },
            ObjectCounter::EglImagesCreated => VramCounters {
                egl_images_created: next(before.egl_images_created),
                ..before
            },
            ObjectCounter::EglImagesDestroyed => VramCounters {
                egl_images_destroyed: next(before.egl_images_destroyed),
                ..before
            },
            ObjectCounter::EglImagesFreedOnImportError => VramCounters {
                egl_images_freed_on_import_error: next(before.egl_images_freed_on_import_error),
                ..before
            },
            ObjectCounter::RenderbuffersCreated => VramCounters {
                renderbuffers_created: next(before.renderbuffers_created),
                ..before
            },
            ObjectCounter::RenderbuffersDestroyed => VramCounters {
                renderbuffers_destroyed: next(before.renderbuffers_destroyed),
                ..before
            },
            ObjectCounter::BuffersCreated => VramCounters {
                buffers_created: next(before.buffers_created),
                ..before
            },
            ObjectCounter::BuffersDestroyed => VramCounters {
                buffers_destroyed: next(before.buffers_destroyed),
                ..before
            },
            ObjectCounter::FramebuffersCreated => VramCounters {
                framebuffers_created: next(before.framebuffers_created),
                ..before
            },
            ObjectCounter::FramebuffersDestroyed => VramCounters {
                framebuffers_destroyed: next(before.framebuffers_destroyed),
                ..before
            },
        },
{
    reveal(VramCounters::count_object);
}

/// Every resource is of its own kind.
pub proof fn law_resources_are_of_their_kind(resource: CleanupResource)
    ensures
        resource.class() == match resource {
            CleanupResource::Texture(_) => ResourceClass::Texture,
            CleanupResource::FramebufferObject(_) => ResourceClass::Framebuffer,
            CleanupResource::RenderbufferObject(_) => ResourceClass::Renderbuffer,
            CleanupResource::EGLImage(_) => ResourceClass::EglImage,
            CleanupResource::Mapping(_, _) => ResourceClass::Mapping,
            CleanupResource::Program(_) => ResourceClass::Program,
            CleanupResource::Sync(_) => ResourceClass::Sync,
        },
{
}

/// A request that is finished is no longer pending, and no other request or counter changes.
pub proof fn law_finished_requests_are_not_pending(
    books: VramModel,
    resource: CleanupResource,
    sequence: u64,
    class: ResourceClass,
    other: u64,
)
    ensures
        ({
            let after = resource.after_finished(books, sequence);
            let own = class == resource.class();
            &&& after.counters == books.counters
            &&& after.images == books.images
            &&& after.trace == books.trace
            &&& after.trackers.get(class).submitted == books.trackers.get(class).submitted
            &&& after.trackers.get(class).pending.contains(other) <==> books.trackers.get(
                class,
            ).pending.contains(other) && !(own && other == sequence)
        }),
{
    counters::lemma_setting(
        books.trackers,
        resource.class(),
        books.trackers.get(resource.class()).complete(sequence),
        class,
    );
}

/// A request gets the number after the last one of its kind, and is pending under it.
pub proof fn law_sent_requests_are_numbered_by_kind(
    books: VramModel,
    resource: CleanupResource,
    class: ResourceClass,
    other: u64,
)
    requires
        books.trackers.get(resource.class()).submitted < u64::MAX,
    ensures
        ({
            let after = resource.after_queued(books);
            let own = class == resource.class();
            let last = books.trackers.get(class).submitted;
            &&& resource.next_sequence(books) == books.trackers.get(resource.class()).submitted + 1
            &&& after.trackers.get(class).submitted == if own {
                last + 1
            } else {
                last as int
            }
            &&& after.trackers.get(class).pending.contains(other) <==> books.trackers.get(
                class,
            ).pending.contains(other) || (own && other == last + 1)
        }),
{
    counters::lemma_setting(
        books.trackers,
        resource.class(),
        books.trackers.get(resource.class()).submit(),
        class,
    );
}

/// A request that was received is finished and nothing more. One that was not is discarded
/// first. Requests are closed one after the other.
pub proof fn law_requests_are_discarded_unless_received<T: Accounting>(
    entry: EntryModel<T>,
    entries: Seq<EntryModel<T>>,
    books: T::Model,
)
    ensures
        entry.delivered ==> entry.close(books) == entry.resource.after_finished(
            books,
            entry.sequence,
        ),
        !entry.delivered ==> entry.close(books) == entry.resource.after_finished(
            entry.resource.after_discarded(books),
            entry.sequence,
        ),
        queue::close_all(Seq::<EntryModel<T>>::empty(), books) == books,
        queue::close_all(entries.push(entry), books) == entry.close(
            queue::close_all(entries, books),
        ),
        entry.deliver().delivered,
        entry.deliver().resource == entry.resource,
        entry.deliver().sequence == entry.sequence,
{
    assert(entries.push(entry).drop_last() =~= entries);
}

/// A submission has the next number, and is pending besides those that were. A completion
/// takes exactly the one request from those that are pending. At the start there is none.
pub proof fn law_requests_are_pending_from_submission_to_completion(
    requests: QueueModel,
    sequence: u64,
    other: u64,
)
    ensures
        requests.submitted < u64::MAX ==> requests.submit().submitted == requests.submitted + 1,
        requests.submitted < u64::MAX ==> (requests.submit().pending.contains(other)
            <==> requests.pending.contains(other) || other == requests.submitted + 1),
        requests.complete(sequence).submitted == requests.submitted,
        requests.complete(sequence).pending.contains(other) <==> requests.pending.contains(other)
            && other != sequence,
        QueueModel::start().submitted == 0,
        !QueueModel::start().pending.contains(other),
{
}

/// A snapshot tells the last number that was submitted, how many requests are pending, and the
/// smallest number of those, or zero if there are none.
pub proof fn law_snapshots_tell_the_oldest_request(requests: QueueModel, snapshot: QueueSnapshot)
    requires
        requests.wf(),
        requests.reported_by(snapshot),
    ensures
        snapshot.submitted == requests.submitted,
        snapshot.pending == requests.pending.len(),
        requests.pending.len() == 0 ==> snapshot.oldest == 0,
        requests.pending.len() > 0 ==> requests.pending.contains(snapshot.oldest),
        forall|sequence: u64| #[trigger]
            requests.pending.contains(sequence) ==> snapshot.oldest <= sequence,
{
    if requests.pending.len() == 0 {
        assert(requests.pending =~= Set::empty());
    } else if requests.pending.is_empty() {
        assert(requests.pending =~= Set::empty());
    }
}

/// A handle that is created adds one to its counter, and is noted with the place where that is
/// traced. One that is destroyed adds one to its counter, and is no longer noted. Nothing else
/// changes.
pub proof fn law_handles_are_noted_while_they_live(
    books: VramModel,
    handle: usize,
    site: Arc<Backtrace>,
    other: usize,
)
    requires
        books.wf(),
    ensures
        ({
            let before = books.counters;
            let after = books.image_created(handle, site);
            &&& after.counters == VramCounters {
                egl_images_created: next(before.egl_images_created),
                ..before
            }
            &&& after.trackers == books.trackers
            &&& after.trace == books.trace
            &&& after.images.contains_key(other) <==> books.images.contains_key(other) || (
            books.trace && other == handle)
            &&& after.images.contains_key(other) ==> after.images[other] == if other == handle {
                site
            } else {
                books.images[other]
            }
        }),
        ({
            let before = books.counters;
            let after = books.image_destroyed(handle);
            &&& after.counters == VramCounters {
                egl_images_destroyed: next(before.egl_images_destroyed),
                ..before
            }
            &&& after.trackers == books.trackers
            &&& after.trace == books.trace
            &&& after.images.contains_key(other) <==> books.images.contains_key(other) && other
                != handle
            &&& after.images.contains_key(other) ==> after.images[other] == books.images[other]
        }),
{
    reveal(VramCounters::count_object);
}

/// Of the rows for different handles, one at most is about a handle.
proof fn lemma_rows_about_a_handle(
    images: Map<usize, Arc<Backtrace>>,
    handles: Seq<usize>,
    handle: usize,
)
    requires
        handles.no_duplicates(),
    ensures
        handles.map_values(|handle: usize| (handle, images[handle])).filter(
            |row: (usize, Arc<Backtrace>)| row.0 == handle,
        ).len() == if handles.contains(handle) {
            1nat
        } else {
            0nat
        },
    decreases handles.len(),
{
    let look = |handle: usize| (handle, images[handle]);
    let about = |row: (usize, Arc<Backtrace>)| row.0 == handle;
    let rows = handles.map_values(look);
    reveal(Seq::filter);
    if handles.len() > 0 {
        let fewer = handles.drop_last();
        lemma_rows_about_a_handle(images, fewer, handle);
        assert(rows.drop_last() =~= fewer.map_values(look));
        assert(rows.last() == look(handles.last()));
        assert(handles[handles.len() - 1] == handles.last());
        if fewer.contains(handle) {
            let i = choose|i: int| 0 <= i < fewer.len() && fewer[i] == handle;
            assert(handles[i] == handle);
            assert(handles[i] != handles[handles.len() - 1]);
        } else if handles.contains(handle) {
            let i = choose|i: int| 0 <= i < handles.len() && handles[i] == handle;
            if i < fewer.len() {
                assert(fewer[i] == handle);
            }
        }
    }
}

/// The list of the living handles has exactly one row about a handle that lives and is traced,
/// with the place where it was created, and none about any other.
pub proof fn law_every_living_handle_is_listed_once(
    books: VramModel,
    sites: Seq<(usize, Arc<Backtrace>)>,
    handle: usize,
)
    requires
        books.listed_by(sites),
    ensures
        sites.filter(|row: (usize, Arc<Backtrace>)| row.0 == handle).len()
            == if books.images.contains_key(handle) {
            1nat
        } else {
            0nat
        },
        books.images.contains_key(handle) ==> sites.contains((handle, books.images[handle])),
        forall|i: int|
            0 <= i < sites.len() && (#[trigger] sites[i]).0 == handle ==> {
                &&& books.images.contains_key(handle)
                &&& sites[i].1 == books.images[handle]
            },
        sites.len() == books.images.dom().len(),
{
    let handles = choose|handles: Seq<usize>|
        {
            &&& handles.no_duplicates()
            &&& #[trigger] handles.to_set() == books.images.dom()
            &&& sites == handles.map_values(|handle: usize| (handle, books.images[handle]))
        };
    lemma_rows_about_a_handle(books.images, handles, handle);
    assert(handles.to_set().contains(handle) <==> handles.contains(handle));
    if handles.contains(handle) {
        let i = choose|i: int| 0 <= i < handles.len() && handles[i] == handle;
        assert(sites[i] == (handle, books.images[handle]));
    }
    assert forall|i: int| 0 <= i < sites.len() && (#[trigger] sites[i]).0 == handle implies {
        &&& books.images.contains_key(handle)
        &&& sites[i].1 == books.images[handle]
    } by {
        assert(sites[i] == (handles[i], books.images[handles[i]]));
        assert(handles.contains(handles[i]));
    }
    handles.unique_seq_to_set();
}

/// `listed` has one row for each of the handles that live and none besides: the handle, and
/// the text that the backtrace of the place where it was created is rendered to.
pub open spec fn shows_each_handle(
    images: Map<usize, Arc<Backtrace>>,
    handles: Seq<usize>,
    listed: Seq<(usize, String)>,
) -> bool {
    &&& handles.len() == listed.len()
    &&& forall|i: int, j: int|
        0 <= i < j < handles.len() ==> #[trigger] handles[i] != #[trigger] handles[j]
    &&& forall|handle: usize| #[trigger]
        images.contains_key(handle) <==> handles.contains(handle)
    &&& forall|i: int|
        0 <= i < listed.len() ==> {
            &&& (#[trigger] listed[i]).0 == handles[i]
            &&& call_ensures(backtrace::symbolise, (&*images[handles[i]],), listed[i].1)
        }
}

/// The list shows each handle that lives once, with the text of its own backtrace.
pub proof fn law_the_list_shows_each_handle_where_it_was_created(
    books: VramModel,
    sites: Seq<(usize, Arc<Backtrace>)>,
    listed: Seq<(usize, String)>,
)
    requires
        books.listed_by(sites),
        counters::renders(listed, sites),
    ensures
        exists|handles: Seq<usize>| #[trigger] shows_each_handle(books.images, handles, listed),
{
    let handles = choose|handles: Seq<usize>|
        {
            &&& handles.no_duplicates()
            &&& #[trigger] handles.to_set() == books.images.dom()
            &&& sites == handles.map_values(|handle: usize| (handle, books.images[handle]))
        };
    assert forall|handle: usize| #[trigger] books.images.contains_key(
        handle,
    ) <==> handles.contains(handle) by {
        assert(handles.to_set().contains(handle) <==> handles.contains(handle));
    }
    assert forall|i: int| 0 <= i < listed.len() implies {
        &&& (#[trigger] listed[i]).0 == handles[i]
        &&& call_ensures(backtrace::symbolise, (&*books.images[handles[i]],), listed[i].1)
    } by {
        assert(sites[i] == (handles[i], books.images[handles[i]]));
    }
    assert(shows_each_handle(books.images, handles, listed));
}

/// The books start without requests and handles.
pub proof fn law_books_start_empty(trace: bool, class: ResourceClass, handle: usize, sequence: u64)
    ensures
        VramModel::start(trace).trace == trace,
        !VramModel::start(trace).images.contains_key(handle),
        VramModel::start(trace).trackers.get(class).submitted == 0,
        !VramModel::start(trace).trackers.get(class).pending.contains(sequence),
{
}

/// Counting leaves the requests and the handles alone.
pub proof fn law_counting_changes_only_counters(books: VramModel, counters: VramCounters)
    ensures
        books.with_counters(counters).counters == counters,
        books.with_counters(counters).trackers == books.trackers,
        books.with_counters(counters).images == books.images,
        books.with_counters(counters).trace == books.trace,
{
}

} // verus!
