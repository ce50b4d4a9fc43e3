//! Submission order of cleanup requests, and which of them are still outstanding.
//!
//! Every request gets the next sequence number when it is submitted and leaves
//! the tracker when it completes. Requests may complete in any order: the oldest
//! outstanding one stays visible until it has completed itself.

use std::collections::BTreeSet;
use vstd::laws_cmp::*;
use vstd::prelude::*;

verus! {

/// Cleanup submission order and outstanding requests for one resource class.
#[derive(Clone, Copy, Debug, PartialEq, Eq, Structural)]
pub struct QueueSnapshot {
    /// Highest submitted sequence, including requests rejected by retired queues.
    pub submitted: u64,
    /// Oldest outstanding sequence, or zero when all requests have completed.
    pub oldest: u64,
    /// Requests awaiting explicit cleanup or discard.
    pub pending: u64,
}

impl Default for QueueSnapshot {
    fn default() -> (snapshot: QueueSnapshot)
        ensures
            snapshot.submitted == 0,
            snapshot.oldest == 0,
            snapshot.pending == 0,
    {
        QueueSnapshot { submitted: 0, oldest: 0, pending: 0 }
    }
}

/// What a [`QueueTracker`] stands for: how many requests were submitted, and
/// the sequence numbers of those that have not completed.
#[verifier::ext_equal]
pub struct QueueModel {
    pub submitted: u64,
    pub pending: Set<u64>,
}

impl QueueModel {
    /// Sequence numbers start at one, and only submitted ones can be pending.
    pub open spec fn wf(self) -> bool {
        &&& self.pending.finite()
        &&& forall|sequence: u64| #[trigger]
            self.pending.contains(sequence) ==> 1 <= sequence <= self.submitted
    }

    /// The tracker before any submission.
    pub open spec fn start() -> QueueModel {
        QueueModel { submitted: 0, pending: Set::empty() }
    }

    /// One more request: it is pending under the next sequence number.
    pub open spec fn submit(self) -> QueueModel {
        let sequence = (self.submitted + 1) as u64;
        QueueModel { submitted: sequence, pending: self.pending.insert(sequence) }
    }

    /// The request `sequence` is no longer pending.
    pub open spec fn complete(self, sequence: u64) -> QueueModel {
        QueueModel { submitted: self.submitted, pending: self.pending.remove(sequence) }
    }

    /// `oldest` is the smallest pending sequence, or zero if none is pending.
    pub open spec fn is_oldest(self, oldest: u64) -> bool {
        if self.pending.is_empty() {
            oldest == 0
        } else {
            &&& self.pending.contains(oldest)
            &&& forall|sequence: u64| #[trigger]
                self.pending.contains(sequence) ==> oldest <= sequence
        }
    }

    /// `snapshot` reports this state.
    pub open spec fn reported_by(self, snapshot: QueueSnapshot) -> bool {
        &&& snapshot.submitted == self.submitted
        &&& self.is_oldest(snapshot.oldest)
        &&& snapshot.pending == self.pending.len()
    }
}

/// Hands out sequence numbers and remembers the outstanding ones.
pub struct QueueTracker {
    submitted: u64,
    pending: BTreeSet<u64>,
}

impl View for QueueTracker {
    type V = QueueModel;

    closed spec fn view(&self) -> QueueModel {
        QueueModel { submitted: self.submitted, pending: self.pending@ }
    }
}

/// References to sequence numbers are ordered as the numbers are.
proof fn lemma_references_are_ordered()
    ensures
        obeys_cmp::<&u64>(),
{
    broadcast use vstd::laws_eq::group_laws_eq;

    reveal(vstd::laws_eq::obeys_eq_spec_properties);
    reveal(obeys_partial_cmp_spec_properties);
    reveal(obeys_cmp_partial_ord);
    reveal(obeys_cmp_ord);
}

/// The smallest member of `pending`, or zero if there is none.
fn first_or_zero(pending: &BTreeSet<u64>) -> (oldest: u64)
    ensures
        pending@.is_empty() ==> oldest == 0,
        !pending@.is_empty() ==> pending@.contains(oldest) && forall|sequence: u64| #[trigger]
            pending@.contains(sequence) ==> oldest <= sequence,
{
    proof {
        lemma_references_are_ordered();
    }
    for sequence in it: pending.iter()
        invariant
            it.index() == 0,
            obeys_cmp::<&u64>(),
    {
        proof {
            let order = it.seq();
            assert(order.unref().to_set() == pending@);
            assert(order.unref()[0] == *sequence);
            assert forall|other: u64| #[trigger] pending@.contains(other) implies *sequence
                <= other by {
                assert(order.unref().contains(other));
                let i = choose|i: int| 0 <= i < order.unref().len() && order.unref()[i] == other;
                if i > 0 {
                    assert(vstd::std_specs::cmp::OrdSpec::cmp_spec(&order[0], &order[i]) is Less);
                }
            }
        }
        return *sequence;
    }
    0
}

impl QueueTracker {
    /// A tracker without any submission.
    pub fn new() -> (tracker: QueueTracker)
        ensures
            tracker@.wf(),
            tracker@ == QueueModel::start(),
    {
        QueueTracker { submitted: 0, pending: BTreeSet::new() }
    }

    /// Submit one more request and return its sequence number.
    pub fn submit(&mut self) -> (sequence: u64)
        requires
            old(self)@.wf(),
            old(self)@.submitted < u64::MAX,
        ensures
            final(self)@.wf(),
            final(self)@ == old(self)@.submit(),
            sequence == final(self)@.submitted,
    {
        self.submitted += 1;
        let sequence = self.submitted;
        self.pending.insert(sequence);
        sequence
    }

    /// Mark the request `sequence` as completed. Completing a request that is not
    /// pending changes nothing.
    pub fn complete(&mut self, sequence: u64)
        requires
            old(self)@.wf(),
        ensures
            final(self)@.wf(),
            final(self)@ == old(self)@.complete(sequence),
    {
        self.pending.remove(&sequence);
    }

    /// Report the submissions so far and what is still outstanding.
    pub fn snapshot(&self) -> (snapshot: QueueSnapshot)
        requires
            self@.wf(),
        ensures
            self@.reported_by(snapshot),
    {
        QueueSnapshot {
            submitted: self.submitted,
            oldest: first_or_zero(&self.pending),
            pending: self.pending.len() as u64,
        }
    }
}

} // verus!
