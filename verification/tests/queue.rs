use gpu_buffers::gles::queue::{channel, Accounting};
use gpu_buffers::gles::queue_tracker::{QueueSnapshot, QueueTracker};
use std::sync::atomic::{AtomicUsize, Ordering};
use std::sync::{Arc, Mutex};

struct Counts {
    queued: AtomicUsize,
    discarded: AtomicUsize,
    tracker: Mutex<QueueTracker>,
}

impl Default for Counts {
    fn default() -> Self {
        Self {
            queued: AtomicUsize::new(0),
            discarded: AtomicUsize::new(0),
            tracker: Mutex::new(QueueTracker::new()),
        }
    }
}

impl Counts {
    fn snapshot(&self) -> QueueSnapshot {
        self.tracker.lock().unwrap().snapshot()
    }
}

/// A resource that keeps its books behind a shared reference.
#[derive(Clone)]
struct Shared(Arc<Counts>);

impl Accounting for Shared {
    type Ledger = ();
    type Model = ();

    // Only contracts speak of the functions up to `after_finished`: nothing calls them.
    fn model(_: ()) {
        unreachable!()
    }

    fn consistent(_: ()) -> bool {
        unreachable!()
    }

    fn has_room(self, _: ()) -> bool {
        unreachable!()
    }

    fn after_queued(self, _: ()) {
        unreachable!()
    }

    fn next_sequence(self, _: ()) -> u64 {
        unreachable!()
    }

    fn after_discarded(self, _: ()) {
        unreachable!()
    }

    fn after_finished(self, _: (), _: u64) {
        unreachable!()
    }

    fn queued(&self, _: &mut ()) -> u64 {
        self.0.queued.fetch_add(1, Ordering::Relaxed);
        self.0.tracker.lock().unwrap().submit()
    }

    fn discarded(&self, _: &mut ()) {
        self.0.discarded.fetch_add(1, Ordering::Relaxed);
    }

    fn finished(&self, _: &mut (), sequence: u64) {
        self.0.tracker.lock().unwrap().complete(sequence);
    }
}

fn counts() -> Shared {
    Shared(Arc::new(Counts::default()))
}

#[test]
fn receiver_retirement_accounts_for_pending_resources() {
    let counts = counts();
    let mut queue = channel();
    queue.send(counts.clone(), &mut ()).unwrap();
    queue.retire(&mut ());
    assert_eq!(counts.0.discarded.load(Ordering::Relaxed), 1);
}

#[test]
fn rejected_send_is_discarded_exactly_once() {
    let counts = counts();
    let mut queue = channel();
    queue.retire(&mut ());
    assert!(queue.send(counts.clone(), &mut ()).is_err());
    assert_eq!(counts.0.queued.load(Ordering::Relaxed), 1);
    assert_eq!(counts.0.discarded.load(Ordering::Relaxed), 1);
}

#[test]
fn received_resources_are_not_discarded() {
    let counts = counts();
    let mut queue = channel();
    queue.send(counts.clone(), &mut ()).unwrap();
    let received = queue.try_iter();
    assert_eq!(received.len(), 1);
    for entry in received {
        entry.close(&mut ());
    }
    queue.retire(&mut ());
    assert_eq!(counts.0.discarded.load(Ordering::Relaxed), 0);
}

#[test]
fn retirement_discards_only_resources_not_received() {
    let counts = counts();
    let mut queue = channel();
    queue.send(counts.clone(), &mut ()).unwrap();
    queue.send(counts.clone(), &mut ()).unwrap();
    let resource = queue.try_next().unwrap();
    queue.retire(&mut ());
    assert_eq!(counts.0.queued.load(Ordering::Relaxed), 2);
    assert_eq!(counts.0.discarded.load(Ordering::Relaxed), 1);
    resource.close(&mut ());
    assert_eq!(counts.0.discarded.load(Ordering::Relaxed), 1);
}

#[test]
fn sender_clones_can_submit_after_receiver_retirement() {
    let counts = counts();
    let mut queue = channel();
    queue.send(counts.clone(), &mut ()).unwrap();
    queue.retire(&mut ());
    assert!(queue.send(counts.clone(), &mut ()).is_err());
    assert_eq!(counts.0.queued.load(Ordering::Relaxed), 2);
    assert_eq!(counts.0.discarded.load(Ordering::Relaxed), 2);
}

#[test]
fn newer_channel_drains_do_not_hide_a_stuck_request() {
    let counts = counts();
    let mut main = channel();
    let mut surface = channel();
    main.send(counts.clone(), &mut ()).unwrap();
    surface.send(counts.clone(), &mut ()).unwrap();
    let received = surface.try_iter();
    assert_eq!(received.len(), 1);
    for entry in received {
        entry.close(&mut ());
    }
    let snapshot = counts.0.snapshot();
    assert_eq!((snapshot.submitted, snapshot.oldest, snapshot.pending), (2, 1, 1));
    main.retire(&mut ());
    assert_eq!(counts.0.snapshot().pending, 0);
}

#[test]
fn received_request_stays_pending_through_cleanup_body() {
    let counts = counts();
    let mut queue = channel();
    queue.send(counts.clone(), &mut ()).unwrap();
    let received = queue.try_next().unwrap();
    assert!(Arc::ptr_eq(&received.resource().0, &counts.0));
    assert_eq!(counts.0.snapshot().oldest, 1);
    received.close(&mut ());
    assert_eq!(counts.0.snapshot().oldest, 0);
}
