use gpu_buffers::gles::queue_tracker::{QueueSnapshot, QueueTracker};

#[test]
fn newer_completions_do_not_hide_the_oldest_pending_request() {
    let mut tracker = QueueTracker::new();
    let stuck = tracker.submit();
    let watermark = tracker.snapshot().submitted;
    let later = tracker.submit();
    tracker.complete(later);
    let newest = tracker.submit();
    tracker.complete(newest);
    let snapshot = tracker.snapshot();
    assert_eq!((snapshot.submitted, snapshot.oldest, snapshot.pending), (3, 1, 1));
    assert!(snapshot.oldest <= watermark);
    tracker.complete(stuck);
    let empty = tracker.snapshot();
    assert_eq!((empty.submitted, empty.oldest, empty.pending), (3, 0, 0));
}

#[test]
fn oldest_advances_after_out_of_order_completion() {
    let mut tracker = QueueTracker::new();
    let first = tracker.submit();
    let second = tracker.submit();
    let third = tracker.submit();
    tracker.complete(second);
    assert_eq!(tracker.snapshot().oldest, 1);
    tracker.complete(first);
    assert_eq!(tracker.snapshot().oldest, 3);
    tracker.complete(third);
    assert_eq!(tracker.snapshot().oldest, 0);
}

#[test]
fn a_new_tracker_reports_nothing() {
    let tracker = QueueTracker::new();
    assert_eq!(tracker.snapshot(), QueueSnapshot::default());
    assert_eq!(
        tracker.snapshot(),
        QueueSnapshot { submitted: 0, oldest: 0, pending: 0 }
    );
}

#[test]
fn sequences_count_up_from_one() {
    let mut tracker = QueueTracker::new();
    assert_eq!(tracker.submit(), 1);
    assert_eq!(tracker.submit(), 2);
    tracker.complete(2);
    assert_eq!(tracker.submit(), 3);
    assert_eq!(tracker.snapshot().pending, 2);
}

#[test]
fn completing_again_or_out_of_turn_changes_nothing() {
    let mut tracker = QueueTracker::new();
    tracker.submit();
    tracker.complete(7);
    tracker.complete(0);
    assert_eq!(tracker.snapshot().pending, 1);
    tracker.complete(1);
    tracker.complete(1);
    assert_eq!(
        tracker.snapshot(),
        QueueSnapshot { submitted: 1, oldest: 0, pending: 0 }
    );
}

#[test]
fn completion_undoes_submission() {
    let mut tracker = QueueTracker::new();
    tracker.submit();
    let before = tracker.snapshot();
    let sequence = tracker.submit();
    tracker.complete(sequence);
    let after = tracker.snapshot();
    assert_eq!((after.oldest, after.pending), (before.oldest, before.pending));
    assert_eq!(after.submitted, before.submitted + 1);
}

#[test]
fn the_oldest_is_a_watermark() {
    let mut tracker = QueueTracker::new();
    for _ in 0..10 {
        tracker.submit();
    }
    for sequence in [3, 1, 2, 5] {
        tracker.complete(sequence);
    }
    let snapshot = tracker.snapshot();
    assert_eq!((snapshot.submitted, snapshot.oldest, snapshot.pending), (10, 4, 6));
}

#[test]
fn interleaved_submissions_keep_the_oldest_in_sight() {
    let mut tracker = QueueTracker::new();
    let stuck = tracker.submit();
    for _ in 0..4000 {
        let sequence = tracker.submit();
        tracker.complete(sequence);
        assert_eq!(tracker.snapshot().oldest, 1);
    }
    let snapshot = tracker.snapshot();
    assert_eq!((snapshot.submitted, snapshot.oldest, snapshot.pending), (4001, 1, 1));
    tracker.complete(stuck);
    assert_eq!(tracker.snapshot().pending, 0);
}
