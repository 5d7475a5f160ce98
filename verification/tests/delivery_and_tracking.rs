use edgepacer::batch_tracker::{BatchStatus, BatchTracker};
use edgepacer::delivery::{classify_http_status, DeliveryResult, ErrorClass};

#[test]
fn source_read_continuation() {
    assert!(DeliveryResult::Delivered.allows_source_read());
    assert!(DeliveryResult::Buffered.allows_source_read());
    assert!(!DeliveryResult::Failed.allows_source_read());
    assert!(!DeliveryResult::Blocked.allows_source_read());
}

#[test]
fn http_status_classification() {
    assert_eq!(classify_http_status(200), ErrorClass::NonRetryable);
    assert_eq!(classify_http_status(401), ErrorClass::Auth);
    assert_eq!(classify_http_status(403), ErrorClass::Auth);
    assert_eq!(classify_http_status(404), ErrorClass::NonRetryable);
    assert_eq!(classify_http_status(429), ErrorClass::Retryable);
    assert_eq!(classify_http_status(500), ErrorClass::Retryable);
    assert_eq!(classify_http_status(503), ErrorClass::Retryable);
}

#[test]
fn http_status_classes_end_at_their_bounds() {
    assert_eq!(classify_http_status(499), ErrorClass::NonRetryable);
    assert_eq!(classify_http_status(599), ErrorClass::Retryable);
    assert_eq!(classify_http_status(600), ErrorClass::NonRetryable);
    assert_eq!(classify_http_status(0), ErrorClass::NonRetryable);
}

#[test]
fn empty_tracker_no_checkpoint() {
    let tracker = BatchTracker::new();
    assert!(tracker.safe_checkpoint().is_none());
    assert!(!tracker.has_pending());
    assert!(!tracker.has_failed());
}

#[test]
fn single_acked_batch() {
    let mut tracker = BatchTracker::new();
    let seq = tracker.track(0, 100, 1, 1, 5);
    tracker.ack(seq);

    let cp = tracker.safe_checkpoint().unwrap();
    assert_eq!(cp.offset, 100);
    assert_eq!(cp.inode, 1);
    assert_eq!(cp.acked_buffer_sequences, vec![1, 2, 3, 4, 5]);
}

#[test]
fn consecutive_ack_rule_stops_at_pending() {
    let mut tracker = BatchTracker::new();
    let s1 = tracker.track(0, 100, 1, 1, 3);
    let _s2 = tracker.track(100, 200, 1, 4, 6);
    let s3 = tracker.track(200, 300, 1, 7, 9);

    tracker.ack(s1);
    tracker.ack(s3);

    let cp = tracker.safe_checkpoint().unwrap();
    assert_eq!(cp.offset, 100);
    assert_eq!(cp.acked_buffer_sequences, vec![1, 2, 3]);
}

#[test]
fn consecutive_ack_rule_stops_at_failed() {
    let mut tracker = BatchTracker::new();
    let s1 = tracker.track(0, 100, 1, 1, 2);
    let s2 = tracker.track(100, 200, 1, 3, 4);
    let s3 = tracker.track(200, 300, 1, 5, 6);

    tracker.ack(s1);
    tracker.fail(s2);
    tracker.ack(s3);

    let cp = tracker.safe_checkpoint().unwrap();
    assert_eq!(cp.offset, 100);
}

#[test]
fn all_pending_no_checkpoint() {
    let mut tracker = BatchTracker::new();
    tracker.track(0, 100, 1, 1, 5);
    tracker.track(100, 200, 1, 6, 10);

    assert!(tracker.safe_checkpoint().is_none());
    assert!(tracker.has_pending());
}

#[test]
fn drain_acked_removes_prefix() {
    let mut tracker = BatchTracker::new();
    let s1 = tracker.track(0, 100, 1, 1, 2);
    let s2 = tracker.track(100, 200, 1, 3, 4);
    let _s3 = tracker.track(200, 300, 1, 5, 6);

    tracker.ack(s1);
    tracker.ack(s2);

    let drained = tracker.drain_acked();
    assert_eq!(drained, 2);
    assert_eq!(tracker.total_count(), 1);
}

#[test]
fn drain_stops_at_pending() {
    let mut tracker = BatchTracker::new();
    let s1 = tracker.track(0, 100, 1, 1, 2);
    let _s2 = tracker.track(100, 200, 1, 3, 4);
    let s3 = tracker.track(200, 300, 1, 5, 6);

    tracker.ack(s1);
    tracker.ack(s3);

    let drained = tracker.drain_acked();
    assert_eq!(drained, 1);
    assert_eq!(tracker.total_count(), 2);
}

#[test]
fn pending_and_failed_counts() {
    let mut tracker = BatchTracker::new();
    let s1 = tracker.track(0, 100, 1, 1, 2);
    tracker.track(100, 200, 1, 3, 4);
    tracker.track(200, 300, 1, 5, 6);

    tracker.fail(s1);

    assert_eq!(tracker.pending_count(), 2);
    assert!(tracker.has_failed());
    assert!(tracker.has_pending());
}

#[test]
fn sequence_numbers_are_monotonic() {
    let mut tracker = BatchTracker::new();
    let s1 = tracker.track(0, 100, 1, 1, 1);
    let s2 = tracker.track(100, 200, 1, 2, 2);
    let s3 = tracker.track(200, 300, 1, 3, 3);

    assert_eq!(s1, 1);
    assert_eq!(s2, 2);
    assert_eq!(s3, 3);
}

#[test]
fn acks_of_unknown_batches_are_passed_over() {
    let mut tracker = BatchTracker::default();
    tracker.track(0, 100, 1, 1, 1);
    tracker.ack(7);
    tracker.fail(0);
    assert_eq!(tracker.pending_count(), 1);
    assert!(!tracker.has_failed());
}

#[test]
fn the_oldest_pending_batch_comes_first() {
    let mut tracker = BatchTracker::new();
    assert_eq!(tracker.oldest_pending_sequence(), None);
    let s1 = tracker.track(0, 100, 1, 1, 2);
    let s2 = tracker.track(100, 200, 1, 3, 4);
    assert_eq!(tracker.oldest_pending_sequence(), Some(s1));
    tracker.ack(s1);
    assert_eq!(tracker.oldest_pending_sequence(), Some(s2));
}

#[test]
fn a_late_ack_moves_the_checkpoint_over_all_that_waited() {
    let mut tracker = BatchTracker::new();
    let s1 = tracker.track(0, 100, 7, 1, 1);
    let s2 = tracker.track(100, 200, 7, 2, 2);
    tracker.ack(s2);
    assert!(tracker.safe_checkpoint().is_none());
    tracker.ack(s1);
    let cp = tracker.safe_checkpoint().unwrap();
    assert_eq!(cp.offset, 200);
    assert_eq!(cp.inode, 7);
    assert_eq!(cp.acked_buffer_sequences, vec![1, 2]);
    assert_eq!(tracker.drain_acked(), 2);
    assert!(tracker.safe_checkpoint().is_none());
}

#[test]
fn an_empty_range_of_the_buffer_frees_nothing() {
    let mut tracker = BatchTracker::new();
    let s1 = tracker.track(0, 100, 1, 5, 4);
    let s2 = tracker.track(100, 200, 1, u64::MAX - 1, u64::MAX);
    tracker.ack(s1);
    tracker.ack(s2);
    let cp = tracker.safe_checkpoint().unwrap();
    assert_eq!(cp.acked_buffer_sequences, vec![u64::MAX - 1, u64::MAX]);
}

#[test]
fn batch_states_are_told_apart() {
    assert_ne!(BatchStatus::Pending, BatchStatus::Acked);
    assert_ne!(BatchStatus::Acked, BatchStatus::Failed);
}
