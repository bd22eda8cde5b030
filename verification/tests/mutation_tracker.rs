use exocore::store::mutation_tracker::MutationTracker;

fn completed_ids(tracker: &mut MutationTracker, ops: &[u64], now: u64) -> (Vec<usize>, Vec<usize>) {
    let out = tracker.handle_indexed_operations(&ops.to_vec(), now);
    (
        out.completed.iter().map(|c| c.request_id).collect(),
        out.expired.clone(),
    )
}

#[test]
fn golden_path() {
    let mut tracker = MutationTracker::new(5_000);

    let r1 = tracker.track_request(&vec![1, 2, 3], 0);
    let (completed, _) = completed_ids(&mut tracker, &[1, 2, 3], 10);
    assert_eq!(completed, vec![r1]);

    let r2 = tracker.track_request(&vec![4, 5, 6], 20);
    let (completed, _) = completed_ids(&mut tracker, &[4, 5], 30);
    assert!(completed.is_empty());
    let (completed, _) = completed_ids(&mut tracker, &[6, 7], 40);
    assert_eq!(completed, vec![r2]);

    assert_eq!(tracker.watched_count(), 0);
}

#[test]
fn tracking_timeout() {
    let mut tracker = MutationTracker::new(1);

    let r1 = tracker.track_request(&vec![1, 2, 3], 100);
    let (completed, expired) = completed_ids(&mut tracker, &[], 102);
    assert!(completed.is_empty());
    assert_eq!(expired, vec![r1]);
    assert_eq!(tracker.watched_count(), 0);
}

#[test]
fn multiple_requests_same_operation() {
    let mut tracker = MutationTracker::new(5_000);

    let r1 = tracker.track_request(&vec![1, 2, 3], 0);
    let r2 = tracker.track_request(&vec![1, 2, 3, 4], 0);

    let (completed, _) = completed_ids(&mut tracker, &[1, 2, 3], 10);
    assert_eq!(completed, vec![r1]);
    assert_eq!(tracker.watched_count(), 1);

    let (completed, _) = completed_ids(&mut tracker, &[4, 5], 20);
    assert_eq!(completed, vec![r2]);
}

#[test]
fn completed_request_gives_its_operations_once_each() {
    let mut tracker = MutationTracker::new(5_000);
    let r = tracker.track_request(&vec![3, 1, 3, 2], 0);
    assert_eq!(r, 0);
    let out = tracker.handle_indexed_operations(&vec![1, 2, 3], 1);
    assert_eq!(out.completed.len(), 1);
    assert_eq!(out.completed[0].operation_ids, vec![3, 1, 2]);
}

#[test]
fn request_not_expired_at_timeout() {
    let mut tracker = MutationTracker::new(10);
    tracker.track_request(&vec![1], 100);
    let (_, expired) = completed_ids(&mut tracker, &[], 110);
    assert!(expired.is_empty());
    let (_, expired) = completed_ids(&mut tracker, &[], 111);
    assert_eq!(expired, vec![0]);
}

#[test]
fn request_without_operations_waits_until_expired() {
    let mut tracker = MutationTracker::new(10);
    let r = tracker.track_request(&vec![], 100);
    let (completed, expired) = completed_ids(&mut tracker, &[1, 2], 105);
    assert!(completed.is_empty());
    assert!(expired.is_empty());
    assert_eq!(tracker.watched_count(), 1);
    let (completed, expired) = completed_ids(&mut tracker, &[], 111);
    assert!(completed.is_empty());
    assert_eq!(expired, vec![r]);
}

#[test]
fn request_completes_once_at_first_pass_covering_its_operations() {
    let mut tracker = MutationTracker::new(5_000);
    let r = tracker.track_request(&vec![1, 2, 3], 0);
    assert!(completed_ids(&mut tracker, &[1], 1).0.is_empty());
    assert!(completed_ids(&mut tracker, &[2, 9], 2).0.is_empty());
    assert_eq!(completed_ids(&mut tracker, &[3], 3).0, vec![r]);
    // indexing the same operations again completes nothing more
    assert!(completed_ids(&mut tracker, &[1, 2, 3], 4).0.is_empty());
}
