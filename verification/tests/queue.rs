use pipes_rs::queue::{BoundedQueue, PushResult, QueuePolicy};

#[test]
fn drop_oldest_keeps_latest_items() {
    let mut queue = BoundedQueue::new(2, QueuePolicy::DropOldest);
    assert!(matches!(
        queue.push(1),
        PushResult::Accepted { dropped: None, .. }
    ));
    assert!(matches!(
        queue.push(2),
        PushResult::Accepted { dropped: None, .. }
    ));
    assert!(matches!(
        queue.push(3),
        PushResult::Accepted {
            dropped: Some(1),
            ..
        }
    ));
    assert_eq!(queue.pop(), Some(2));
    assert_eq!(queue.pop(), Some(3));
}

#[test]
fn drop_oldest_never_waits_and_reports_its_depth() {
    let mut queue = BoundedQueue::new(3, QueuePolicy::DropOldest);
    for item in 0..10 {
        assert!(!queue.push_must_wait());
        let depth = match queue.push(item) {
            PushResult::Accepted { depth, .. } => depth,
            PushResult::Closed => unreachable!(),
        };
        assert_eq!(depth, (item + 1).min(3));
    }
    assert_eq!(queue.pop(), Some(7));
}

#[test]
fn backpressure_waits_while_full() {
    let mut queue = BoundedQueue::new(1, QueuePolicy::Backpressure);
    assert!(!queue.push_must_wait());
    assert!(matches!(
        queue.push('a'),
        PushResult::Accepted { depth: 1, dropped: None }
    ));
    assert!(queue.push_must_wait());
    assert_eq!(queue.pop(), Some('a'));
    assert!(!queue.push_must_wait());
}

#[test]
fn closed_queue_refuses_and_drains() {
    let mut queue = BoundedQueue::new(2, QueuePolicy::Backpressure);
    let _ = queue.push(1);
    let _ = queue.push(2);
    assert!(queue.push_must_wait());
    queue.close();
    assert!(!queue.push_must_wait());
    assert!(matches!(queue.push(3), PushResult::Closed));
    assert_eq!(queue.pop(), Some(1));
    assert_eq!(queue.pop(), Some(2));
    assert!(!queue.pop_must_wait());
    assert_eq!(queue.pop(), None);
}

#[test]
fn empty_queue_makes_a_pop_wait() {
    let mut queue = BoundedQueue::new(2, QueuePolicy::DropOldest);
    assert!(queue.pop_must_wait());
    let _ = queue.push(5);
    assert!(!queue.pop_must_wait());
}

#[test]
fn items_leave_in_the_order_in_which_they_came() {
    let mut queue = BoundedQueue::new(4, QueuePolicy::Backpressure);
    let mut left = Vec::new();
    for item in 0..4 {
        let _ = queue.push(item);
    }
    left.push(queue.pop());
    let _ = queue.push(4);
    for _ in 0..4 {
        left.push(queue.pop());
    }
    assert_eq!(left, vec![Some(0), Some(1), Some(2), Some(3), Some(4)]);
}
