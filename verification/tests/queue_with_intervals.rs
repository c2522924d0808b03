use my_service_bus::queue_with_intervals::{QueueIndexRange, QueueWithIntervals, QueueWithIntervalsError};

fn range(from_id: i64, to_id: i64) -> QueueIndexRange {
    QueueIndexRange { from_id, to_id }
}

#[test]
fn new_queue_is_empty() {
    let mut queue = QueueWithIntervals::new();
    assert_eq!(0, queue.len());
    assert_eq!(None, queue.peek());
    assert_eq!(None, queue.dequeue());
    assert!(queue.get_snapshot().is_empty());
}

#[test]
fn enqueued_ids_merge_into_ranges() {
    let mut queue = QueueWithIntervals::new();
    queue.enqueue(5);
    queue.enqueue(6);
    queue.enqueue(8);
    assert_eq!(vec![range(5, 6), range(8, 8)], queue.get_snapshot());
    queue.enqueue(7);
    assert_eq!(vec![range(5, 8)], queue.get_snapshot());
    queue.enqueue(2);
    assert_eq!(vec![range(2, 2), range(5, 8)], queue.get_snapshot());
    queue.enqueue(6);
    assert_eq!(5, queue.len());
}

#[test]
fn ids_leave_in_increasing_order() {
    let mut queue = QueueWithIntervals::new();
    for id in [9, 3, 7, 4, 1] {
        queue.enqueue(id);
    }
    let mut out = Vec::new();
    while let Some(id) = queue.dequeue() {
        out.push(id);
    }
    assert_eq!(vec![1, 3, 4, 7, 9], out);
    assert_eq!(0, queue.len());
}

#[test]
fn peek_and_min_do_not_remove() {
    let mut queue = QueueWithIntervals::new();
    queue.enqueue_range(10, 20);
    assert_eq!(Some(10), queue.peek());
    assert_eq!(Some(10), queue.get_min_id());
    assert_eq!(11, queue.len());
}

#[test]
fn removing_splits_a_range() {
    let mut queue = QueueWithIntervals::new();
    queue.enqueue_range(1, 5);
    assert_eq!(Ok(()), queue.remove(3));
    assert_eq!(vec![range(1, 2), range(4, 5)], queue.get_snapshot());
    assert_eq!(Ok(()), queue.remove(1));
    assert_eq!(Ok(()), queue.remove(5));
    assert_eq!(vec![range(2, 2), range(4, 4)], queue.get_snapshot());
}

#[test]
fn removing_an_absent_id_fails() {
    let mut queue = QueueWithIntervals::new();
    queue.enqueue_range(1, 5);
    assert_eq!(Err(QueueWithIntervalsError::MessagesNotFound), queue.remove(7));
    assert_eq!(5, queue.len());
}

#[test]
fn merge_is_a_union() {
    let mut a = QueueWithIntervals::new();
    a.enqueue_range(1, 3);
    a.enqueue_range(10, 12);
    let mut b = QueueWithIntervals::new();
    b.enqueue_range(3, 6);
    b.enqueue(20);
    a.merge_with(&b);
    assert_eq!(vec![range(1, 6), range(10, 12), range(20, 20)], a.get_snapshot());
    assert_eq!(5, b.len());
}

#[test]
fn snapshot_restores_the_same_ids() {
    let mut queue = QueueWithIntervals::new();
    queue.enqueue_range(100, 105);
    queue.enqueue(200);
    let restored = QueueWithIntervals::restore(queue.get_snapshot());
    assert_eq!(queue.get_snapshot(), restored.get_snapshot());
    assert_eq!(queue.len(), restored.len());
}

#[test]
fn restore_skips_empty_ranges_and_merges_overlaps() {
    let restored = QueueWithIntervals::restore(vec![range(5, 3), range(1, 2), range(2, 4)]);
    assert_eq!(vec![range(1, 4)], restored.get_snapshot());
}

#[test]
fn reset_and_clean() {
    let mut queue = QueueWithIntervals::new();
    queue.enqueue(1);
    queue.reset(vec![range(7, 9)]);
    assert_eq!(vec![range(7, 9)], queue.get_snapshot());
    queue.clean();
    assert_eq!(0, queue.len());
}
