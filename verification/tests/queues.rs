use my_service_bus::date_time::DateTimeAsMicroseconds;
use my_service_bus::messages_page::{MessagesPage, MessagesPagesCache, MySbMessage, MySbMessageContent};
use my_service_bus::operations::delivery::try_to_deliver;
use my_service_bus::operations::fail_result::OperationFailResult;
use my_service_bus::operations::gc_queues_with_no_subscribers::gc_queues_with_no_subscribers_at;
use my_service_bus::operations::queues::{delete_queue, set_message_id};
use my_service_bus::topics::TopicsList;
use my_service_bus::operations::subscriber::{handle_subscriber_remove, subscribe_session};
use my_service_bus::queue_subscribers::subscribers_list::SubscribeErrorResult;
use my_service_bus::queue_with_intervals::{QueueIndexRange, QueueWithIntervals};
use my_service_bus::queues::delivery_attempts::DeliveryAttempts;
use my_service_bus::queues::delivery_bucket::DeliveryBucket;
use my_service_bus::queues::queue::TopicQueue;
use my_service_bus::queues::queue_type::TopicQueueType;
use my_service_bus::queues::queues_list::TopicQueuesList;

fn loaded_pages(from_id: i64, to_id: i64) -> MessagesPagesCache {
    let mut page = MessagesPage::new(0);
    for id in from_id..=to_id {
        page.add(MySbMessage::Loaded(MySbMessageContent {
            id,
            content: vec![id as u8, 1, 2],
            time: DateTimeAsMicroseconds::new(id),
        }));
    }
    let mut pages = MessagesPagesCache::new();
    pages.restore_page(page);
    pages
}

fn ids(from_id: i64, to_id: i64) -> QueueWithIntervals {
    let mut ids = QueueWithIntervals::new();
    ids.enqueue_range(from_id, to_id);
    ids
}

/// A permanent queue whose subscriber 15 (session 13) has the ids 1..=3 on delivery.
fn queue_on_delivery() -> TopicQueue {
    let mut queue = TopicQueue::new("topic".to_string(), "queue".to_string(), TopicQueueType::Permanent);
    subscribe_session(&mut queue, TopicQueueType::Permanent, 15, 13, 1).unwrap();
    queue.enqueue_messages(&ids(1, 3));
    let pages = loaded_pages(1, 3);
    let outcome = try_to_deliver(&mut queue, &pages, 1024);
    assert_eq!(1, outcome.packages.len());
    assert_eq!(0, queue.get_queue_size());
    queue
}

#[test]
fn attempts_count_failures() {
    let mut attempts = DeliveryAttempts::new();
    assert_eq!(0, attempts.get(5));
    attempts.add(5);
    assert_eq!(0, attempts.get(5));
    attempts.add(5);
    assert_eq!(1, attempts.get(5));
    attempts.add(5);
    assert_eq!(2, attempts.get(5));
    assert_eq!(0, attempts.get(6));
    attempts.reset(5);
    assert_eq!(0, attempts.get(5));
}

#[test]
fn bucket_counts_confirmations() {
    let mut bucket = DeliveryBucket::new(ids(1, 10));
    bucket.confirmed(&ids(1, 4));
    assert_eq!(4, bucket.confirmed);
    assert_eq!(6, bucket.messages_count());
    bucket.confirm_everything();
    assert_eq!(10, bucket.confirmed);
    assert_eq!(0, bucket.messages_count());
}

#[test]
fn all_confirmed_makes_the_subscriber_ready_and_keeps_the_queue() {
    let mut queue = queue_on_delivery();
    assert_eq!(3, queue.get_on_delivery());
    assert_eq!(Ok(()), queue.confirmed_delivered(15));
    assert_eq!(0, queue.get_on_delivery());
    assert_eq!(0, queue.get_queue_size());
    assert!(queue.subscribers.get_by_id(15).unwrap().delivery_state.is_ready_to_deliver());
}

#[test]
fn all_fail_puts_the_messages_back_with_an_attempt() {
    let mut queue = queue_on_delivery();
    assert_eq!(vec![QueueIndexRange { from_id: 1, to_id: 3 }], queue.get_messages_on_delivery(15).unwrap().get_snapshot());
    queue.subscribers.get_by_id_mut(15).map(|s| {
        if let my_service_bus::queue_subscribers::queue_subscriber::QueueSubscriberDeliveryState::OnDelivery(data) =
            &mut s.delivery_state
        {
            data.bucket.confirmed = 1;
        }
    });
    assert_eq!(Ok(()), queue.confirmed_non_delivered(15));
    assert_eq!(3, queue.get_queue_size());
    assert_eq!(Some(1), queue.get_min_msg_id());
    assert_eq!(0, queue.delivery_attempts.get(1));
    assert!(queue.get_messages_on_delivery(15).is_none());
}

#[test]
fn some_confirmed_puts_back_the_rest() {
    let mut queue = queue_on_delivery();
    let mut delivered = QueueWithIntervals::new();
    delivered.enqueue(2);
    assert_eq!(Ok(()), queue.confirmed_some_delivered(15, delivered));
    assert_eq!(vec![QueueIndexRange { from_id: 1, to_id: 1 }, QueueIndexRange { from_id: 3, to_id: 3 }], queue.queue.get_snapshot());
}

#[test]
fn intermediary_confirmation_shrinks_what_is_on_delivery() {
    let mut queue = queue_on_delivery();
    let mut confirmed = QueueWithIntervals::new();
    confirmed.enqueue(1);
    assert_eq!(Ok(()), queue.intermediary_confirmed(15, confirmed));
    assert_eq!(vec![QueueIndexRange { from_id: 2, to_id: 3 }], queue.get_messages_on_delivery(15).unwrap().get_snapshot());
    assert_eq!(0, queue.get_queue_size());
}

#[test]
fn confirming_for_an_unknown_subscriber_fails() {
    let mut queue = queue_on_delivery();
    assert_eq!(Err(OperationFailResult::SubscriberNotFound { id: 99 }), queue.confirmed_delivered(99));
    assert_eq!(Err(OperationFailResult::SubscriberNotFound { id: 99 }), queue.confirmed_non_delivered(99));
    assert_eq!(Err(OperationFailResult::SubscriberNotFound { id: 99 }), queue.confirmed_some_delivered(99, ids(1, 1)));
    assert_eq!(Err(OperationFailResult::SubscriberNotFound { id: 99 }), queue.intermediary_confirmed(99, ids(1, 1)));
}

#[test]
fn removed_subscriber_gives_its_messages_back() {
    let mut queue = queue_on_delivery();
    let subscriber = queue.subscribers.remove(15).unwrap();
    handle_subscriber_remove(&mut queue, subscriber);
    assert_eq!(3, queue.get_queue_size());
    assert_eq!(0, queue.delivery_attempts.get(2));
}

#[test]
fn subscribing_twice_from_one_session_fails() {
    let mut queue = TopicQueue::new("topic".to_string(), "queue".to_string(), TopicQueueType::Permanent);
    assert_eq!(Ok(()), subscribe_session(&mut queue, TopicQueueType::DeleteOnDisconnect, 1, 10, 1));
    assert_eq!(TopicQueueType::DeleteOnDisconnect, queue.queue_type);
    assert_eq!(Err(SubscribeErrorResult::SubscriberOfSameConnectionExists), subscribe_session(&mut queue, TopicQueueType::Permanent, 2, 10, 1));
    assert_eq!(Err(SubscribeErrorResult::SubscriberWithIdExists), subscribe_session(&mut queue, TopicQueueType::Permanent, 1, 20, 1));
    assert_eq!(1, queue.subscribers.get_amount());
}

#[test]
fn replaced_single_subscriber_gives_its_messages_back() {
    let mut queue = TopicQueue::new("topic".to_string(), "queue".to_string(), TopicQueueType::PermanentWithSingleConnection);
    subscribe_session(&mut queue, TopicQueueType::PermanentWithSingleConnection, 1, 10, 1).unwrap();
    queue.enqueue_messages(&ids(1, 2));
    let pages = loaded_pages(1, 2);
    try_to_deliver(&mut queue, &pages, 1024);
    assert_eq!(0, queue.get_queue_size());
    subscribe_session(&mut queue, TopicQueueType::PermanentWithSingleConnection, 2, 20, 1).unwrap();
    assert_eq!(2, queue.get_queue_size());
    assert_eq!(1, queue.subscribers.get_amount());
    assert!(queue.subscribers.get_by_id(2).is_some());
}

#[test]
fn queue_snapshot_and_restore() {
    let mut queue = TopicQueue::new("topic".to_string(), "queue".to_string(), TopicQueueType::Permanent);
    queue.enqueue_messages(&ids(4, 9));
    let snapshot = queue.get_snapshot_to_persist().unwrap();
    assert_eq!("queue", snapshot.queue_id);
    assert_eq!(TopicQueueType::Permanent, snapshot.queue_type);
    let restored = TopicQueue::restore(
        "topic".to_string(),
        snapshot.queue_id.clone(),
        snapshot.queue_type,
        QueueWithIntervals::restore(snapshot.ranges),
    );
    assert_eq!(6, restored.get_queue_size());
    assert_eq!(Some(4), restored.get_min_msg_id());

    let temporary = TopicQueue::new("topic".to_string(), "temp".to_string(), TopicQueueType::DeleteOnDisconnect);
    assert!(temporary.get_snapshot_to_persist().is_none());
}

#[test]
fn queue_type_change_is_noticed() {
    let queue = TopicQueue::new("topic".to_string(), "queue".to_string(), TopicQueueType::Permanent);
    assert!(!queue.queue_type_is_about_to_change(TopicQueueType::Permanent));
    assert!(queue.queue_type_is_about_to_change(TopicQueueType::DeleteOnDisconnect));
}

#[test]
fn set_message_id_makes_the_queue_hold_the_rest_of_the_topic() {
    let mut queue = TopicQueue::new("topic".to_string(), "queue".to_string(), TopicQueueType::Permanent);
    queue.enqueue_messages(&ids(1, 3));
    queue.set_message_id(10, 12);
    assert_eq!(vec![QueueIndexRange { from_id: 10, to_id: 12 }], queue.queue.get_snapshot());
    queue.set_message_id(13, 12);
    assert_eq!(0, queue.get_queue_size());
}

#[test]
fn queues_list_adds_finds_and_deletes() {
    let mut list = TopicQueuesList::new();
    assert_eq!(0, list.get_snapshot_id());
    list.add_queue_if_not_exists("topic".to_string(), "a".to_string(), TopicQueueType::Permanent);
    list.add_queue_if_not_exists("topic".to_string(), "b".to_string(), TopicQueueType::DeleteOnDisconnect);
    let again = list.add_queue_if_not_exists("topic".to_string(), "a".to_string(), TopicQueueType::DeleteOnDisconnect);
    assert_eq!(TopicQueueType::DeleteOnDisconnect, again.queue_type);
    assert_eq!(2, list.get_snapshot_id());
    assert_eq!(2, list.get_all().len());
    assert!(list.get("a").is_some());
    assert!(list.get("c").is_none());
    assert!(list.get_mut("b").is_some());
    assert_eq!(2, list.get_queues_with_no_subscribers().unwrap().len());
    assert_eq!("b", list.delete_queue("b").unwrap().queue_id);
    assert!(list.delete_queue("b").is_none());
    assert_eq!(1, list.get_queues().len());
    assert_eq!("a", list.remove("a").unwrap().queue_id);
    assert!(list.get_queues_with_no_subscribers().is_none());
}

#[test]
fn queues_list_snapshot_skips_temporary_queues() {
    let mut list = TopicQueuesList::new();
    list.add_queue_if_not_exists("topic".to_string(), "a".to_string(), TopicQueueType::Permanent);
    list.add_queue_if_not_exists("topic".to_string(), "b".to_string(), TopicQueueType::DeleteOnDisconnect);
    list.restore("topic".to_string(), "c".to_string(), TopicQueueType::PermanentWithSingleConnection, ids(5, 6));
    let snapshot = list.get_snapshot_to_persist();
    let names: Vec<String> = snapshot.iter().map(|s| s.queue_id.clone()).collect();
    assert_eq!(vec!["a".to_string(), "c".to_string()], names);
    assert_eq!(vec![QueueIndexRange { from_id: 5, to_id: 6 }], snapshot[1].ranges);
}

#[test]
fn session_leaving_removes_its_subscribers_everywhere() {
    let mut list = TopicQueuesList::new();
    subscribe_session(list.add_queue_if_not_exists("t".to_string(), "a".to_string(), TopicQueueType::Permanent), TopicQueueType::Permanent, 1, 10, 1).unwrap();
    subscribe_session(list.add_queue_if_not_exists("t".to_string(), "b".to_string(), TopicQueueType::Permanent), TopicQueueType::Permanent, 2, 10, 1).unwrap();
    subscribe_session(list.add_queue_if_not_exists("t".to_string(), "b".to_string(), TopicQueueType::Permanent), TopicQueueType::Permanent, 3, 20, 1).unwrap();
    let removed = list.remove_subscribers_by_session_id(10).unwrap();
    assert_eq!(2, removed.len());
    assert!(list.remove_subscribers_by_session_id(10).is_none());
    assert_eq!(1, list.get("b").unwrap().subscribers.get_amount());
}

#[test]
fn operations_by_topic_and_queue_id() {
    let mut topics = TopicsList::new();
    let topic = topics.restore("t".to_string(), 5);
    topic.queues.add_queue_if_not_exists("t".to_string(), "a".to_string(), TopicQueueType::Permanent);
    assert_eq!(Ok(()), set_message_id(&mut topics, "t", "a", 3));
    assert_eq!(3, topics.get("t").unwrap().queues.get("a").unwrap().get_queue_size());
    assert_eq!(Err(OperationFailResult::QueueNotFound { queue_id: "x".to_string() }), set_message_id(&mut topics, "t", "x", 3));
    assert_eq!(Ok(()), delete_queue(&mut topics, "t", "a"));
    assert!(topics.get("t").unwrap().queues.get("a").is_none());
}

#[test]
fn queues_without_subscribers_are_collected_after_the_timeout() {
    let mut list = TopicQueuesList::new();
    list.add_queue_if_not_exists("t".to_string(), "temp".to_string(), TopicQueueType::DeleteOnDisconnect);
    list.add_queue_if_not_exists("t".to_string(), "kept".to_string(), TopicQueueType::Permanent);
    let last_unsubscribe = list.get("temp").unwrap().subscribers.last_unsubscribe;
    gc_queues_with_no_subscribers_at(&mut list, 1_000, last_unsubscribe);
    assert!(list.get("temp").is_some());
    gc_queues_with_no_subscribers_at(&mut list, 1_000, DateTimeAsMicroseconds::new(last_unsubscribe.unix_microseconds + 2_000));
    assert!(list.get("temp").is_none());
    assert!(list.get("kept").is_some());
}
