use my_service_bus::date_time::DateTimeAsMicroseconds;
use my_service_bus::messages_page::{MessagesPage, MessagesPagesCache, MySbMessage, MySbMessageContent};
use my_service_bus::operations::delivery::{deliver_to_topic, try_to_deliver};
use my_service_bus::operations::delivery_confirmation::{
    all_confirmed, all_fail, intermediary_confirm, some_messages_are_confirmed,
};
use my_service_bus::operations::fail_result::OperationFailResult;
use my_service_bus::operations::initialization::{restorable_part, restore_topic_queues, restore_topics, TopicSnapshot};
use my_service_bus::operations::queues::{delete_queue, set_message_id};
use my_service_bus::operations::subscriber::{subscribe_session, subscribe_to_queue};
use my_service_bus::queue_subscribers::subscribers_list::SubscribeErrorResult;
use my_service_bus::queues::queue::TopicQueue;
use my_service_bus::topics::TopicsList;
use my_service_bus::queue_subscribers::queue_subscriber::QueueSubscriberDeliveryState;
use my_service_bus::queue_with_intervals::{QueueIndexRange, QueueWithIntervals};
use my_service_bus::queues::queue::TopicQueueSnapshot;
use my_service_bus::queues::queue_type::TopicQueueType;
use my_service_bus::queues::queues_list::TopicQueuesList;

fn ids(from_id: i64, to_id: i64) -> QueueWithIntervals {
    let mut ids = QueueWithIntervals::new();
    ids.enqueue_range(from_id, to_id);
    ids
}

/// Queue "q" whose subscriber 15 has the ids 1..=3 on delivery, with one of them already counted
/// as confirmed.
fn list_on_delivery() -> TopicQueuesList {
    let mut list = TopicQueuesList::new();
    let queue = list.add_queue_if_not_exists("t".to_string(), "q".to_string(), TopicQueueType::Permanent);
    subscribe_session(queue, TopicQueueType::Permanent, 15, 13, 1).unwrap();
    queue.enqueue_messages(&ids(1, 3));
    try_to_deliver(queue, &pages_1_to_3(), 1024);
    if let QueueSubscriberDeliveryState::OnDelivery(data) = &mut queue.subscribers.get_by_id_mut(15).unwrap().delivery_state {
        data.bucket.confirmed = 1;
    }
    list
}

/// The page that holds the messages 1..=3.
fn pages_1_to_3() -> MessagesPagesCache {
    let mut page = MessagesPage::new(0);
    for id in 1..=3 {
        page.add(MySbMessage::Loaded(MySbMessageContent { id, content: vec![1, 2], time: DateTimeAsMicroseconds::new(0) }));
    }
    let mut pages = MessagesPagesCache::new();
    pages.restore_page(page);
    pages
}

/// Topic "t" (last message 3) whose queue "q" is as `list_on_delivery` makes it.
fn topics_on_delivery() -> TopicsList {
    let mut topics = TopicsList::new();
    let topic = topics.restore("t".to_string(), 3);
    topic.queues = list_on_delivery();
    topic.pages = pages_1_to_3();
    topics
}

fn queue_of<'a>(topics: &'a TopicsList, queue_id: &str) -> &'a TopicQueue {
    topics.get("t").unwrap().queues.get(queue_id).unwrap()
}

#[test]
fn all_confirmed_by_topic_and_queue_id() {
    let mut topics = topics_on_delivery();
    let outcome = all_confirmed(&mut topics, "t", "q", 15, 1024).unwrap();
    assert!(outcome.packages.is_empty());
    assert_eq!(0, queue_of(&topics, "q").get_queue_size());
    assert_eq!(0, queue_of(&topics, "q").get_on_delivery());
    assert!(matches!(
        all_confirmed(&mut topics, "x", "q", 15, 1024),
        Err(OperationFailResult::TopicNotFound { topic_id }) if topic_id == "x"
    ));
    assert!(matches!(
        all_confirmed(&mut topics, "t", "x", 15, 1024),
        Err(OperationFailResult::QueueNotFound { queue_id }) if queue_id == "x"
    ));
    assert!(all_confirmed(&mut topics, "t", "q", 99, 1024).is_ok());
}

#[test]
fn all_fail_gives_the_messages_back_and_delivers_them_again() {
    let mut topics = topics_on_delivery();
    let outcome = all_fail(&mut topics, "t", "q", 15, 1024).unwrap();
    assert_eq!(1, outcome.packages.len());
    assert_eq!(15, outcome.packages[0].subscriber_id);
    let attempts: Vec<i32> = outcome.packages[0].messages.iter().map(|m| m.attempt_no).collect();
    assert_eq!(vec![0, 0, 0], attempts);
    assert_eq!(0, queue_of(&topics, "q").get_queue_size());
    assert_eq!(3, queue_of(&topics, "q").get_on_delivery());
    assert!(matches!(
        all_fail(&mut topics, "t", "x", 15, 1024),
        Err(OperationFailResult::QueueNotFound { queue_id }) if queue_id == "x"
    ));
}

#[test]
fn intermediary_confirm_by_topic_and_queue_id() {
    let mut topics = topics_on_delivery();
    let outcome = intermediary_confirm(&mut topics, "t", "q", 15, ids(2, 2), 1024).unwrap();
    assert!(outcome.packages.is_empty());
    assert_eq!(0, queue_of(&topics, "q").get_queue_size());
    assert_eq!(2, queue_of(&topics, "q").get_on_delivery());
    assert!(matches!(
        intermediary_confirm(&mut topics, "x", "q", 15, ids(2, 2), 1024),
        Err(OperationFailResult::TopicNotFound { topic_id }) if topic_id == "x"
    ));
}

#[test]
fn some_messages_are_confirmed_by_topic_and_queue_id() {
    let mut topics = topics_on_delivery();
    let outcome = some_messages_are_confirmed(&mut topics, "t", "q", 15, ids(1, 2), 1024).unwrap();
    assert_eq!(1, outcome.packages.len());
    assert_eq!(1, outcome.packages[0].messages.len());
    assert_eq!(3, outcome.packages[0].messages[0].id);
    assert_eq!(0, outcome.packages[0].messages[0].attempt_no);
    assert_eq!(0, queue_of(&topics, "q").get_queue_size());
    assert!(matches!(
        some_messages_are_confirmed(&mut topics, "t", "x", 15, ids(1, 2), 1024),
        Err(OperationFailResult::QueueNotFound { queue_id }) if queue_id == "x"
    ));
}

#[test]
fn subscribe_to_queue_of_unknown_topic() {
    let mut topics = TopicsList::new();
    assert!(matches!(
        subscribe_to_queue(&mut topics, false, "t", "q", TopicQueueType::Permanent, 1, 10, 1, 1024),
        Err(OperationFailResult::TopicNotFound { topic_id }) if topic_id == "t"
    ));
    assert!(topics.get("t").is_none());
    let outcome = subscribe_to_queue(&mut topics, true, "t", "q", TopicQueueType::Permanent, 1, 10, 1, 1024).unwrap().unwrap();
    assert!(outcome.packages.is_empty());
    let topic = topics.get("t").unwrap();
    assert_eq!(0, topic.message_id);
    assert_eq!(1, topic.queues.get("q").unwrap().subscribers.get_amount());
}

#[test]
fn subscription_is_followed_by_a_delivery_round() {
    let mut topics = TopicsList::new();
    let topic = topics.restore("t".to_string(), 3);
    topic.pages = pages_1_to_3();
    topic.queues.add_queue_if_not_exists("t".to_string(), "q".to_string(), TopicQueueType::Permanent).enqueue_messages(&ids(1, 3));
    let outcome = subscribe_to_queue(&mut topics, false, "t", "q", TopicQueueType::Permanent, 15, 13, 1, 1024).unwrap().unwrap();
    assert_eq!(1, outcome.packages.len());
    assert_eq!(3, outcome.packages[0].messages.len());
    assert_eq!(3, queue_of(&topics, "q").get_on_delivery());
    assert_eq!(
        Ok(Err(SubscribeErrorResult::SubscriberOfSameConnectionExists)),
        subscribe_to_queue(&mut topics, false, "t", "q", TopicQueueType::Permanent, 16, 13, 1, 1024).map(|r| r.map(|_| ()))
    );
}

#[test]
fn set_message_id_uses_the_topic_message_id() {
    let mut topics = topics_on_delivery();
    assert_eq!(Ok(()), set_message_id(&mut topics, "t", "q", 2));
    assert_eq!(vec![QueueIndexRange { from_id: 2, to_id: 3 }], queue_of(&topics, "q").queue.get_snapshot());
    assert!(matches!(
        set_message_id(&mut topics, "x", "q", 2),
        Err(OperationFailResult::TopicNotFound { topic_id }) if topic_id == "x"
    ));
    assert!(matches!(
        set_message_id(&mut topics, "t", "x", 2),
        Err(OperationFailResult::QueueNotFound { queue_id }) if queue_id == "x"
    ));
}

#[test]
fn delete_queue_of_a_topic() {
    let mut topics = topics_on_delivery();
    assert_eq!(Ok(()), delete_queue(&mut topics, "t", "q"));
    assert!(topics.get("t").unwrap().queues.get("q").is_none());
    assert_eq!(Ok(()), delete_queue(&mut topics, "t", "q"));
    assert!(matches!(
        delete_queue(&mut topics, "x", "q"),
        Err(OperationFailResult::TopicNotFound { topic_id }) if topic_id == "x"
    ));
}

#[test]
fn topics_are_restored_with_their_queues() {
    let mut topics = TopicsList::new();
    topics.add_if_not_exists("kept");
    let snapshots = vec![
        TopicSnapshot { topic_id: "a".to_string(), message_id: 10, queues: vec![] },
        TopicSnapshot {
            topic_id: "b".to_string(),
            message_id: 20,
            queues: vec![TopicQueueSnapshot {
                queue_id: "q".to_string(),
                queue_type: TopicQueueType::Permanent,
                ranges: vec![QueueIndexRange { from_id: 15, to_id: 20 }, QueueIndexRange { from_id: -3, to_id: 2 }],
            }],
        },
        TopicSnapshot { topic_id: "a".to_string(), message_id: 30, queues: vec![] },
    ];
    restore_topics(&mut topics, snapshots);
    assert_eq!(30, topics.get("a").unwrap().message_id);
    let b = topics.get("b").unwrap();
    assert_eq!(20, b.message_id);
    assert_eq!(vec![QueueIndexRange { from_id: 15, to_id: 20 }], b.queues.get("q").unwrap().queue.get_snapshot());
    assert!(topics.get("kept").is_some());
}

#[test]
fn ranges_that_hold_no_message_ids_are_left_out() {
    let ranges = vec![
        QueueIndexRange { from_id: 1, to_id: 2 },
        QueueIndexRange { from_id: -5, to_id: 3 },
        QueueIndexRange { from_id: 9, to_id: 4 },
        QueueIndexRange { from_id: 5, to_id: i64::MAX },
    ];
    assert_eq!(
        vec![QueueIndexRange { from_id: 1, to_id: 2 }, QueueIndexRange { from_id: 9, to_id: 4 }],
        restorable_part(ranges)
    );
}

#[test]
fn queues_are_restored_from_snapshots() {
    let mut list = TopicQueuesList::new();
    list.add_queue_if_not_exists("t".to_string(), "kept".to_string(), TopicQueueType::Permanent);
    list.get_mut("kept").unwrap().enqueue_messages(&ids(7, 7));
    let snapshots = vec![
        TopicQueueSnapshot {
            queue_id: "a".to_string(),
            queue_type: TopicQueueType::Permanent,
            ranges: vec![QueueIndexRange { from_id: 1, to_id: 2 }],
        },
        TopicQueueSnapshot {
            queue_id: "b".to_string(),
            queue_type: TopicQueueType::PermanentWithSingleConnection,
            ranges: vec![QueueIndexRange { from_id: 5, to_id: 9 }],
        },
        TopicQueueSnapshot {
            queue_id: "a".to_string(),
            queue_type: TopicQueueType::DeleteOnDisconnect,
            ranges: vec![QueueIndexRange { from_id: 3, to_id: 3 }],
        },
    ];
    restore_topic_queues(&mut list, &"t".to_string(), snapshots);
    let a = list.get("a").unwrap();
    assert_eq!(TopicQueueType::DeleteOnDisconnect, a.queue_type);
    assert_eq!(vec![QueueIndexRange { from_id: 3, to_id: 3 }], a.queue.get_snapshot());
    assert_eq!(5, list.get("b").unwrap().get_queue_size());
    assert_eq!(1, list.get("kept").unwrap().get_queue_size());
    assert_eq!(3, list.get_all().len());
}

#[test]
fn session_subscribers_are_returned_with_their_queues() {
    let mut list = TopicQueuesList::new();
    subscribe_session(list.add_queue_if_not_exists("t".to_string(), "a".to_string(), TopicQueueType::Permanent), TopicQueueType::Permanent, 1, 10, 1).unwrap();
    subscribe_session(list.add_queue_if_not_exists("t".to_string(), "b".to_string(), TopicQueueType::Permanent), TopicQueueType::Permanent, 2, 20, 1).unwrap();
    subscribe_session(list.add_queue_if_not_exists("t".to_string(), "c".to_string(), TopicQueueType::Permanent), TopicQueueType::Permanent, 3, 10, 1).unwrap();
    let removed = list.remove_subscribers_by_session_id(10).unwrap();
    let summary: Vec<(String, i64)> = removed.iter().map(|(queue_id, s)| (queue_id.clone(), s.id)).collect();
    assert_eq!(vec![("a".to_string(), 1), ("c".to_string(), 3)], summary);
    assert_eq!(1, list.get("b").unwrap().subscribers.get_amount());
}

#[test]
fn disconnected_session_gives_its_messages_back() {
    let mut list = list_on_delivery();
    subscribe_session(list.get_mut("q").unwrap(), TopicQueueType::Permanent, 16, 14, 1).unwrap();
    subscribe_session(
        list.add_queue_if_not_exists("t".to_string(), "other".to_string(), TopicQueueType::Permanent),
        TopicQueueType::Permanent,
        17,
        13,
        1,
    )
    .unwrap();
    my_service_bus::operations::sessions::handle_after_disconnect(&mut list, 13);
    let queue = list.get("q").unwrap();
    assert_eq!(3, queue.get_queue_size());
    assert_eq!(0, queue.delivery_attempts.get(1));
    assert!(queue.subscribers.get_by_id(15).is_none());
    assert!(queue.subscribers.get_by_id(16).is_some());
    assert_eq!(0, list.get("other").unwrap().subscribers.get_amount());
    my_service_bus::operations::sessions::handle_after_disconnect(&mut list, 99);
    assert_eq!(3, list.get("q").unwrap().get_queue_size());
}

#[test]
fn persisted_queues_come_back_from_their_snapshots() {
    let mut list = TopicQueuesList::new();
    list.add_queue_if_not_exists("t".to_string(), "a".to_string(), TopicQueueType::Permanent).enqueue_messages(&ids(1, 4));
    list.add_queue_if_not_exists("t".to_string(), "temp".to_string(), TopicQueueType::DeleteOnDisconnect).enqueue_messages(&ids(2, 2));
    list.add_queue_if_not_exists("t".to_string(), "b".to_string(), TopicQueueType::PermanentWithSingleConnection).enqueue_messages(&ids(8, 9));
    let snapshots = list.get_snapshot_to_persist();
    let mut restored = TopicQueuesList::new();
    restore_topic_queues(&mut restored, &"t".to_string(), snapshots);
    assert_eq!(2, restored.get_all().len());
    assert!(restored.get("temp").is_none());
    for queue_id in ["a", "b"] {
        let before = list.get(queue_id).unwrap();
        let after = restored.get(queue_id).unwrap();
        assert_eq!(before.queue.get_snapshot(), after.queue.get_snapshot());
        assert_eq!(before.queue_type, after.queue_type);
        assert_eq!(0, after.subscribers.get_amount());
    }
}

#[test]
fn topic_delivery_goes_queue_after_queue() {
    let mut topics = TopicsList::new();
    let topic = topics.restore("t".to_string(), 3);
    topic.pages = pages_1_to_3();
    for (queue_id, subscriber_id, session_id) in [("a", 1, 10), ("b", 2, 20)] {
        let queue = topic.queues.add_queue_if_not_exists("t".to_string(), queue_id.to_string(), TopicQueueType::Permanent);
        subscribe_session(queue, TopicQueueType::Permanent, subscriber_id, session_id, 1).unwrap();
        queue.enqueue_messages(&ids(1, 3));
    }
    let outcomes = deliver_to_topic(topic, 1024);
    assert_eq!(2, outcomes.len());
    assert_eq!(1, outcomes[0].packages[0].subscriber_id);
    assert_eq!(2, outcomes[1].packages[0].subscriber_id);
    assert!(outcomes.iter().all(|o| o.load_page.is_none() && o.packages[0].messages.len() == 3));
}

#[test]
fn topic_delivery_stops_at_a_queue_waiting_for_a_page() {
    let mut topics = TopicsList::new();
    let topic = topics.restore("t".to_string(), 200_000);
    topic.pages = pages_1_to_3();
    for (queue_id, subscriber_id, session_id, from) in [("a", 1, 10, 150_000), ("b", 2, 20, 1)] {
        let queue = topic.queues.add_queue_if_not_exists("t".to_string(), queue_id.to_string(), TopicQueueType::Permanent);
        subscribe_session(queue, TopicQueueType::Permanent, subscriber_id, session_id, 1).unwrap();
        queue.enqueue_messages(&ids(from, from));
    }
    let outcomes = deliver_to_topic(topic, 1024);
    assert_eq!(1, outcomes.len());
    assert_eq!(Some(1), outcomes[0].load_page);
    assert!(outcomes[0].packages.is_empty());
    assert_eq!(1, queue_of(&topics, "b").get_queue_size());
}
