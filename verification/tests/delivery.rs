use my_service_bus::date_time::DateTimeAsMicroseconds;
use my_service_bus::messages_page::{MessagesPage, MessagesPagesCache, MySbMessage, MySbMessageContent};
use my_service_bus::operations::delivery::try_to_deliver;
use my_service_bus::operations::delivery_payloads_collector::{
    DeliverPayloadBySubscriber, DeliveryPayloadsCollector, PayloadCollectorCompleteOperation,
};
use my_service_bus::operations::subscriber::subscribe_session;
use my_service_bus::queue_subscribers::queue_subscriber::QueueSubscriberDeliveryState;
use my_service_bus::queue_with_intervals::QueueWithIntervals;
use my_service_bus::queues::delivery_attempts::DeliveryAttempts;
use my_service_bus::queues::delivery_iterator::{DeliveryIterator, NextMessageResult};
use my_service_bus::queues::queue::TopicQueue;
use my_service_bus::queues::queue_type::TopicQueueType;
use my_service_bus::queues::queues_list::TopicQueuesList;

const TOPIC_NAME: &str = "TestTopic";
const QUEUE_NAME: &str = "TestQueue";
const SUBSCRIBER_ID: i64 = 15;
const SESSION_ID: i64 = 13;

fn loaded(id: i64, content: Vec<u8>) -> MySbMessage {
    MySbMessage::Loaded(MySbMessageContent { id, content, time: DateTimeAsMicroseconds::new(0) })
}

fn published_two(pages: &mut MessagesPagesCache, queues: &mut TopicQueuesList) {
    let mut page = MessagesPage::new(0);
    page.add(loaded(0, vec![0u8, 1u8, 2u8]));
    page.add(loaded(1, vec![3u8, 4u8, 5u8]));
    pages.restore_page(page);
    let queue = queues.get_mut(QUEUE_NAME).unwrap();
    queue.queue.enqueue(0);
    queue.queue.enqueue(1);
}

fn queues_with_subscriber() -> TopicQueuesList {
    let mut queues = TopicQueuesList::new();
    let queue = queues.add_queue_if_not_exists(TOPIC_NAME.to_string(), QUEUE_NAME.to_string(), TopicQueueType::Permanent);
    subscribe_session(queue, TopicQueueType::Permanent, SUBSCRIBER_ID, SESSION_ID, 1).unwrap();
    queues
}

fn on_delivery_amount(queues: &TopicQueuesList) -> Option<usize> {
    let queue = queues.get(QUEUE_NAME).unwrap();
    let subscriber = queue.subscribers.get_by_id(SUBSCRIBER_ID).unwrap();
    match &subscriber.delivery_state {
        QueueSubscriberDeliveryState::OnDelivery(data) => Some(data.bucket.ids.len() as usize),
        _ => None,
    }
}

#[test]
fn test_two_publish_two_delivery() {
    let mut queues = queues_with_subscriber();
    let mut pages = MessagesPagesCache::new();
    published_two(&mut pages, &mut queues);

    let outcome = try_to_deliver(queues.get_mut(QUEUE_NAME).unwrap(), &pages, 16);

    assert_eq!(outcome.packages.len(), 1);
    assert_eq!(outcome.packages[0].session_id, SESSION_ID);
    assert_eq!(Some(2), on_delivery_amount(&queues));
}

#[test]
fn test_two_publish_one_delivery() {
    let mut queues = queues_with_subscriber();
    let mut pages = MessagesPagesCache::new();
    published_two(&mut pages, &mut queues);

    let outcome = try_to_deliver(queues.get_mut(QUEUE_NAME).unwrap(), &pages, 4);

    assert_eq!(outcome.packages.len(), 1);
    assert_eq!(outcome.packages[0].session_id, SESSION_ID);
    assert_eq!(Some(1), on_delivery_amount(&queues));
}

#[test]
fn test_with_first_not_loaded_message() {
    let mut queues = queues_with_subscriber();
    let mut pages = MessagesPagesCache::new();
    let mut page = MessagesPage::new(0);
    page.add(loaded(1, vec![0u8, 1u8, 2u8]));
    pages.restore_page(page);
    {
        let queue = queues.get_mut(QUEUE_NAME).unwrap();
        queue.queue.enqueue(0);
        queue.queue.enqueue(1);
    }

    let outcome = try_to_deliver(queues.get_mut(QUEUE_NAME).unwrap(), &pages, 4);

    assert_eq!(outcome.packages.len(), 0);
    assert_eq!(None, on_delivery_amount(&queues));
    let queue = queues.get(QUEUE_NAME).unwrap();
    assert!(queue.subscribers.get_by_id(SUBSCRIBER_ID).unwrap().delivery_state.is_ready_to_deliver());
    assert_eq!(Some(0), outcome.load_page);
    assert_eq!(2, queue.get_queue_size());
}

#[test]
fn test_with_all_messages_missing() {
    let mut queues = queues_with_subscriber();
    let mut pages = MessagesPagesCache::new();
    let mut page = MessagesPage::new(0);
    page.add(MySbMessage::Missing { id: 0 });
    page.add(MySbMessage::Missing { id: 1 });
    pages.restore_page(page);
    {
        let queue = queues.get_mut(QUEUE_NAME).unwrap();
        queue.queue.enqueue(0);
        queue.queue.enqueue(1);
    }

    let outcome = try_to_deliver(queues.get_mut(QUEUE_NAME).unwrap(), &pages, 4);

    assert_eq!(outcome.packages.len(), 0);
    let queue = queues.get(QUEUE_NAME).unwrap();
    assert!(queue.subscribers.get_by_id(SUBSCRIBER_ID).unwrap().delivery_state.is_ready_to_deliver());
    assert_eq!(0, queue.queue.len());
}

#[test]
fn test_on_delivery_no_queues() {
    let mut queue = TopicQueue::new("test".to_string(), "no_subscriber".to_string(), TopicQueueType::Permanent);
    let mut pages = MessagesPagesCache::new();
    let mut page = MessagesPage::new(0);
    page.add(loaded(1, vec![0u8, 1u8, 2u8]));
    pages.restore_page(page);
    queue.queue.enqueue(1);

    let outcome = try_to_deliver(&mut queue, &pages, 5 * 1024 * 1024);

    assert_eq!(true, outcome.packages.is_empty());
    assert_eq!(None, outcome.load_page);
    assert_eq!(1, queue.get_queue_size());
}

#[test]
fn test_on_delivery_we_have_queue() {
    let mut pages = MessagesPagesCache::new();
    let mut page = MessagesPage::new(0);
    page.add(loaded(1, vec![0u8, 1u8, 2u8]));
    pages.restore_page(page);
    let mut queue = QueueWithIntervals::new();
    queue.enqueue(1);
    let attempts = DeliveryAttempts::new();
    let mut iterator = DeliveryIterator::new(5 * 1024 * 1024);

    let mut result = Vec::new();
    while let Some(next) = iterator.next(&pages, &mut queue, &attempts) {
        result.push(next);
    }

    assert_eq!(1, result.len());
    match &result[0] {
        NextMessageResult::Value { content, attempt_no } => {
            assert_eq!(content.content, vec![0u8, 1u8, 2u8]);
            assert_eq!(*attempt_no, 0);
        }
        NextMessageResult::LoadDataRequired(_) => {
            panic!("Should not be here")
        }
    }
}

#[test]
fn iterator_asks_for_a_page_that_is_not_cached() {
    let pages = MessagesPagesCache::new();
    let mut queue = QueueWithIntervals::new();
    queue.enqueue(250_000);
    let attempts = DeliveryAttempts::new();
    let mut iterator = DeliveryIterator::new(1024);
    match iterator.next(&pages, &mut queue, &attempts) {
        Some(NextMessageResult::LoadDataRequired(page_id)) => assert_eq!(2, page_id),
        _ => panic!("the page must be asked for"),
    }
    assert_eq!(1, queue.len());
}

#[test]
fn delivered_messages_carry_their_attempt_numbers() {
    let mut queues = queues_with_subscriber();
    let mut pages = MessagesPagesCache::new();
    published_two(&mut pages, &mut queues);
    {
        let queue = queues.get_mut(QUEUE_NAME).unwrap();
        queue.delivery_attempts.add(1);
        queue.delivery_attempts.add(1);
    }
    let outcome = try_to_deliver(queues.get_mut(QUEUE_NAME).unwrap(), &pages, 1024);
    let messages = &outcome.packages[0].messages;
    assert_eq!(2, messages.len());
    assert_eq!((0, 0), (messages[0].id, messages[0].attempt_no));
    assert_eq!((1, 1), (messages[1].id, messages[1].attempt_no));
    assert_eq!(vec![3u8, 4u8, 5u8], messages[1].content);
    assert_eq!(SUBSCRIBER_ID, outcome.packages[0].subscriber_id);
}

#[test]
fn first_ready_subscriber_takes_what_fits() {
    let mut queues = queues_with_subscriber();
    subscribe_session(queues.get_mut(QUEUE_NAME).unwrap(), TopicQueueType::Permanent, 16, 14, 1).unwrap();
    let mut pages = MessagesPagesCache::new();
    published_two(&mut pages, &mut queues);
    let outcome = try_to_deliver(queues.get_mut(QUEUE_NAME).unwrap(), &pages, 1024);
    assert_eq!(1, outcome.packages.len());
    assert_eq!(SUBSCRIBER_ID, outcome.packages[0].subscriber_id);
    assert_eq!(2, outcome.packages[0].messages.len());
    let queue = queues.get(QUEUE_NAME).unwrap();
    assert_eq!(0, queue.get_queue_size());
    assert!(queue.subscribers.get_by_id(16).unwrap().delivery_state.is_ready_to_deliver());
}

#[test]
fn message_that_does_not_fit_leaves_the_queue_undelivered() {
    let mut queues = queues_with_subscriber();
    let mut pages = MessagesPagesCache::new();
    published_two(&mut pages, &mut queues);
    let outcome = try_to_deliver(queues.get_mut(QUEUE_NAME).unwrap(), &pages, 3);
    assert_eq!(1, outcome.packages.len());
    assert_eq!(1, outcome.packages[0].messages.len());
    assert_eq!(0, queues.get(QUEUE_NAME).unwrap().get_queue_size());
    assert_eq!(1, queues.get(QUEUE_NAME).unwrap().get_on_delivery());
}

#[test]
fn collector_keeps_subscribers_that_got_messages() {
    let mut collector = DeliveryPayloadsCollector::new();
    collector.set_current(DeliverPayloadBySubscriber::new(1, 10));
    assert!(matches!(collector.complete(), PayloadCollectorCompleteOperation::Canceled(_)));
    let mut with_messages = DeliverPayloadBySubscriber::new(2, 20);
    with_messages.messages.ids.enqueue(5);
    collector.set_current(with_messages);
    assert!(matches!(collector.complete(), PayloadCollectorCompleteOperation::Completed));
    assert_eq!(1, collector.subscribers.len());
    assert_eq!(2, collector.subscribers[0].subscriber_id);
    assert!(collector.current_subscriber.is_none());
}
