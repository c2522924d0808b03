use my_service_bus::date_time::DateTimeAsMicroseconds;
use my_service_bus::queue_subscribers::queue_subscriber::{QueueSubscriber, QueueSubscriberDeliveryState};
use my_service_bus::queue_subscribers::subscriber_id_generator::SubscriberIdGenerator;
use my_service_bus::queue_subscribers::subscriber_metrics::{SubscriberMetrics, DELIVERY_HISTORY_LEN};
use my_service_bus::queue_subscribers::subscribers_list::{DeadSubscriber, SubscribeErrorResult, SubscribersList};
use my_service_bus::queue_with_intervals::QueueWithIntervals;
use my_service_bus::queues::delivery_bucket::DeliveryBucket;
use my_service_bus::queues::queue_type::TopicQueueType;

fn subscribe(list: &mut SubscribersList, id: i64, session_id: i64) -> Result<Option<QueueSubscriber>, SubscribeErrorResult> {
    list.subscribe(id, "topic".to_string(), "queue".to_string(), session_id, 1)
}

fn bucket(from_id: i64, to_id: i64) -> DeliveryBucket {
    let mut ids = QueueWithIntervals::new();
    ids.enqueue_range(from_id, to_id);
    DeliveryBucket::new(ids)
}

#[test]
fn subscriber_ids_come_one_after_another() {
    let generator = SubscriberIdGenerator::new();
    assert_eq!(0, generator.get_next_subsriber_id());
    assert_eq!(1, generator.get_next_subsriber_id());
    assert_eq!(2, generator.get_next_subsriber_id());
}

#[test]
fn many_subscribers_on_a_permanent_queue() {
    let mut list = SubscribersList::new(TopicQueueType::Permanent);
    assert!(matches!(subscribe(&mut list, 1, 10), Ok(None)));
    assert!(matches!(subscribe(&mut list, 2, 20), Ok(None)));
    assert_eq!(2, list.get_amount());
    assert_eq!(2, list.get_all().unwrap().len());
    assert_eq!(20, list.get_by_id(2).unwrap().session_id);
}

#[test]
fn a_session_subscribes_once() {
    let mut list = SubscribersList::new(TopicQueueType::Permanent);
    assert!(matches!(subscribe(&mut list, 1, 10), Ok(None)));
    assert!(matches!(subscribe(&mut list, 2, 10), Err(SubscribeErrorResult::SubscriberOfSameConnectionExists)));
    assert!(matches!(subscribe(&mut list, 1, 30), Err(SubscribeErrorResult::SubscriberWithIdExists)));
    assert_eq!(1, list.get_amount());
}

#[test]
fn single_connection_queue_replaces_its_subscriber() {
    let mut list = SubscribersList::new(TopicQueueType::PermanentWithSingleConnection);
    assert!(matches!(subscribe(&mut list, 1, 10), Ok(None)));
    match subscribe(&mut list, 2, 20) {
        Ok(Some(kicked)) => assert_eq!(1, kicked.id),
        _ => panic!("the first subscriber must be handed back"),
    }
    assert_eq!(1, list.get_amount());
    assert!(list.get_by_id(1).is_none());
    assert!(list.get_by_id(2).is_some());
}

#[test]
fn removing_subscribers() {
    let mut list = SubscribersList::new(TopicQueueType::DeleteOnDisconnect);
    subscribe(&mut list, 1, 10).unwrap();
    subscribe(&mut list, 2, 20).unwrap();
    assert_eq!(1, list.remove(1).unwrap().id);
    assert!(list.remove(1).is_none());
    assert_eq!(2, list.remove_by_connection_id(20).unwrap().id);
    assert_eq!(0, list.get_amount());
    assert!(list.get_all().is_none());
}

#[test]
fn renting_goes_round_the_ready_subscribers() {
    let mut list = SubscribersList::new(TopicQueueType::Permanent);
    subscribe(&mut list, 1, 10).unwrap();
    subscribe(&mut list, 2, 20).unwrap();
    let first = list.get_and_rent_next_subscriber_ready_to_deliver().unwrap().id;
    let second = list.get_and_rent_next_subscriber_ready_to_deliver().unwrap().id;
    assert_eq!(1, first);
    assert_eq!(2, second);
    assert!(list.get_and_rent_next_subscriber_ready_to_deliver().is_none());
}

#[test]
fn subscriber_delivery_states() {
    let mut subscriber = QueueSubscriber::new(7, "t".to_string(), "q".to_string(), 70, 1);
    assert!(subscriber.delivery_state.is_ready_to_deliver());
    assert_eq!("ReadyToDeliver", subscriber.delivery_state.to_string());
    assert!(subscriber.rent_me());
    assert!(!subscriber.rent_me());
    assert_eq!("Rented", subscriber.delivery_state.to_string());
    subscriber.set_messages_on_delivery(bucket(5, 9));
    assert_eq!("OnDelivery", subscriber.delivery_state.to_string());
    assert_eq!(5, subscriber.get_messages_amount_on_delivery());
    assert_eq!(Some(5), subscriber.get_min_message_id());
    let mut confirmed = QueueWithIntervals::new();
    confirmed.enqueue(5);
    subscriber.intermediary_confirmed(&confirmed);
    assert_eq!(4, subscriber.get_messages_amount_on_delivery());
    assert_eq!(Some(6), subscriber.get_min_message_id());
    let returned = subscriber.reset_delivery().unwrap();
    assert_eq!(4, returned.ids.len());
    assert_eq!(1, returned.confirmed);
    assert!(subscriber.delivery_state.is_ready_to_deliver());
    assert!(subscriber.reset_delivery().is_none());
}

#[test]
fn cancelled_rent_makes_the_subscriber_ready() {
    let mut subscriber = QueueSubscriber::new(7, "t".to_string(), "q".to_string(), 70, 1);
    subscriber.rent_me();
    subscriber.cancel_the_rent();
    assert!(matches!(subscriber.delivery_state, QueueSubscriberDeliveryState::ReadyToDeliver));
}

#[test]
fn dead_on_delivery_after_the_timeout() {
    let mut subscriber = QueueSubscriber::new(7, "t".to_string(), "q".to_string(), 70, 1);
    subscriber.rent_me();
    subscriber.set_messages_on_delivery(bucket(1, 1));
    let inserted = match &subscriber.delivery_state {
        QueueSubscriberDeliveryState::OnDelivery(data) => data.inserted,
        _ => panic!("the subscriber must be on delivery"),
    };
    let later = DateTimeAsMicroseconds::new(inserted.unix_microseconds + 5_000_000);
    assert_eq!(Some(5_000_000), subscriber.is_dead_on_delivery_at(1_000_000, later));
    assert_eq!(None, subscriber.is_dead_on_delivery_at(10_000_000, later));

    let mut list = SubscribersList::new(TopicQueueType::Permanent);
    subscribe(&mut list, 1, 10).unwrap();
    list.get_and_rent_next_subscriber_ready_to_deliver().unwrap().set_messages_on_delivery(bucket(1, 3));
    assert!(list.find_subscribers_dead_on_delivery_at(1_000_000, inserted).is_none());
    let dead: Vec<DeadSubscriber> = list
        .find_subscribers_dead_on_delivery_at(1_000_000, DateTimeAsMicroseconds::new(i64::MAX / 2))
        .unwrap();
    assert_eq!(1, dead.len());
    assert_eq!(1, dead[0].subscriber_id);
    assert_eq!(10, dead[0].session_id);
    assert_eq!(3, list.get_on_delivery_amount());
    assert_eq!(Some(1), list.get_min_message_id());
}

#[test]
fn metrics_history_keeps_the_last_figures() {
    let mut metrics = SubscriberMetrics::new(1, 2, DateTimeAsMicroseconds::new(0));
    for _ in 0..DELIVERY_HISTORY_LEN + 5 {
        metrics.set_delivered_statistic(2, 10);
        metrics.one_second_tick();
    }
    assert_eq!(DELIVERY_HISTORY_LEN, metrics.delivery_history.len());
    assert!(metrics.delivery_history.iter().all(|figure| *figure == 5));
}

#[test]
fn failed_delivery_is_recorded_as_a_negative_figure() {
    let mut metrics = SubscriberMetrics::new(1, 2, DateTimeAsMicroseconds::new(0));
    metrics.set_not_delivered_statistic(4, 100);
    assert_eq!(vec![-25], metrics.delivery_history);
}
