pub mod queue_subscriber;
pub mod subscriber_id_generator;
pub mod subscriber_metrics;
pub mod subscribers_list;
