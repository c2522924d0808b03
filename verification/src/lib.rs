//! The core of a message bus: topic queues of message ids, their subscribers,
//! delivery and the confirmation of deliveries.
pub mod date_time;
pub mod messages_page;
pub mod operations;
pub mod persistence;
pub mod queue_subscribers;
pub mod queue_with_intervals;
pub mod queues;
pub mod topics;
