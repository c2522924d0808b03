pub mod delivery_attempts;
pub mod delivery_bucket;
pub mod delivery_iterator;
pub mod queue;
pub mod queue_data;
pub mod queue_metrics;
pub mod queue_type;
pub mod queues_list;
