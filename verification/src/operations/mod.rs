pub mod delivery;
pub mod delivery_confirmation;
pub mod delivery_payloads_collector;
pub mod fail_result;
pub mod gc_queues_with_no_subscribers;
pub mod initialization;
pub mod page_loader;
pub mod queues;
pub mod sessions;
pub mod subscriber;
