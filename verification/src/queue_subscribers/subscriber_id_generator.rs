//! Hands out subscriber ids from a counter shared between threads.
use std::sync::atomic::AtomicI64;
use vstd::prelude::*;

use crate::queue_subscribers::subscriber_metrics::SubscriberId;

verus! {

pub struct SubscriberIdGenerator {
    current_id: AtomicI64,
}

impl SubscriberIdGenerator {
    pub fn new() -> (result: Self) {
        SubscriberIdGenerator { current_id: AtomicI64::new(0) }
    }

    /// The current value of the shared counter, which moves on by one.
    pub fn get_next_subsriber_id(&self) -> (result: SubscriberId) {
        let result = self.current_id.fetch_add(1, std::sync::atomic::Ordering::SeqCst);
        result
    }
}

} // verus!
