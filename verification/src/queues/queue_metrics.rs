//! What is reported of a queue.
use vstd::prelude::*;

use crate::queue_with_intervals::QueueIndexRange;
use crate::queues::queue_type::TopicQueueType;

verus! {

/// A queue's id, kind, number of messages and the intervals of ids it holds.
#[derive(Clone)]
pub struct TopicQueueMetrics {
    pub id: String,
    pub queue_type: TopicQueueType,
    pub size: i64,
    pub queue: Vec<QueueIndexRange>,
}

} // verus!
