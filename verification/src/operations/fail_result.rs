//! Why an operation on topics, queues or subscribers failed.
use vstd::prelude::*;

use crate::queue_subscribers::subscriber_metrics::SubscriberId;

verus! {

#[derive(Debug, PartialEq, Eq)]
pub enum OperationFailResult {
    TopicNotFound { topic_id: String },
    QueueNotFound { queue_id: String },
    SubscriberNotFound { id: SubscriberId },
    SessionIsDisconnected,
    InvalidProtobufPayload(String),
    PersistenceError(String),
    Other(String),
    ShuttingDown,
}

} // verus!
