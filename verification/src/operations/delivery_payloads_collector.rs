//! Collects, subscriber by subscriber, the messages of a delivery round.
use vstd::prelude::*;

use crate::queue_subscribers::subscriber_metrics::SubscriberId;
use crate::queue_with_intervals::QueueWithIntervals;
use crate::queues::delivery_bucket::DeliveryBucket;

verus! {

/// The messages gathered for one subscriber.
pub struct DeliverPayloadBySubscriber {
    pub messages: DeliveryBucket,
    pub session_id: i64,
    pub subscriber_id: SubscriberId,
}

impl DeliverPayloadBySubscriber {
    pub fn new(subscriber_id: SubscriberId, session_id: i64) -> (result: Self)
        ensures
            result.subscriber_id == subscriber_id,
            result.session_id == session_id,
            result.messages.ids@ == Set::<int>::empty(),
            result.messages.confirmed == 0,
    {
        DeliverPayloadBySubscriber {
            subscriber_id,
            session_id,
            messages: DeliveryBucket::new(QueueWithIntervals::new()),
        }
    }
}

pub struct DeliveryPayloadsCollector {
    pub subscribers: Vec<DeliverPayloadBySubscriber>,
    pub current_subscriber: Option<DeliverPayloadBySubscriber>,
}

pub enum PayloadCollectorCompleteOperation {
    Completed,
    Canceled(DeliverPayloadBySubscriber),
}

impl DeliveryPayloadsCollector {
    pub fn new() -> (result: Self)
        ensures
            result.subscribers@ == Seq::<DeliverPayloadBySubscriber>::empty(),
            result.current_subscriber is None,
    {
        DeliveryPayloadsCollector { subscribers: Vec::new(), current_subscriber: None }
    }

    pub fn set_current(&mut self, session: DeliverPayloadBySubscriber)
        ensures
            final(self).current_subscriber == Some(session),
            final(self).subscribers@ == old(self).subscribers@,
    {
        self.current_subscriber = Some(session);
    }

    /// Closes the current subscriber: kept when it got messages, handed back otherwise.
    pub fn complete(&mut self) -> (result: PayloadCollectorCompleteOperation)
        requires
            old(self).current_subscriber is Some,
        ensures
            final(self).current_subscriber is None,
            ({
                let current = old(self).current_subscriber->0;
                if current.messages.ids@.len() > 0 {
                    &&& result is Completed
                    &&& final(self).subscribers@ == old(self).subscribers@.push(current)
                } else {
                    &&& result == PayloadCollectorCompleteOperation::Canceled(current)
                    &&& final(self).subscribers@ == old(self).subscribers@
                }
            }),
    {
        let mut current_subscriber = None;
        std::mem::swap(&mut current_subscriber, &mut self.current_subscriber);
        let current_subscriber = current_subscriber.unwrap();
        current_subscriber.messages.ids.well_formed_facts();
        if current_subscriber.messages.ids.len() > 0 {
            self.subscribers.push(current_subscriber);
            PayloadCollectorCompleteOperation::Completed
        } else {
            PayloadCollectorCompleteOperation::Canceled(current_subscriber)
        }
    }
}

} // verus!
