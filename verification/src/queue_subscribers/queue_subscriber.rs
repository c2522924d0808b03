//! A subscriber of a queue and the state of its delivery.
use vstd::prelude::*;

use crate::date_time::{positive_or_zero_micros, DateTimeAsMicroseconds};
use crate::queue_subscribers::subscriber_metrics::{
    ConnectionId, SubscriberId, SubscriberMetrics, DELIVERY_HISTORY_LEN,
    DELIVERY_MODE_ON_DELIVERY, DELIVERY_MODE_READY_TO_DELIVER, DELIVERY_MODE_RENTED,
};
use crate::queue_with_intervals::{MessageId, QueueWithIntervals};
use crate::queues::delivery_bucket::DeliveryBucket;

verus! {

pub struct OnDeliveryStateData {
    pub bucket: DeliveryBucket,
    pub inserted: DateTimeAsMicroseconds,
}

/// A subscriber is ready, rented by a delivery being prepared, or waiting for the
/// confirmation of the messages it was sent.
pub enum QueueSubscriberDeliveryState {
    ReadyToDeliver,
    Rented,
    OnDelivery(OnDeliveryStateData),
}

impl QueueSubscriberDeliveryState {
    pub fn is_ready_to_deliver(&self) -> (result: bool)
        ensures
            result == (*self is ReadyToDeliver),
    {
        match self {
            QueueSubscriberDeliveryState::ReadyToDeliver => true,
            _ => false,
        }
    }

    pub fn to_string(&self) -> (result: &'static str)
        ensures
            result@ == match self {
                QueueSubscriberDeliveryState::ReadyToDeliver => "ReadyToDeliver"@,
                QueueSubscriberDeliveryState::Rented => "Rented"@,
                QueueSubscriberDeliveryState::OnDelivery(_) => "OnDelivery"@,
            },
    {
        match self {
            QueueSubscriberDeliveryState::ReadyToDeliver => "ReadyToDeliver",
            QueueSubscriberDeliveryState::Rented => "Rented",
            QueueSubscriberDeliveryState::OnDelivery(_) => "OnDelivery",
        }
    }
}

pub struct QueueSubscriber {
    pub id: SubscriberId,
    pub topic_id: String,
    pub queue_id: String,
    pub session_id: ConnectionId,
    pub delivery_packet_version: i32,
    pub subscribed: DateTimeAsMicroseconds,
    pub metrics: SubscriberMetrics,
    pub delivery_state: QueueSubscriberDeliveryState,
}

/// What stays the same when only the delivery state and the delivery mode of a subscriber change.
pub open spec fn same_identity(a: QueueSubscriber, b: QueueSubscriber) -> bool {
    &&& a.id == b.id
    &&& a.topic_id@ == b.topic_id@
    &&& a.queue_id@ == b.queue_id@
    &&& a.session_id == b.session_id
    &&& a.delivery_packet_version == b.delivery_packet_version
    &&& a.subscribed == b.subscribed
    &&& a.metrics.subscriber_id == b.metrics.subscriber_id
    &&& a.metrics.connection_id == b.metrics.connection_id
}

/// What stays the same when only the delivery mode of the metrics changes.
pub open spec fn same_statistics(a: SubscriberMetrics, b: SubscriberMetrics) -> bool {
    &&& a.start_delivery_time == b.start_delivery_time
    &&& a.delivered_amount == b.delivered_amount
    &&& a.delivery_microseconds == b.delivery_microseconds
    &&& a.active == b.active
    &&& a.delivery_history@ == b.delivery_history@
}

/// How long a subscriber in `state` has been on delivery at `now`, when that exceeds
/// `max_delivery_micros`.
pub open spec fn dead_on_delivery_at(state: QueueSubscriberDeliveryState, max_delivery_micros: i64, now: DateTimeAsMicroseconds) -> Option<i64> {
    match state {
        QueueSubscriberDeliveryState::OnDelivery(data) => {
            let d = positive_or_zero_micros(now.unix_microseconds as int, data.inserted.unix_microseconds as int);
            if d > max_delivery_micros {
                Some(d as i64)
            } else {
                None
            }
        },
        _ => None,
    }
}

impl QueueSubscriber {
    /// The invariant of a subscriber: its metrics belong to it and its history is bounded.
    pub open spec fn wf(&self) -> bool {
        &&& self.metrics.subscriber_id == self.id
        &&& self.metrics.connection_id == self.session_id
        &&& self.metrics.delivery_history@.len() <= DELIVERY_HISTORY_LEN
    }

    /// The ids on delivery, when the subscriber is on delivery.
    pub open spec fn ids_on_delivery(&self) -> Option<Set<int>> {
        match self.delivery_state {
            QueueSubscriberDeliveryState::OnDelivery(data) => Some(data.bucket.ids@),
            _ => None,
        }
    }

    pub fn new(
        id: SubscriberId,
        topic_id: String,
        queue_id: String,
        session_id: ConnectionId,
        delivery_packet_version: i32,
    ) -> (result: Self)
        ensures
            result.wf(),
            result.id == id,
            result.topic_id@ == topic_id@,
            result.queue_id@ == queue_id@,
            result.session_id == session_id,
            result.delivery_packet_version == delivery_packet_version,
            result.delivery_state == QueueSubscriberDeliveryState::ReadyToDeliver,
            result.metrics.delivery_mode == DELIVERY_MODE_READY_TO_DELIVER,
            result.metrics.active == 0,
            result.metrics.delivered_amount == 0,
            result.metrics.delivery_microseconds == 0,
            result.metrics.delivery_history@ == Seq::<i32>::empty(),
            result.metrics.start_delivery_time == result.subscribed,
    {
        let subscribed = DateTimeAsMicroseconds::now();
        QueueSubscriber {
            id,
            topic_id,
            queue_id,
            session_id,
            delivery_packet_version,
            subscribed,
            metrics: SubscriberMetrics::new(id, session_id, subscribed),
            delivery_state: QueueSubscriberDeliveryState::ReadyToDeliver,
        }
    }

    /// Rents a ready subscriber for a delivery; says whether it was ready.
    pub fn rent_me(&mut self) -> (result: bool)
        ensures
            result == (old(self).delivery_state is ReadyToDeliver),
            same_identity(*final(self), *old(self)),
            same_statistics(final(self).metrics, old(self).metrics),
            result ==> final(self).delivery_state == QueueSubscriberDeliveryState::Rented
                && final(self).metrics.delivery_mode == DELIVERY_MODE_RENTED,
            !result ==> final(self).delivery_state == old(self).delivery_state
                && final(self).metrics.delivery_mode == old(self).metrics.delivery_mode,
    {
        if let QueueSubscriberDeliveryState::ReadyToDeliver = &self.delivery_state {
            self.metrics.set_delivery_mode(DELIVERY_MODE_RENTED);
            self.delivery_state = QueueSubscriberDeliveryState::Rented;
            return true;
        }
        false
    }

    /// Gives a rented subscriber back without a delivery.
    pub fn cancel_the_rent(&mut self)
        requires
            old(self).delivery_state is Rented,
        ensures
            final(self).delivery_state == QueueSubscriberDeliveryState::ReadyToDeliver,
            final(self).metrics.delivery_mode == DELIVERY_MODE_READY_TO_DELIVER,
            same_identity(*final(self), *old(self)),
            same_statistics(final(self).metrics, old(self).metrics),
    {
        self.metrics.set_delivery_mode(DELIVERY_MODE_READY_TO_DELIVER);
        self.delivery_state = QueueSubscriberDeliveryState::ReadyToDeliver;
    }

    /// Makes the subscriber ready again and hands out the bucket it had on delivery.
    pub fn reset_delivery(&mut self) -> (result: Option<DeliveryBucket>)
        ensures
            final(self).delivery_state == QueueSubscriberDeliveryState::ReadyToDeliver,
            final(self).metrics.delivery_mode == DELIVERY_MODE_READY_TO_DELIVER,
            same_identity(*final(self), *old(self)),
            same_statistics(final(self).metrics, old(self).metrics),
            result == match old(self).delivery_state {
                QueueSubscriberDeliveryState::OnDelivery(data) => Some(data.bucket),
                _ => None,
            },
    {
        let mut prev_delivery_state = QueueSubscriberDeliveryState::ReadyToDeliver;
        std::mem::swap(&mut prev_delivery_state, &mut self.delivery_state);
        self.metrics.set_delivery_mode(DELIVERY_MODE_READY_TO_DELIVER);
        if let QueueSubscriberDeliveryState::OnDelivery(state) = prev_delivery_state {
            return Some(state.bucket);
        }
        None
    }

    /// Puts a rented subscriber on delivery of `bucket`, stamped with the current time.
    pub fn set_messages_on_delivery(&mut self, bucket: DeliveryBucket)
        requires
            old(self).delivery_state is Rented,
        ensures
            final(self).delivery_state matches QueueSubscriberDeliveryState::OnDelivery(data)
                && data.bucket == bucket,
            final(self).metrics.delivery_mode == DELIVERY_MODE_ON_DELIVERY,
            same_identity(*final(self), *old(self)),
            same_statistics(final(self).metrics, old(self).metrics),
    {
        self.delivery_state = QueueSubscriberDeliveryState::OnDelivery(
            OnDeliveryStateData { bucket, inserted: DateTimeAsMicroseconds::now() },
        );
        self.metrics.set_delivery_mode(DELIVERY_MODE_ON_DELIVERY);
    }

    /// The number of messages on delivery, 0 when not on delivery.
    pub fn get_messages_amount_on_delivery(&self) -> (result: usize)
        ensures
            match self.delivery_state {
                QueueSubscriberDeliveryState::OnDelivery(data) => data.bucket.ids@.len() <= usize::MAX
                    ==> result == data.bucket.ids@.len(),
                _ => result == 0,
            },
    {
        match &self.delivery_state {
            QueueSubscriberDeliveryState::ReadyToDeliver => 0,
            QueueSubscriberDeliveryState::Rented => 0,
            QueueSubscriberDeliveryState::OnDelivery(state) => state.bucket.messages_count(),
        }
    }

    /// How long the subscriber has been on delivery at `now`, when that exceeds
    /// `max_delivery_micros`.
    pub fn is_dead_on_delivery_at(&self, max_delivery_micros: i64, now: DateTimeAsMicroseconds) -> (result: Option<i64>)
        ensures
            result == dead_on_delivery_at(self.delivery_state, max_delivery_micros, now),
    {
        match &self.delivery_state {
            QueueSubscriberDeliveryState::ReadyToDeliver => None,
            QueueSubscriberDeliveryState::Rented => None,
            QueueSubscriberDeliveryState::OnDelivery(state) => {
                let duration = now.duration_since_as_positive_or_zero(state.inserted);
                if duration > max_delivery_micros {
                    return Some(duration);
                }
                None
            },
        }
    }

    /// `is_dead_on_delivery_at` the current time.
    pub fn is_dead_on_delivery(&self, max_delivery_micros: i64) -> (result: Option<i64>)
        ensures
            exists|now: DateTimeAsMicroseconds|
                now.unix_microseconds >= 0 && result == #[trigger] dead_on_delivery_at(self.delivery_state, max_delivery_micros, now),
    {
        self.is_dead_on_delivery_at(max_delivery_micros, DateTimeAsMicroseconds::now())
    }

    /// The smallest id on delivery.
    pub fn get_min_message_id(&self) -> (result: Option<MessageId>)
        ensures
            match self.delivery_state {
                QueueSubscriberDeliveryState::OnDelivery(data) => match result {
                    None => data.bucket.ids@ == Set::<int>::empty(),
                    Some(id) => data.bucket.ids@.contains(id as int) && forall|x: int|
                        #[trigger] data.bucket.ids@.contains(x) ==> id <= x,
                },
                _ => result is None,
            },
    {
        match &self.delivery_state {
            QueueSubscriberDeliveryState::OnDelivery(state) => state.bucket.ids.get_min_id(),
            _ => None,
        }
    }


    /// Counts the confirmed messages of a delivery in progress and takes them out of its bucket.
    pub fn intermediary_confirmed(&mut self, confirmed: &QueueWithIntervals)
        requires
            old(self).delivery_state matches QueueSubscriberDeliveryState::OnDelivery(data)
                ==> data.bucket.confirmed + confirmed@.len() <= usize::MAX,
        ensures
            same_identity(*final(self), *old(self)),
            final(self).metrics == old(self).metrics,
            match old(self).delivery_state {
                QueueSubscriberDeliveryState::OnDelivery(data) => final(self).delivery_state matches QueueSubscriberDeliveryState::OnDelivery(d)
                    && d.inserted == data.inserted
                    && d.bucket.confirmed == data.bucket.confirmed + confirmed@.len()
                    && d.bucket.ids@ == data.bucket.ids@.difference(confirmed@),
                _ => final(self).delivery_state == old(self).delivery_state,
            },
    {
        if let QueueSubscriberDeliveryState::OnDelivery(state) = &mut self.delivery_state {
            state.bucket.confirmed(confirmed);
        }
    }

    /// A copy of the ids on delivery.
    pub fn get_messages_on_delivery(&self) -> (result: Option<QueueWithIntervals>)
        ensures
            match self.ids_on_delivery() {
                Some(ids) => result matches Some(q) && q@ == ids,
                None => result is None,
            },
    {
        match &self.delivery_state {
            QueueSubscriberDeliveryState::OnDelivery(state) => {
                let snapshot = state.bucket.ids.get_snapshot();
                Some(QueueWithIntervals::restore(snapshot))
            },
            _ => None,
        }
    }
}

} // verus!
