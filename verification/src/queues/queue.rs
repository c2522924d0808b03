//! A queue of a topic: the ids waiting for delivery, the subscribers, and the
//! delivery attempts of the messages that failed.
use vstd::prelude::*;

use crate::date_time::DateTimeAsMicroseconds;
use crate::operations::fail_result::OperationFailResult;
use crate::queue_subscribers::queue_subscriber::{
    same_identity, QueueSubscriber, QueueSubscriberDeliveryState,
};
use crate::queue_subscribers::subscriber_metrics::{
    history_put, not_delivered_figure, SubscriberId, DELIVERY_MODE_READY_TO_DELIVER,
};
use crate::queue_subscribers::subscribers_list::{
    index_of_id, lemma_update_keeps_wf, list_ticked, on_delivery_total, SubscribersList,
};
use crate::queue_with_intervals::{
    contains_in, lemma_contains_one, lemma_contains_split, ranges_set, ranges_wf, snapshot_set,
    valid_message_id, MessageId, QueueIndexRange, QueueWithIntervals,
};
use crate::queues::delivery_attempts::{next_attempt, DeliveryAttempts};
use crate::queues::delivery_bucket::DeliveryBucket;
use crate::queues::queue_type::TopicQueueType;
use vstd::set_lib::set_int_range;

verus! {

/// What is persisted of a queue.
pub struct TopicQueueSnapshot {
    pub queue_id: String,
    pub queue_type: TopicQueueType,
    pub ranges: Vec<QueueIndexRange>,
}

pub struct TopicQueue {
    pub topic_id: String,
    pub queue_id: String,
    pub queue: QueueWithIntervals,
    pub subscribers: SubscribersList,
    pub delivery_attempts: DeliveryAttempts,
    pub queue_type: TopicQueueType,
}

/// The attempts after a failed delivery of `ids`: each of them gets its next attempt number.
pub open spec fn attempts_after_failure(attempts: Map<MessageId, i32>, ids: Set<int>) -> Map<MessageId, i32> {
    Map::new(
        |k: MessageId| attempts.contains_key(k) || ids.contains(k as int),
        |k: MessageId|
            if ids.contains(k as int) {
                next_attempt(attempts, k)
            } else {
                attempts[k]
            },
    )
}

/// The attempts after a successful delivery of `ids`: their counts are forgotten.
pub open spec fn attempts_after_success(attempts: Map<MessageId, i32>, ids: Set<int>) -> Map<MessageId, i32> {
    Map::new(|k: MessageId| attempts.contains_key(k) && !ids.contains(k as int), |k: MessageId| attempts[k])
}

/// Subscriber `i` may differ between `a` and `b`; the others are the same.
pub open spec fn others_unchanged(a: Seq<QueueSubscriber>, b: Seq<QueueSubscriber>, i: int) -> bool {
    &&& a.len() == b.len()
    &&& forall|j: int| 0 <= j < a.len() && j != i ==> #[trigger] b[j] == a[j]
}

/// `b` is `a` made ready again after a delivery of `amount` messages that succeeded.
pub open spec fn delivered_subscriber(a: QueueSubscriber, b: QueueSubscriber, amount: int) -> bool {
    &&& same_identity(b, a)
    &&& b.delivery_state == QueueSubscriberDeliveryState::ReadyToDeliver
    &&& b.metrics.delivery_mode == DELIVERY_MODE_READY_TO_DELIVER
    &&& b.metrics.delivered_amount == if a.metrics.delivered_amount + amount <= usize::MAX {
        a.metrics.delivered_amount + amount
    } else {
        usize::MAX as int
    }
    &&& b.metrics.delivery_microseconds >= a.metrics.delivery_microseconds
    &&& b.metrics.delivery_history@ == a.metrics.delivery_history@
    &&& b.metrics.start_delivery_time == a.metrics.start_delivery_time
    &&& b.metrics.active == a.metrics.active
}

/// `b` is `a` made ready again after a delivery that failed, counted with `amount` messages.
pub open spec fn not_delivered_subscriber(a: QueueSubscriber, b: QueueSubscriber, amount: int) -> bool {
    &&& same_identity(b, a)
    &&& b.delivery_state == QueueSubscriberDeliveryState::ReadyToDeliver
    &&& b.metrics.delivery_mode == DELIVERY_MODE_READY_TO_DELIVER
    &&& exists|micros: i64|
        micros >= 0 && b.metrics.delivery_history@ == #[trigger] history_put(
            a.metrics.delivery_history@,
            not_delivered_figure(amount as i32, micros),
        )
    &&& b.metrics.delivered_amount == a.metrics.delivered_amount
    &&& b.metrics.delivery_microseconds == a.metrics.delivery_microseconds
    &&& b.metrics.start_delivery_time == a.metrics.start_delivery_time
    &&& b.metrics.active == a.metrics.active
}

/// `b` is `a` made ready again; it had nothing on delivery.
pub open spec fn reset_subscriber(a: QueueSubscriber, b: QueueSubscriber) -> bool {
    &&& same_identity(b, a)
    &&& b.delivery_state == QueueSubscriberDeliveryState::ReadyToDeliver
    &&& b.metrics.delivery_mode == DELIVERY_MODE_READY_TO_DELIVER
    &&& b.metrics.delivery_history@ == a.metrics.delivery_history@
    &&& b.metrics.delivered_amount == a.metrics.delivered_amount
    &&& b.metrics.delivery_microseconds == a.metrics.delivery_microseconds
    &&& b.metrics.start_delivery_time == a.metrics.start_delivery_time
    &&& b.metrics.active == a.metrics.active
}

/// Records the outcome of a delivery in the subscriber's metrics: `amount` messages
/// and the time since the delivery started.
fn update_delivery_time(subscriber: &mut QueueSubscriber, amount: usize, positive: bool)
    requires
        old(subscriber).wf(),
        !positive ==> (amount as i32) != 0,
    ensures
        final(subscriber).wf(),
        final(subscriber).delivery_state == old(subscriber).delivery_state,
        final(subscriber).metrics.delivery_mode == DELIVERY_MODE_READY_TO_DELIVER,
        same_identity(*final(subscriber), *old(subscriber)),
        final(subscriber).metrics.start_delivery_time == old(subscriber).metrics.start_delivery_time,
        final(subscriber).metrics.active == old(subscriber).metrics.active,
        positive ==> {
            &&& final(subscriber).metrics.delivered_amount == if old(subscriber).metrics.delivered_amount + amount
                <= usize::MAX {
                old(subscriber).metrics.delivered_amount + amount
            } else {
                usize::MAX as int
            }
            &&& final(subscriber).metrics.delivery_microseconds >= old(subscriber).metrics.delivery_microseconds
            &&& final(subscriber).metrics.delivery_history@ == old(subscriber).metrics.delivery_history@
        },
        !positive ==> {
            &&& exists|micros: i64|
                micros >= 0 && final(subscriber).metrics.delivery_history@ == #[trigger] history_put(
                    old(subscriber).metrics.delivery_history@,
                    not_delivered_figure(amount as i32, micros),
                )
            &&& final(subscriber).metrics.delivered_amount == old(subscriber).metrics.delivered_amount
            &&& final(subscriber).metrics.delivery_microseconds == old(subscriber).metrics.delivery_microseconds
        },
{
    let delivery_micros = DateTimeAsMicroseconds::now().duration_since_as_positive_or_zero(
        subscriber.metrics.start_delivery_time,
    );
    if positive {
        subscriber.metrics.set_delivered_statistic(amount, delivery_micros as usize);
    } else {
        subscriber.metrics.set_not_delivered_statistic(amount as i32, delivery_micros);
    }
}

/// Whether the subscriber can report that its delivery succeeded without a failure in its bookkeeping.
pub open spec fn confirmed_delivered_allowed(q0: TopicQueue, subscriber_id: SubscriberId) -> bool {
    let s = q0.subscribers.subscribers();
    let i = index_of_id(s, subscriber_id);
    0 <= i < s.len() ==> match s[i].delivery_state {
        QueueSubscriberDeliveryState::OnDelivery(data) => data.bucket.confirmed + data.bucket.ids@.len()
            <= usize::MAX,
        _ => true,
    }
}

/// `q1` and `result` are what a reported successful delivery does to `q0`.
pub open spec fn confirmed_delivered_outcome(q0: TopicQueue, q1: TopicQueue, subscriber_id: SubscriberId, result: Result<(), OperationFailResult>) -> bool {
    &&& (q1.topic_id == q0.topic_id)
    &&& (q1.queue_id == q0.queue_id)
    &&& (q1.queue@ == q0.queue@)
    &&& (q1.delivery_attempts@ == q0.delivery_attempts@)
    &&& (q1.queue_type == q0.queue_type)
    &&& (q1.subscribers.is_single() == q0.subscribers.is_single())
    &&& (q1.subscribers.snapshot_id == q0.subscribers.snapshot_id)
    &&& (!q0.subscribers.contains_id(subscriber_id) ==> result == Err::<(), OperationFailResult>(
            OperationFailResult::SubscriberNotFound { id: subscriber_id },
        ) && q1.subscribers == q0.subscribers)
    &&& (q0.subscribers.contains_id(subscriber_id) ==> {
            let s = q0.subscribers.subscribers();
            let t = q1.subscribers.subscribers();
            let i = index_of_id(s, subscriber_id);
            &&& result is Ok
            &&& others_unchanged(s, t, i)
            &&& match s[i].delivery_state {
                QueueSubscriberDeliveryState::OnDelivery(data) => delivered_subscriber(
                    s[i],
                    t[i],
                    data.bucket.confirmed + data.bucket.ids@.len(),
                ),
                _ => reset_subscriber(s[i], t[i]),
            }
        })
}

/// Whether the subscriber can report that its delivery failed without a failure in its bookkeeping.
pub open spec fn confirmed_non_delivered_allowed(q0: TopicQueue, subscriber_id: SubscriberId) -> bool {
    let s = q0.subscribers.subscribers();
    let i = index_of_id(s, subscriber_id);
    0 <= i < s.len() ==> match s[i].delivery_state {
        QueueSubscriberDeliveryState::OnDelivery(data) => (data.bucket.confirmed as i32) != 0,
        _ => true,
    }
}

/// `q1` and `result` are what a reported failed delivery does to `q0`.
pub open spec fn confirmed_non_delivered_outcome(q0: TopicQueue, q1: TopicQueue, subscriber_id: SubscriberId, result: Result<(), OperationFailResult>) -> bool {
    &&& (q1.topic_id == q0.topic_id)
    &&& (q1.queue_id == q0.queue_id)
    &&& (q1.queue_type == q0.queue_type)
    &&& (q1.subscribers.is_single() == q0.subscribers.is_single())
    &&& (q1.subscribers.snapshot_id == q0.subscribers.snapshot_id)
    &&& (!q0.subscribers.contains_id(subscriber_id) ==> result == Err::<(), OperationFailResult>(
            OperationFailResult::SubscriberNotFound { id: subscriber_id },
        ) && q1.subscribers == q0.subscribers && q1.queue@ == q0.queue@
            && q1.delivery_attempts@ == q0.delivery_attempts@)
    &&& (q0.subscribers.contains_id(subscriber_id) ==> {
            let s = q0.subscribers.subscribers();
            let t = q1.subscribers.subscribers();
            let i = index_of_id(s, subscriber_id);
            &&& result is Ok
            &&& others_unchanged(s, t, i)
            &&& match s[i].delivery_state {
                QueueSubscriberDeliveryState::OnDelivery(data) => {
                    &&& not_delivered_subscriber(s[i], t[i], data.bucket.confirmed as int)
                    &&& q1.queue@ == q0.queue@ + data.bucket.ids@
                    &&& q1.delivery_attempts@ == attempts_after_failure(
                        q0.delivery_attempts@,
                        data.bucket.ids@,
                    )
                },
                _ => {
                    &&& reset_subscriber(s[i], t[i])
                    &&& q1.queue@ == q0.queue@
                    &&& q1.delivery_attempts@ == q0.delivery_attempts@
                },
            }
        })
}

/// Whether the subscriber can report which messages of its delivery arrived without a failure in its bookkeeping.
pub open spec fn confirmed_some_delivered_allowed(q0: TopicQueue, subscriber_id: SubscriberId, delivered: Set<int>) -> bool {
    let s = q0.subscribers.subscribers();
    let i = index_of_id(s, subscriber_id);
    0 <= i < s.len() ==> match s[i].delivery_state {
        QueueSubscriberDeliveryState::OnDelivery(data) => data.bucket.confirmed + delivered.len()
            <= usize::MAX && ((data.bucket.confirmed + delivered.len()) as usize as i32) != 0,
        _ => true,
    }
}

/// `q1` and `result` are what a report of the messages of a delivery that arrived does to `q0`.
pub open spec fn confirmed_some_delivered_outcome(q0: TopicQueue, q1: TopicQueue, subscriber_id: SubscriberId, delivered: Set<int>, result: Result<(), OperationFailResult>) -> bool {
    &&& (q1.topic_id == q0.topic_id)
    &&& (q1.queue_id == q0.queue_id)
    &&& (q1.queue_type == q0.queue_type)
    &&& (q1.subscribers.is_single() == q0.subscribers.is_single())
    &&& (q1.subscribers.snapshot_id == q0.subscribers.snapshot_id)
    &&& (!q0.subscribers.contains_id(subscriber_id) ==> result == Err::<(), OperationFailResult>(
            OperationFailResult::SubscriberNotFound { id: subscriber_id },
        ) && q1.subscribers == q0.subscribers && q1.queue@ == q0.queue@
            && q1.delivery_attempts@ == q0.delivery_attempts@)
    &&& (q0.subscribers.contains_id(subscriber_id) ==> {
            let s = q0.subscribers.subscribers();
            let t = q1.subscribers.subscribers();
            let i = index_of_id(s, subscriber_id);
            &&& result is Ok
            &&& others_unchanged(s, t, i)
            &&& match s[i].delivery_state {
                QueueSubscriberDeliveryState::OnDelivery(data) => {
                    let remaining = data.bucket.ids@.difference(delivered);
                    &&& not_delivered_subscriber(s[i], t[i], data.bucket.confirmed + delivered.len())
                    &&& if remaining.len() > 0 {
                        &&& q1.queue@ == q0.queue@ + remaining
                        &&& q1.delivery_attempts@ == attempts_after_failure(
                            q0.delivery_attempts@,
                            remaining,
                        )
                    } else {
                        &&& q1.queue@ == q0.queue@
                        &&& q1.delivery_attempts@ == attempts_after_success(
                            q0.delivery_attempts@,
                            delivered,
                        )
                    }
                },
                _ => {
                    &&& reset_subscriber(s[i], t[i])
                    &&& q1.queue@ == q0.queue@
                    &&& q1.delivery_attempts@ == q0.delivery_attempts@
                },
            }
        })
}

/// Whether the subscriber can confirm messages while still on delivery without a failure in its bookkeeping.
pub open spec fn intermediary_confirmed_allowed(q0: TopicQueue, subscriber_id: SubscriberId, confirmed: Set<int>) -> bool {
    let s = q0.subscribers.subscribers();
    let i = index_of_id(s, subscriber_id);
    0 <= i < s.len() ==> match s[i].delivery_state {
        QueueSubscriberDeliveryState::OnDelivery(data) => data.bucket.confirmed + confirmed.len()
            <= usize::MAX,
        _ => true,
    }
}

/// `q1` and `result` are what a confirmation of messages of a delivery under way does to `q0`.
pub open spec fn intermediary_confirmed_outcome(q0: TopicQueue, q1: TopicQueue, subscriber_id: SubscriberId, confirmed: Set<int>, result: Result<(), OperationFailResult>) -> bool {
    &&& (q1.topic_id == q0.topic_id)
    &&& (q1.queue_id == q0.queue_id)
    &&& (q1.queue@ == q0.queue@)
    &&& (q1.queue_type == q0.queue_type)
    &&& (q1.subscribers.is_single() == q0.subscribers.is_single())
    &&& (q1.subscribers.snapshot_id == q0.subscribers.snapshot_id)
    &&& (!q0.subscribers.contains_id(subscriber_id) ==> result == Err::<(), OperationFailResult>(
            OperationFailResult::SubscriberNotFound { id: subscriber_id },
        ) && q1.subscribers == q0.subscribers
            && q1.delivery_attempts@ == q0.delivery_attempts@)
    &&& (q0.subscribers.contains_id(subscriber_id) && confirmed.len() == 0 ==> result is Ok
            && q1.subscribers.subscribers() == q0.subscribers.subscribers()
            && q1.delivery_attempts@ == q0.delivery_attempts@)
    &&& (q0.subscribers.contains_id(subscriber_id) && confirmed.len() > 0 ==> {
            let s = q0.subscribers.subscribers();
            let t = q1.subscribers.subscribers();
            let i = index_of_id(s, subscriber_id);
            &&& result is Ok
            &&& others_unchanged(s, t, i)
            &&& same_identity(t[i], s[i])
            &&& t[i].metrics == s[i].metrics
            &&& match s[i].delivery_state {
                QueueSubscriberDeliveryState::OnDelivery(data) => t[i].delivery_state matches QueueSubscriberDeliveryState::OnDelivery(d)
                    && d.inserted == data.inserted
                    && d.bucket.confirmed == data.bucket.confirmed + confirmed.len()
                    && d.bucket.ids@ == data.bucket.ids@.difference(confirmed),
                _ => t[i].delivery_state == s[i].delivery_state,
            }
            &&& q1.delivery_attempts@ == attempts_after_success(q0.delivery_attempts@, confirmed)
        })
}

impl TopicQueue {
    pub open spec fn wf(&self) -> bool {
        self.subscribers.wf()
    }

    pub fn new(topic_id: String, queue_id: String, queue_type: TopicQueueType) -> (result: Self)
        ensures
            result.wf(),
            result.topic_id@ == topic_id@,
            result.queue_id@ == queue_id@,
            result.queue@ == Set::<int>::empty(),
            result.subscribers.subscribers() == Seq::<QueueSubscriber>::empty(),
            result.subscribers.is_single() == (queue_type == TopicQueueType::PermanentWithSingleConnection),
            result.delivery_attempts@ == Map::<MessageId, i32>::empty(),
            result.queue_type == queue_type,
    {
        TopicQueue {
            topic_id,
            queue_id,
            queue: QueueWithIntervals::new(),
            subscribers: SubscribersList::new(queue_type),
            delivery_attempts: DeliveryAttempts::new(),
            queue_type,
        }
    }

    pub fn restore(
        topic_id: String,
        queue_id: String,
        queue_type: TopicQueueType,
        queue: QueueWithIntervals,
    ) -> (result: Self)
        ensures
            result.wf(),
            result.topic_id@ == topic_id@,
            result.queue_id@ == queue_id@,
            result.queue@ == queue@,
            result.subscribers.subscribers() == Seq::<QueueSubscriber>::empty(),
            result.subscribers.is_single() == (queue_type == TopicQueueType::PermanentWithSingleConnection),
            result.delivery_attempts@ == Map::<MessageId, i32>::empty(),
            result.queue_type == queue_type,
    {
        TopicQueue {
            topic_id,
            queue_id,
            queue,
            subscribers: SubscribersList::new(queue_type),
            delivery_attempts: DeliveryAttempts::new(),
            queue_type,
        }
    }

    pub fn get_min_msg_id(&self) -> (result: Option<MessageId>)
        ensures
            match result {
                None => self.queue@ == Set::<int>::empty(),
                Some(id) => self.queue@.contains(id as int) && forall|x: int|
                    #[trigger] self.queue@.contains(x) ==> id <= x,
            },
    {
        self.queue.get_min_id()
    }

    /// The snapshot to persist; a queue deleted on disconnect is not persisted.
    pub fn get_snapshot_to_persist(&self) -> (result: Option<TopicQueueSnapshot>)
        ensures
            match result {
                None => self.queue_type == TopicQueueType::DeleteOnDisconnect,
                Some(snapshot) => {
                    &&& self.queue_type != TopicQueueType::DeleteOnDisconnect
                    &&& snapshot.queue_id@ == self.queue_id@
                    &&& snapshot.queue_type == self.queue_type
                    &&& snapshot.ranges@ == self.queue.ranges()
                    &&& snapshot_set(snapshot.ranges@) == self.queue@
                },
            },
    {
        match self.queue_type {
            TopicQueueType::DeleteOnDisconnect => None,
            _ => Some(
                TopicQueueSnapshot {
                    queue_id: self.queue_id.clone(),
                    queue_type: self.queue_type,
                    ranges: self.queue.get_snapshot(),
                },
            ),
        }
    }

    pub fn enqueue_messages(&mut self, msgs: &QueueWithIntervals)
        ensures
            final(self).topic_id == old(self).topic_id,
            final(self).queue_id == old(self).queue_id,
            final(self).queue@ == old(self).queue@ + msgs@,
            final(self).subscribers == old(self).subscribers,
            final(self).delivery_attempts@ == old(self).delivery_attempts@,
            final(self).queue_type == old(self).queue_type,
    {
        self.queue.merge_with(msgs);
    }

    pub fn queue_type_is_about_to_change(&self, new_queue_type: TopicQueueType) -> (result: bool)
        ensures
            result == (self.queue_type != new_queue_type),
    {
        match self.queue_type {
            TopicQueueType::Permanent => match new_queue_type {
                TopicQueueType::Permanent => false,
                TopicQueueType::DeleteOnDisconnect => true,
                TopicQueueType::PermanentWithSingleConnection => true,
            },
            TopicQueueType::DeleteOnDisconnect => match new_queue_type {
                TopicQueueType::Permanent => true,
                TopicQueueType::DeleteOnDisconnect => false,
                TopicQueueType::PermanentWithSingleConnection => true,
            },
            TopicQueueType::PermanentWithSingleConnection => match new_queue_type {
                TopicQueueType::Permanent => true,
                TopicQueueType::DeleteOnDisconnect => true,
                TopicQueueType::PermanentWithSingleConnection => false,
            },
        }
    }

    /// Changes the type of the queue; its subscribers list keeps its kind.
    pub fn update_queue_type(&mut self, queue_type: TopicQueueType)
        ensures
            final(self).queue_type == queue_type,
            final(self).topic_id == old(self).topic_id,
            final(self).queue_id == old(self).queue_id,
            final(self).queue@ == old(self).queue@,
            final(self).subscribers == old(self).subscribers,
            final(self).delivery_attempts@ == old(self).delivery_attempts@,
    {
        if !self.queue_type_is_about_to_change(queue_type) {
            return;
        }
        self.queue_type = queue_type;
    }

    pub fn get_queue_size(&self) -> (result: i64)
        ensures
            result == self.queue@.len(),
    {
        self.queue.len()
    }

    /// The number of messages on delivery to the subscribers of the queue, at most `i64::MAX`.
    pub fn get_on_delivery(&self) -> (result: i64)
        ensures
            result == if on_delivery_total(self.subscribers.subscribers()) <= i64::MAX {
                on_delivery_total(self.subscribers.subscribers())
            } else {
                i64::MAX as int
            },
    {
        self.subscribers.get_on_delivery_amount()
    }

    pub fn one_second_tick(&mut self)
        requires
            old(self).wf(),
        ensures
            final(self).wf(),
            final(self).topic_id == old(self).topic_id,
            final(self).queue_id == old(self).queue_id,
            final(self).queue@ == old(self).queue@,
            final(self).delivery_attempts@ == old(self).delivery_attempts@,
            final(self).queue_type == old(self).queue_type,
            list_ticked(old(self).subscribers, final(self).subscribers),
    {
        self.subscribers.one_second_tick();
    }

    /// Makes the queue hold exactly the ids from `message_id` to `max_message_id`.
    pub fn set_message_id(&mut self, message_id: MessageId, max_message_id: MessageId)
        requires
            message_id <= max_message_id ==> valid_message_id(message_id as int) && valid_message_id(
                max_message_id as int,
            ),
        ensures
            final(self).topic_id == old(self).topic_id,
            final(self).queue_id == old(self).queue_id,
            final(self).queue@ == set_int_range(message_id as int, max_message_id + 1),
            final(self).subscribers == old(self).subscribers,
            final(self).delivery_attempts@ == old(self).delivery_attempts@,
            final(self).queue_type == old(self).queue_type,
    {
        let mut intervals = Vec::new();
        intervals.push(QueueIndexRange { from_id: message_id, to_id: max_message_id });
        self.queue.reset(intervals);
        proof {
            let s = seq![QueueIndexRange { from_id: message_id, to_id: max_message_id }];
            assert forall|x: int| #[trigger] snapshot_set(s).contains(x) == set_int_range(
                message_id as int,
                max_message_id + 1,
            ).contains(x) by {
                lemma_contains_one(s, 0, x);
            }
            assert(snapshot_set(s) =~= set_int_range(message_id as int, max_message_id + 1));
        }
    }

    /// Puts the ids of a delivery that failed back in the queue and counts an attempt for each.
    pub fn mark_not_delivered(&mut self, delivery_bucket: &DeliveryBucket)
        ensures
            final(self).topic_id == old(self).topic_id,
            final(self).queue_id == old(self).queue_id,
            final(self).queue@ == old(self).queue@ + delivery_bucket.ids@,
            final(self).delivery_attempts@ == attempts_after_failure(old(self).delivery_attempts@, delivery_bucket.ids@),
            final(self).subscribers == old(self).subscribers,
            final(self).queue_type == old(self).queue_type,
    {
        self.process_not_delivered(&delivery_bucket.ids);
    }


    /// The subscriber confirmed its whole delivery.
    pub fn confirmed_delivered(&mut self, subscriber_id: SubscriberId) -> (result: Result<(), OperationFailResult>)
        requires
            old(self).wf(),
            confirmed_delivered_allowed(*old(self), subscriber_id),
        ensures
            final(self).wf(),
            confirmed_delivered_outcome(*old(self), *final(self), subscriber_id, result),
    {
        let ghost s = self.subscribers.subscribers();
        let found = self.subscribers.get_by_id_mut(subscriber_id);
        let subscriber = match found {
            Some(subscriber) => subscriber,
            None => {
                return Err(OperationFailResult::SubscriberNotFound { id: subscriber_id });
            },
        };
        let ghost i = index_of_id(s, subscriber_id);
        let messages_bucket = subscriber.reset_delivery();
        match messages_bucket {
            None => {
                proof {
                    lemma_update_keeps_wf(old(self).subscribers, self.subscribers, i);
                }
                Ok(())
            },
            Some(mut messages_bucket) => {
                messages_bucket.confirm_everything();
                update_delivery_time(subscriber, messages_bucket.confirmed, true);
                proof {
                    lemma_update_keeps_wf(old(self).subscribers, self.subscribers, i);
                }
                self.process_delivered(&messages_bucket.ids);
                proof {
                    assert(attempts_after_success(old(self).delivery_attempts@, Set::<int>::empty())
                        =~= old(self).delivery_attempts@);
                }
                Ok(())
            },
        }
    }


    /// The subscriber reported that its delivery failed: its messages go back to the queue.
    pub fn confirmed_non_delivered(&mut self, subscriber_id: SubscriberId) -> (result: Result<(), OperationFailResult>)
        requires
            old(self).wf(),
            confirmed_non_delivered_allowed(*old(self), subscriber_id),
        ensures
            final(self).wf(),
            confirmed_non_delivered_outcome(*old(self), *final(self), subscriber_id, result),
    {
        let ghost s = self.subscribers.subscribers();
        let found = self.subscribers.get_by_id_mut(subscriber_id);
        let subscriber = match found {
            Some(subscriber) => subscriber,
            None => {
                return Err(OperationFailResult::SubscriberNotFound { id: subscriber_id });
            },
        };
        let ghost i = index_of_id(s, subscriber_id);
        let messages_bucket = subscriber.reset_delivery();
        match messages_bucket {
            None => {
                proof {
                    lemma_update_keeps_wf(old(self).subscribers, self.subscribers, i);
                }
                Ok(())
            },
            Some(messages_bucket) => {
                update_delivery_time(subscriber, messages_bucket.confirmed, false);
                proof {
                    lemma_update_keeps_wf(old(self).subscribers, self.subscribers, i);
                }
                self.process_not_delivered(&messages_bucket.ids);
                Ok(())
            },
        }
    }

    /// The subscriber confirmed part of its delivery: what it did not confirm goes back
    /// to the queue; when it confirmed everything, the attempts of the confirmed ids are forgotten.
    pub fn confirmed_some_delivered(&mut self, subscriber_id: SubscriberId, delivered: QueueWithIntervals) -> (result: Result<(), OperationFailResult>)
        requires
            old(self).wf(),
            confirmed_some_delivered_allowed(*old(self), subscriber_id, delivered@),
        ensures
            final(self).wf(),
            confirmed_some_delivered_outcome(*old(self), *final(self), subscriber_id, delivered@, result),
    {
        let ghost s = self.subscribers.subscribers();
        let found = self.subscribers.get_by_id_mut(subscriber_id);
        let subscriber = match found {
            Some(subscriber) => subscriber,
            None => {
                return Err(OperationFailResult::SubscriberNotFound { id: subscriber_id });
            },
        };
        let ghost i = index_of_id(s, subscriber_id);
        let delivery_bucket = subscriber.reset_delivery();
        match delivery_bucket {
            None => {
                proof {
                    lemma_update_keeps_wf(old(self).subscribers, self.subscribers, i);
                }
                Ok(())
            },
            Some(mut delivery_bucket) => {
                delivery_bucket.confirmed(&delivered);
                update_delivery_time(subscriber, delivery_bucket.confirmed, false);
                proof {
                    lemma_update_keeps_wf(old(self).subscribers, self.subscribers, i);
                }
                if delivery_bucket.ids.len() > 0 {
                    self.process_not_delivered(&delivery_bucket.ids);
                } else {
                    self.process_delivered(&delivered);
                }
                Ok(())
            },
        }
    }

    /// The subscriber confirmed some messages while its delivery goes on: they leave
    /// its bucket and their attempts are forgotten.
    pub fn intermediary_confirmed(&mut self, subscriber_id: SubscriberId, confirmed: QueueWithIntervals) -> (result: Result<(), OperationFailResult>)
        requires
            old(self).wf(),
            intermediary_confirmed_allowed(*old(self), subscriber_id, confirmed@),
        ensures
            final(self).wf(),
            intermediary_confirmed_outcome(*old(self), *final(self), subscriber_id, confirmed@, result),
    {
        let ghost s = self.subscribers.subscribers();
        let found = self.subscribers.get_by_id_mut(subscriber_id);
        let subscriber = match found {
            Some(subscriber) => subscriber,
            None => {
                return Err(OperationFailResult::SubscriberNotFound { id: subscriber_id });
            },
        };
        let ghost i = index_of_id(s, subscriber_id);
        if confirmed.len() > 0 {
            subscriber.intermediary_confirmed(&confirmed);
            proof {
                lemma_update_keeps_wf(old(self).subscribers, self.subscribers, i);
            }
            self.process_delivered(&confirmed);
        } else {
            proof {
                assert(self.subscribers.subscribers() =~= s);
            }
        }
        Ok(())
    }

    /// A copy of what a subscriber has on delivery.
    pub fn get_messages_on_delivery(&self, subscriber_id: SubscriberId) -> (result: Option<QueueWithIntervals>)
        requires
            self.wf(),
        ensures
            match result {
                None => !self.subscribers.contains_id(subscriber_id) || self.subscribers.subscribers()[index_of_id(
                    self.subscribers.subscribers(),
                    subscriber_id,
                )].ids_on_delivery() is None,
                Some(q) => self.subscribers.contains_id(subscriber_id) && self.subscribers.subscribers()[index_of_id(
                    self.subscribers.subscribers(),
                    subscriber_id,
                )].ids_on_delivery() == Some(q@),
            },
    {
        let subscriber = self.subscribers.get_by_id(subscriber_id)?;
        subscriber.get_messages_on_delivery()
    }

    fn process_not_delivered(&mut self, not_delivered_ids: &QueueWithIntervals)
        ensures
            final(self).queue@ == old(self).queue@ + not_delivered_ids@,
            final(self).delivery_attempts@ == attempts_after_failure(old(self).delivery_attempts@, not_delivered_ids@),
            final(self).subscribers == old(self).subscribers,
            final(self).queue_type == old(self).queue_type,
            final(self).topic_id == old(self).topic_id,
            final(self).queue_id == old(self).queue_id,
    {
        self.queue.merge_with(not_delivered_ids);
        let snapshot = not_delivered_ids.get_snapshot();
        let ghost attempts0 = self.delivery_attempts@;
        let n = snapshot.len();
        let mut k: usize = 0;
        while k < n
            invariant
                n == snapshot@.len(),
                ranges_wf(snapshot@),
                not_delivered_ids@ == ranges_set(snapshot@),
                0 <= k <= n,
                self.queue@ == old(self).queue@ + not_delivered_ids@,
                self.subscribers == old(self).subscribers,
                self.queue_type == old(self).queue_type,
                self.topic_id == old(self).topic_id,
                self.queue_id == old(self).queue_id,
                self.delivery_attempts@ == attempts_after_failure(
                    attempts0,
                    Set::new(|id: int| contains_in(snapshot@, 0, k as int, id)),
                ),
            decreases n - k,
        {
            let r = snapshot[k];
            proof {
                assert(0 <= snapshot@[k as int].from_id);
            }
            let ghost done = Set::new(|id: int| contains_in(snapshot@, 0, k as int, id));
            let mut id = r.from_id;
            while id <= r.to_id
                invariant
                    r.from_id <= id <= r.to_id + 1,
                    0 <= r.from_id,
                    r.to_id < i64::MAX,
                    forall|x: int| #[trigger] done.contains(x) ==> !(r.from_id <= x <= r.to_id),
                    self.queue@ == old(self).queue@ + not_delivered_ids@,
                    self.subscribers == old(self).subscribers,
                    self.queue_type == old(self).queue_type,
                    self.topic_id == old(self).topic_id,
                    self.queue_id == old(self).queue_id,
                    self.delivery_attempts@ == attempts_after_failure(
                        attempts0,
                        done + set_int_range(r.from_id as int, id as int),
                    ),
                decreases r.to_id + 1 - id,
            {
                self.delivery_attempts.add(id);
                proof {
                    let before = attempts_after_failure(attempts0, done + set_int_range(r.from_id as int, id as int));
                    assert(next_attempt(before, id) == next_attempt(attempts0, id));
                }
                id = id + 1;
                assert(self.delivery_attempts@ =~= attempts_after_failure(
                    attempts0,
                    done + set_int_range(r.from_id as int, id as int),
                ));
            }
            proof {
                assert forall|x: int|
                    #![trigger contains_in(snapshot@, 0, k + 1, x)]
                    contains_in(snapshot@, 0, k + 1, x) == (contains_in(snapshot@, 0, k as int, x)
                        || set_int_range(r.from_id as int, r.to_id + 1).contains(x)) by {
                    lemma_contains_split(snapshot@, 0, k as int, k + 1, x);
                    lemma_contains_one(snapshot@, k as int, x);
                }
                assert(Set::new(|id: int| contains_in(snapshot@, 0, k + 1, id)) =~= done + set_int_range(
                    r.from_id as int,
                    r.to_id + 1,
                ));
            }
            k = k + 1;
        }
        assert(Set::new(|id: int| contains_in(snapshot@, 0, n as int, id)) =~= not_delivered_ids@);
    }

    fn process_delivered(&mut self, delivered_ids: &QueueWithIntervals)
        ensures
            final(self).delivery_attempts@ == attempts_after_success(old(self).delivery_attempts@, delivered_ids@),
            final(self).queue@ == old(self).queue@,
            final(self).subscribers == old(self).subscribers,
            final(self).queue_type == old(self).queue_type,
            final(self).topic_id == old(self).topic_id,
            final(self).queue_id == old(self).queue_id,
    {
        let snapshot = delivered_ids.get_snapshot();
        let ghost attempts0 = self.delivery_attempts@;
        let n = snapshot.len();
        let mut k: usize = 0;
        while k < n
            invariant
                n == snapshot@.len(),
                ranges_wf(snapshot@),
                delivered_ids@ == ranges_set(snapshot@),
                0 <= k <= n,
                self.queue@ == old(self).queue@,
                self.subscribers == old(self).subscribers,
                self.queue_type == old(self).queue_type,
                self.topic_id == old(self).topic_id,
                self.queue_id == old(self).queue_id,
                self.delivery_attempts@ == attempts_after_success(
                    attempts0,
                    Set::new(|id: int| contains_in(snapshot@, 0, k as int, id)),
                ),
            decreases n - k,
        {
            let r = snapshot[k];
            proof {
                assert(0 <= snapshot@[k as int].from_id);
            }
            let ghost done = Set::new(|id: int| contains_in(snapshot@, 0, k as int, id));
            let mut id = r.from_id;
            while id <= r.to_id
                invariant
                    r.from_id <= id <= r.to_id + 1,
                    r.to_id < i64::MAX,
                    self.queue@ == old(self).queue@,
                    self.subscribers == old(self).subscribers,
                    self.queue_type == old(self).queue_type,
                    self.topic_id == old(self).topic_id,
                    self.queue_id == old(self).queue_id,
                    self.delivery_attempts@ == attempts_after_success(
                        attempts0,
                        done + set_int_range(r.from_id as int, id as int),
                    ),
                decreases r.to_id + 1 - id,
            {
                self.delivery_attempts.reset(id);
                id = id + 1;
                assert(self.delivery_attempts@ =~= attempts_after_success(
                    attempts0,
                    done + set_int_range(r.from_id as int, id as int),
                ));
            }
            proof {
                assert forall|x: int|
                    #![trigger contains_in(snapshot@, 0, k + 1, x)]
                    contains_in(snapshot@, 0, k + 1, x) == (contains_in(snapshot@, 0, k as int, x)
                        || set_int_range(r.from_id as int, r.to_id + 1).contains(x)) by {
                    lemma_contains_split(snapshot@, 0, k as int, k + 1, x);
                    lemma_contains_one(snapshot@, k as int, x);
                }
                assert(Set::new(|id: int| contains_in(snapshot@, 0, k + 1, id)) =~= done + set_int_range(
                    r.from_id as int,
                    r.to_id + 1,
                ));
            }
            k = k + 1;
        }
        assert(Set::new(|id: int| contains_in(snapshot@, 0, n as int, id)) =~= delivered_ids@);
    }
}

/// No message is lost when a delivery fails: every id that `get_messages_on_delivery` shows on
/// delivery to a subscriber is back in the queue once the subscriber reports the failure, with
/// its next attempt number, and the subscriber is ready again with nothing on delivery.
pub proof fn lemma_failed_delivery_requeues(
    q0: TopicQueue,
    q1: TopicQueue,
    subscriber_id: SubscriberId,
    result: Result<(), OperationFailResult>,
    on_delivery: Set<int>,
)
    requires
        confirmed_non_delivered_outcome(q0, q1, subscriber_id, result),
        q0.subscribers.contains_id(subscriber_id),
        q0.subscribers.subscribers()[index_of_id(q0.subscribers.subscribers(), subscriber_id)].ids_on_delivery() == Some(
            on_delivery,
        ),
    ensures
        result is Ok,
        forall|id: int| #[trigger] on_delivery.contains(id) ==> q1.queue@.contains(id) && q1.delivery_attempts@.contains_key(
            id as MessageId,
        ) && q1.delivery_attempts@[id as MessageId] == next_attempt(q0.delivery_attempts@, id as MessageId),
        q1.subscribers.subscribers()[index_of_id(q0.subscribers.subscribers(), subscriber_id)].ids_on_delivery() is None,
{
    let i = index_of_id(q0.subscribers.subscribers(), subscriber_id);
    assert forall|id: int| #[trigger] on_delivery.contains(id) implies q1.queue@.contains(id) && q1.delivery_attempts@.contains_key(
        id as MessageId,
    ) && q1.delivery_attempts@[id as MessageId] == next_attempt(q0.delivery_attempts@, id as MessageId) by {
        assert(on_delivery.contains((id as MessageId) as int));
    }
}

/// No message is lost when a delivery partly arrives: every id on delivery to the subscriber is
/// either among those reported as arrived or back in the queue.
pub proof fn lemma_partial_delivery_requeues_the_rest(
    q0: TopicQueue,
    q1: TopicQueue,
    subscriber_id: SubscriberId,
    delivered: Set<int>,
    result: Result<(), OperationFailResult>,
    on_delivery: Set<int>,
)
    requires
        confirmed_some_delivered_outcome(q0, q1, subscriber_id, delivered, result),
        on_delivery.finite(),
        q0.subscribers.contains_id(subscriber_id),
        q0.subscribers.subscribers()[index_of_id(q0.subscribers.subscribers(), subscriber_id)].ids_on_delivery() == Some(
            on_delivery,
        ),
    ensures
        result is Ok,
        forall|id: int| #[trigger] on_delivery.contains(id) ==> delivered.contains(id) || q1.queue@.contains(id),
{
    assert forall|id: int| #[trigger] on_delivery.contains(id) implies delivered.contains(id) || q1.queue@.contains(id) by {
        if !delivered.contains(id) {
            let remaining = on_delivery.difference(delivered);
            assert(remaining.contains(id));
            vstd::set_lib::lemma_set_subset_finite(on_delivery, remaining);
            if remaining.len() == 0 {
                remaining.lemma_len0_is_empty();
            }
        }
    }
}

} // verus!
