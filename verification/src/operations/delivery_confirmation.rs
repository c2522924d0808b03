//! What a subscriber reports about its delivery, routed through its topic to the queue it
//! subscribed to, and followed by a delivery round of that queue.
use vstd::prelude::*;

use crate::operations::delivery::{delivery_round, try_to_deliver, DeliveryOutcome};
use crate::operations::fail_result::OperationFailResult;
use crate::operations::initialization::queue_in;
use crate::queue_subscribers::subscriber_metrics::SubscriberId;
use crate::queue_with_intervals::QueueWithIntervals;
use crate::queues::queue::{
    confirmed_delivered_allowed, confirmed_delivered_outcome, confirmed_non_delivered_allowed,
    confirmed_non_delivered_outcome, confirmed_some_delivered_allowed, confirmed_some_delivered_outcome,
    intermediary_confirmed_allowed, intermediary_confirmed_outcome, TopicQueue,
};
use crate::queues::queues_list::{lemma_queue_put, queue_put};
use crate::topics::{lemma_topic_put, topic_put, Topic, TopicsList};

verus! {

/// The topic with the given id exists and has a queue with the given id.
pub open spec fn has_queue(topics: TopicsList, topic_id: Seq<char>, queue_id: Seq<char>) -> bool {
    topics.contains_topic(topic_id) && topics.topic(topic_id).queues.contains_queue(queue_id)
}

/// The queue with the given id of the topic with the given id.
pub open spec fn topic_queue(topics: TopicsList, topic_id: Seq<char>, queue_id: Seq<char>) -> TopicQueue {
    queue_in(topics.topic(topic_id).queues, queue_id)
}

/// A report on a queue, routed: an unknown topic or queue is reported and nothing changes;
/// otherwise the report changes the queue as `changed` says, a delivery round of the queue follows
/// (packages of at most `max` bytes) and its outcome is the result, the other queues and topics
/// staying as they were.
pub open spec fn report_routed(
    before: TopicsList,
    after: TopicsList,
    topic_id: Seq<char>,
    queue_id: Seq<char>,
    max: int,
    result: Result<DeliveryOutcome, OperationFailResult>,
    changed: spec_fn(TopicQueue, TopicQueue) -> bool,
) -> bool {
    &&& !before.contains_topic(topic_id) ==> (result matches Err(OperationFailResult::TopicNotFound { topic_id: id })
        && id@ == topic_id && after == before)
    &&& before.contains_topic(topic_id) && !before.topic(topic_id).queues.contains_queue(queue_id) ==> (result matches Err(
        OperationFailResult::QueueNotFound { queue_id: id },
    ) && id@ == queue_id && after == before)
    &&& has_queue(before, topic_id, queue_id) ==> (result matches Ok(outcome) && exists|t1: Topic, mid: TopicQueue, qf: TopicQueue|
        {
            &&& topic_put(before.topics(), after, topic_id, t1)
            &&& t1.same_but_queues(before.topic(topic_id))
            &&& queue_put(before.topic(topic_id).queues.queues(), t1.queues, queue_id, qf)
            &&& changed(topic_queue(before, topic_id, queue_id), mid)
            &&& delivery_round(mid, qf, t1.pages, max, outcome)
        })
}

/// The topic and queue of a report, checked before anything changes.
pub(crate) fn check_route(topics: &TopicsList, topic_id: &str, queue_id: &str) -> (result: Result<(), OperationFailResult>)
    requires
        topics.wf(),
    ensures
        !topics.contains_topic(topic_id@) ==> (result matches Err(OperationFailResult::TopicNotFound { topic_id: id })
            && id@ == topic_id@),
        topics.contains_topic(topic_id@) && !topics.topic(topic_id@).queues.contains_queue(queue_id@) ==> (result matches Err(
            OperationFailResult::QueueNotFound { queue_id: id },
        ) && id@ == queue_id@),
        has_queue(*topics, topic_id@, queue_id@) ==> result is Ok,
{
    match topics.get(topic_id) {
        None => Err(OperationFailResult::TopicNotFound { topic_id: topic_id.to_owned() }),
        Some(topic) => {
            proof {
                let i = crate::topics::index_of_topic(topics.topics(), topic_id@);
                assert(topics.topics()[i].queues.wf());
            }
            match topic.queues.get(queue_id) {
                None => Err(OperationFailResult::QueueNotFound { queue_id: queue_id.to_owned() }),
                Some(_) => Ok(()),
            }
        },
    }
}

/// The subscriber reports that its whole delivery arrived: its messages are done with, and it is
/// ready for the next ones. A delivery round of the queue follows, with packages of at most
/// `max_delivery_size` bytes. An unknown topic or queue is reported; a report that the queue rejects
/// changes nothing, and the delivery round follows all the same.
pub fn all_confirmed(
    topics: &mut TopicsList,
    topic_id: &str,
    queue_id: &str,
    subscriber_id: SubscriberId,
    max_delivery_size: usize,
) -> (result: Result<DeliveryOutcome, OperationFailResult>)
    requires
        old(topics).wf(),
        has_queue(*old(topics), topic_id@, queue_id@) ==> confirmed_delivered_allowed(
            topic_queue(*old(topics), topic_id@, queue_id@),
            subscriber_id,
        ),
    ensures
        final(topics).wf(),
        report_routed(
            *old(topics),
            *final(topics),
            topic_id@,
            queue_id@,
            max_delivery_size as int,
            result,
            |q0: TopicQueue, q1: TopicQueue| exists|r: Result<(), OperationFailResult>| #[trigger] confirmed_delivered_outcome(q0, q1, subscriber_id, r),
        ),
{
    match check_route(topics, topic_id, queue_id) {
        Err(e) => {
            return Err(e);
        },
        Ok(()) => {},
    }
    let ghost before = *topics;
    let topic = match topics.get_mut(topic_id) {
        Some(topic) => topic,
        None => {
            return Err(OperationFailResult::TopicNotFound { topic_id: topic_id.to_owned() });
        },
    };
    let ghost t0 = *topic;
    let queue = match topic.queues.get_mut(queue_id) {
        Some(queue) => queue,
        None => {
            return Err(OperationFailResult::QueueNotFound { queue_id: queue_id.to_owned() });
        },
    };
    let ghost q0 = *queue;
    let confirmation = queue.confirmed_delivered(subscriber_id);
    let ghost mid = *queue;
    let outcome = try_to_deliver(queue, &topic.pages, max_delivery_size);
    proof {
        let qf = *queue;
        let t1 = *topic;
        assert(confirmed_delivered_outcome(q0, mid, subscriber_id, confirmation));
        lemma_queue_put(t0.queues, t1.queues, queue_id@, qf);
        lemma_topic_put(before, *topics, topic_id@, t1);
        assert(q0 == topic_queue(before, topic_id@, queue_id@));
        assert(t1.same_but_queues(before.topic(topic_id@)));
    }
    Ok(outcome)
}

/// The subscriber reports that its delivery failed: its messages go back to the queue, each
/// counted as a failed attempt. A delivery round of the queue follows, with packages of at most
/// `max_delivery_size` bytes. An unknown topic or queue is reported; a report that the queue rejects
/// changes nothing, and the delivery round follows all the same.
pub fn all_fail(
    topics: &mut TopicsList,
    topic_id: &str,
    queue_id: &str,
    subscriber_id: SubscriberId,
    max_delivery_size: usize,
) -> (result: Result<DeliveryOutcome, OperationFailResult>)
    requires
        old(topics).wf(),
        has_queue(*old(topics), topic_id@, queue_id@) ==> confirmed_non_delivered_allowed(
            topic_queue(*old(topics), topic_id@, queue_id@),
            subscriber_id,
        ),
    ensures
        final(topics).wf(),
        report_routed(
            *old(topics),
            *final(topics),
            topic_id@,
            queue_id@,
            max_delivery_size as int,
            result,
            |q0: TopicQueue, q1: TopicQueue| exists|r: Result<(), OperationFailResult>| #[trigger] confirmed_non_delivered_outcome(q0, q1, subscriber_id, r),
        ),
{
    match check_route(topics, topic_id, queue_id) {
        Err(e) => {
            return Err(e);
        },
        Ok(()) => {},
    }
    let ghost before = *topics;
    let topic = match topics.get_mut(topic_id) {
        Some(topic) => topic,
        None => {
            return Err(OperationFailResult::TopicNotFound { topic_id: topic_id.to_owned() });
        },
    };
    let ghost t0 = *topic;
    let queue = match topic.queues.get_mut(queue_id) {
        Some(queue) => queue,
        None => {
            return Err(OperationFailResult::QueueNotFound { queue_id: queue_id.to_owned() });
        },
    };
    let ghost q0 = *queue;
    let confirmation = queue.confirmed_non_delivered(subscriber_id);
    let ghost mid = *queue;
    let outcome = try_to_deliver(queue, &topic.pages, max_delivery_size);
    proof {
        let qf = *queue;
        let t1 = *topic;
        assert(confirmed_non_delivered_outcome(q0, mid, subscriber_id, confirmation));
        lemma_queue_put(t0.queues, t1.queues, queue_id@, qf);
        lemma_topic_put(before, *topics, topic_id@, t1);
        assert(q0 == topic_queue(before, topic_id@, queue_id@));
        assert(t1.same_but_queues(before.topic(topic_id@)));
    }
    Ok(outcome)
}

/// The subscriber confirms some messages while its delivery goes on: they are done with, the
/// rest stays on delivery. A delivery round of the queue follows, with packages of at most
/// `max_delivery_size` bytes. An unknown topic or queue is reported; a report that the queue rejects
/// changes nothing, and the delivery round follows all the same.
pub fn intermediary_confirm(
    topics: &mut TopicsList,
    topic_id: &str,
    queue_id: &str,
    subscriber_id: SubscriberId,
    confirmed: QueueWithIntervals,
    max_delivery_size: usize,
) -> (result: Result<DeliveryOutcome, OperationFailResult>)
    requires
        old(topics).wf(),
        has_queue(*old(topics), topic_id@, queue_id@) ==> intermediary_confirmed_allowed(
            topic_queue(*old(topics), topic_id@, queue_id@),
            subscriber_id, confirmed@,
        ),
    ensures
        final(topics).wf(),
        report_routed(
            *old(topics),
            *final(topics),
            topic_id@,
            queue_id@,
            max_delivery_size as int,
            result,
            |q0: TopicQueue, q1: TopicQueue| exists|r: Result<(), OperationFailResult>| #[trigger] intermediary_confirmed_outcome(q0, q1, subscriber_id, confirmed@, r),
        ),
{
    let ghost ids = confirmed@;
    match check_route(topics, topic_id, queue_id) {
        Err(e) => {
            return Err(e);
        },
        Ok(()) => {},
    }
    let ghost before = *topics;
    let topic = match topics.get_mut(topic_id) {
        Some(topic) => topic,
        None => {
            return Err(OperationFailResult::TopicNotFound { topic_id: topic_id.to_owned() });
        },
    };
    let ghost t0 = *topic;
    let queue = match topic.queues.get_mut(queue_id) {
        Some(queue) => queue,
        None => {
            return Err(OperationFailResult::QueueNotFound { queue_id: queue_id.to_owned() });
        },
    };
    let ghost q0 = *queue;
    let confirmation = queue.intermediary_confirmed(subscriber_id, confirmed);
    let ghost mid = *queue;
    let outcome = try_to_deliver(queue, &topic.pages, max_delivery_size);
    proof {
        let qf = *queue;
        let t1 = *topic;
        assert(intermediary_confirmed_outcome(q0, mid, subscriber_id, ids, confirmation));
        lemma_queue_put(t0.queues, t1.queues, queue_id@, qf);
        lemma_topic_put(before, *topics, topic_id@, t1);
        assert(q0 == topic_queue(before, topic_id@, queue_id@));
        assert(t1.same_but_queues(before.topic(topic_id@)));
    }
    Ok(outcome)
}

/// The subscriber reports which messages of its delivery arrived: the others go back to the
/// queue, each counted as a failed attempt. A delivery round of the queue follows, with packages of at most
/// `max_delivery_size` bytes. An unknown topic or queue is reported; a report that the queue rejects
/// changes nothing, and the delivery round follows all the same.
pub fn some_messages_are_confirmed(
    topics: &mut TopicsList,
    topic_id: &str,
    queue_id: &str,
    subscriber_id: SubscriberId,
    confirmed_messages: QueueWithIntervals,
    max_delivery_size: usize,
) -> (result: Result<DeliveryOutcome, OperationFailResult>)
    requires
        old(topics).wf(),
        has_queue(*old(topics), topic_id@, queue_id@) ==> confirmed_some_delivered_allowed(
            topic_queue(*old(topics), topic_id@, queue_id@),
            subscriber_id, confirmed_messages@,
        ),
    ensures
        final(topics).wf(),
        report_routed(
            *old(topics),
            *final(topics),
            topic_id@,
            queue_id@,
            max_delivery_size as int,
            result,
            |q0: TopicQueue, q1: TopicQueue| exists|r: Result<(), OperationFailResult>| #[trigger] confirmed_some_delivered_outcome(q0, q1, subscriber_id, confirmed_messages@, r),
        ),
{
    let ghost ids = confirmed_messages@;
    match check_route(topics, topic_id, queue_id) {
        Err(e) => {
            return Err(e);
        },
        Ok(()) => {},
    }
    let ghost before = *topics;
    let topic = match topics.get_mut(topic_id) {
        Some(topic) => topic,
        None => {
            return Err(OperationFailResult::TopicNotFound { topic_id: topic_id.to_owned() });
        },
    };
    let ghost t0 = *topic;
    let queue = match topic.queues.get_mut(queue_id) {
        Some(queue) => queue,
        None => {
            return Err(OperationFailResult::QueueNotFound { queue_id: queue_id.to_owned() });
        },
    };
    let ghost q0 = *queue;
    let confirmation = queue.confirmed_some_delivered(subscriber_id, confirmed_messages);
    let ghost mid = *queue;
    let outcome = try_to_deliver(queue, &topic.pages, max_delivery_size);
    proof {
        let qf = *queue;
        let t1 = *topic;
        assert(confirmed_some_delivered_outcome(q0, mid, subscriber_id, ids, confirmation));
        lemma_queue_put(t0.queues, t1.queues, queue_id@, qf);
        lemma_topic_put(before, *topics, topic_id@, t1);
        assert(q0 == topic_queue(before, topic_id@, queue_id@));
        assert(t1.same_but_queues(before.topic(topic_id@)));
    }
    Ok(outcome)
}

} // verus!
