//! Subscribing to a queue, and what happens to a subscriber that leaves.
use vstd::prelude::*;

use crate::operations::delivery::{delivery_round, try_to_deliver, DeliveryOutcome};
use crate::operations::fail_result::OperationFailResult;
use crate::operations::initialization::queue_in;
use crate::queue_subscribers::queue_subscriber::{QueueSubscriber, QueueSubscriberDeliveryState};
use crate::queue_subscribers::subscriber_metrics::{ConnectionId, SubscriberId};
use crate::queue_subscribers::subscribers_list::{fresh_subscriber, SubscribeErrorResult, SubscribersList};
use crate::queues::queue::{attempts_after_failure, TopicQueue};
use crate::queues::queue_type::TopicQueueType;
use crate::queues::queues_list::{lemma_queue_put, queue_put};
use crate::topics::{lemma_topic_put, topic_put, Topic, TopicsList};

verus! {

/// The messages a removed subscriber had on delivery go back to its queue, each
/// counted as a failed attempt.
pub fn handle_subscriber_remove(queue: &mut TopicQueue, subscriber: QueueSubscriber)
    ensures
        final(queue).topic_id == old(queue).topic_id,
        final(queue).queue_id == old(queue).queue_id,
        final(queue).subscribers == old(queue).subscribers,
        final(queue).queue_type == old(queue).queue_type,
        match subscriber.delivery_state {
            QueueSubscriberDeliveryState::OnDelivery(data) => {
                &&& final(queue).queue@ == old(queue).queue@ + data.bucket.ids@
                &&& final(queue).delivery_attempts@ == attempts_after_failure(old(queue).delivery_attempts@, data.bucket.ids@)
            },
            _ => {
                &&& final(queue).queue@ == old(queue).queue@
                &&& final(queue).delivery_attempts@ == old(queue).delivery_attempts@
            },
        },
{
    let mut subscriber = subscriber;
    let messages = subscriber.reset_delivery();
    if let Some(messages_on_delivery) = &messages {
        queue.mark_not_delivered(messages_on_delivery);
    }
}

/// The ids the subscriber of a single-connection list has on delivery: what a new subscriber
/// replacing it sends back to the queue.
pub open spec fn replaced_on_delivery(list: SubscribersList) -> Option<Set<int>> {
    if list.is_single() && list.subscribers().len() == 1 {
        list.subscribers()[0].ids_on_delivery()
    } else {
        None
    }
}

/// What subscribing session `session_id` to the queue `q0` under `subscriber_id` makes of it: the
/// queue `q1`, and the result of the subscription.
pub open spec fn subscribe_outcome(
    q0: TopicQueue,
    q1: TopicQueue,
    queue_type: TopicQueueType,
    subscriber_id: SubscriberId,
    session_id: ConnectionId,
    delivery_packet_version: i32,
    result: Result<(), SubscribeErrorResult>,
) -> bool {
    &&& q1.topic_id == q0.topic_id
    &&& q1.queue_id == q0.queue_id
    &&& q1.queue_type == queue_type
    &&& q1.subscribers.is_single() == q0.subscribers.is_single()
    &&& q0.subscribers.has_session(session_id) ==> result == Err::<(), SubscribeErrorResult>(
        SubscribeErrorResult::SubscriberOfSameConnectionExists,
    ) && q1.subscribers == q0.subscribers
    &&& !q0.subscribers.has_session(session_id) && q0.subscribers.contains_id(subscriber_id) ==> result == Err::<
        (),
        SubscribeErrorResult,
    >(SubscribeErrorResult::SubscriberWithIdExists) && q1.subscribers.subscribers() == q0.subscribers.subscribers()
    &&& result is Err ==> q1.queue@ == q0.queue@ && q1.delivery_attempts@ == q0.delivery_attempts@
    &&& !q0.subscribers.has_session(session_id) && !q0.subscribers.contains_id(subscriber_id) ==> {
        let s = q0.subscribers.subscribers();
        let t = q1.subscribers.subscribers();
        &&& result is Ok
        &&& if q0.subscribers.is_single() {
            &&& t.len() == 1
            &&& fresh_subscriber(t[0], subscriber_id, q0.topic_id@, q0.queue_id@, session_id, delivery_packet_version)
        } else {
            &&& t.len() == s.len() + 1
            &&& t.drop_last() == s
            &&& fresh_subscriber(t.last(), subscriber_id, q0.topic_id@, q0.queue_id@, session_id, delivery_packet_version)
        }
        &&& match replaced_on_delivery(q0.subscribers) {
            Some(ids) => {
                &&& q1.queue@ == q0.queue@ + ids
                &&& q1.delivery_attempts@ == attempts_after_failure(q0.delivery_attempts@, ids)
            },
            None => {
                &&& q1.queue@ == q0.queue@
                &&& q1.delivery_attempts@ == q0.delivery_attempts@
            },
        }
    }
}

/// Subscribes a session to a queue, whose type becomes `queue_type`. A session subscribes to a
/// queue once, and the new subscriber's id must not be taken. On a single-connection queue the
/// new subscriber replaces the previous one, whose messages on delivery go back to the queue.
pub fn subscribe_session(
    queue: &mut TopicQueue,
    queue_type: TopicQueueType,
    subscriber_id: SubscriberId,
    session_id: ConnectionId,
    delivery_packet_version: i32,
) -> (result: Result<(), SubscribeErrorResult>)
    requires
        old(queue).wf(),
    ensures
        final(queue).wf(),
        subscribe_outcome(*old(queue), *final(queue), queue_type, subscriber_id, session_id, delivery_packet_version, result),
{
    queue.update_queue_type(queue_type);
    let topic_id = queue.topic_id.clone();
    let queue_id = queue.queue_id.clone();
    let result = queue.subscribers.subscribe(subscriber_id, topic_id, queue_id, session_id, delivery_packet_version);
    match result {
        Ok(kicked) => {
            match kicked {
                Some(kicked) => {
                    handle_subscriber_remove(queue, kicked);
                },
                None => {},
            }
            Ok(())
        },
        Err(e) => Err(e),
    }
}

/// The queue a subscription goes to: the queue `existing` of the topic, its type becoming
/// `queue_type`, or, when the topic has no such queue, a new empty queue of that type.
pub open spec fn queue_to_subscribe(
    existing: Option<TopicQueue>,
    qa: TopicQueue,
    topic_id: Seq<char>,
    queue_id: Seq<char>,
    queue_type: TopicQueueType,
) -> bool {
    &&& qa.queue_id@ == queue_id
    &&& qa.queue_type == queue_type
    &&& match existing {
        Some(q) => {
            &&& qa.topic_id == q.topic_id
            &&& qa.queue@ == q.queue@
            &&& qa.subscribers == q.subscribers
            &&& qa.delivery_attempts@ == q.delivery_attempts@
        },
        None => {
            &&& qa.topic_id@ == topic_id
            &&& qa.queue@ == Set::<int>::empty()
            &&& qa.subscribers.subscribers() == Seq::<QueueSubscriber>::empty()
            &&& qa.subscribers.is_single() == (queue_type == TopicQueueType::PermanentWithSingleConnection)
            &&& qa.delivery_attempts@ == Map::<i64, i32>::empty()
        },
    }
}

/// The topic a subscription goes to, as it was: the topic with the given id, or, when there is
/// none, a new topic with message id 0 and no page.
pub open spec fn topic_to_subscribe(topics: TopicsList, t: Topic, topic_id: Seq<char>) -> bool {
    if topics.contains_topic(topic_id) {
        t.same_but_queues(topics.topic(topic_id))
    } else {
        &&& t.topic_id@ == topic_id
        &&& t.message_id == 0
        &&& t.pages.pages@ == Seq::<crate::messages_page::MessagesPage>::empty()
    }
}

/// The queues of the topic with the given id; none when there is no such topic.
pub open spec fn queues_of(topics: TopicsList, topic_id: Seq<char>) -> Seq<TopicQueue> {
    if topics.contains_topic(topic_id) {
        topics.topic(topic_id).queues.queues()
    } else {
        Seq::<TopicQueue>::empty()
    }
}

/// The queue with the given id of the topic with the given id, if both exist.
pub open spec fn existing_queue(topics: TopicsList, topic_id: Seq<char>, queue_id: Seq<char>) -> Option<TopicQueue> {
    if topics.contains_topic(topic_id) && topics.topic(topic_id).queues.contains_queue(queue_id) {
        Some(queue_in(topics.topic(topic_id).queues, queue_id))
    } else {
        None
    }
}

/// The result of a subscription without what the delivery round that follows it sent.
pub open spec fn subscription_result(r: Result<DeliveryOutcome, SubscribeErrorResult>) -> Result<(), SubscribeErrorResult> {
    match r {
        Ok(_) => Ok(()),
        Err(e) => Err(e),
    }
}

/// Subscribes a session to a queue of a topic. A topic that does not exist is created when
/// `auto_create_topic_on_subscribe` is set, and is reported as not found otherwise; a queue that does
/// not exist is created. The queue's type becomes `queue_type`, the session subscribes to it as on
/// `subscribe_session`, and a subscription that succeeds is followed by a delivery round of the queue
/// (with packages of at most `max_delivery_size` bytes), whose outcome is returned for sending.
pub fn subscribe_to_queue(
    topics: &mut TopicsList,
    auto_create_topic_on_subscribe: bool,
    topic_id: &str,
    queue_id: &str,
    queue_type: TopicQueueType,
    subscriber_id: SubscriberId,
    session_id: ConnectionId,
    delivery_packet_version: i32,
    max_delivery_size: usize,
) -> (result: Result<Result<DeliveryOutcome, SubscribeErrorResult>, OperationFailResult>)
    requires
        old(topics).wf(),
    ensures
        final(topics).wf(),
        result is Err <==> !old(topics).contains_topic(topic_id@) && !auto_create_topic_on_subscribe,
        result matches Err(e) ==> (e matches OperationFailResult::TopicNotFound { topic_id: id } && id@ == topic_id@)
            && *final(topics) == *old(topics),
        result matches Ok(r) ==> exists|t1: Topic, qa: TopicQueue, mid: TopicQueue, qf: TopicQueue|
            {
                &&& topic_put(old(topics).topics(), *final(topics), topic_id@, t1)
                &&& topic_to_subscribe(*old(topics), t1, topic_id@)
                &&& queue_put(queues_of(*old(topics), topic_id@), t1.queues, queue_id@, qf)
                &&& queue_to_subscribe(existing_queue(*old(topics), topic_id@, queue_id@), qa, topic_id@, queue_id@, queue_type)
                &&& subscribe_outcome(qa, mid, queue_type, subscriber_id, session_id, delivery_packet_version, subscription_result(r))
                &&& match r {
                    Ok(outcome) => delivery_round(mid, qf, t1.pages, max_delivery_size as int, outcome),
                    Err(_) => qf == mid,
                }
            },
{
    if !auto_create_topic_on_subscribe {
        if topics.get(topic_id).is_none() {
            return Err(OperationFailResult::TopicNotFound { topic_id: topic_id.to_owned() });
        }
    }
    let ghost before = *topics;
    let topic = topics.add_if_not_exists(topic_id);
    let ghost t0 = *topic;
    let topic_key = topic.topic_id.clone();
    let queue = topic.queues.add_queue_if_not_exists(topic_key, queue_id.to_owned(), queue_type);
    let ghost qa = *queue;
    let subscribed = subscribe_session(queue, queue_type, subscriber_id, session_id, delivery_packet_version);
    let ghost mid = *queue;
    let result = match subscribed {
        Ok(()) => {
            let outcome = try_to_deliver(queue, &topic.pages, max_delivery_size);
            Ok(outcome)
        },
        Err(e) => Err(e),
    };
    proof {
        let qf = *queue;
        let t1 = *topic;
        assert(qf.queue_id@ == queue_id@);
        if !t0.queues.contains_queue(queue_id@) {
            assert(t1.queues.queues() =~= t0.queues.queues().push(qf));
        }
        lemma_queue_put(t0.queues, t1.queues, queue_id@, qf);
        if !before.contains_topic(topic_id@) {
            assert(topics.topics() =~= before.topics().push(t1));
        }
        lemma_topic_put(before, *topics, topic_id@, t1);
        assert(subscribe_outcome(qa, mid, queue_type, subscriber_id, session_id, delivery_packet_version, subscription_result(result)));
        assert(topic_put(before.topics(), *topics, topic_id@, t1));
        assert(topic_to_subscribe(before, t1, topic_id@));
        assert(queues_of(before, topic_id@) == t0.queues.queues());
        assert(queue_put(queues_of(before, topic_id@), t1.queues, queue_id@, qf));
        assert(queue_to_subscribe(existing_queue(before, topic_id@, queue_id@), qa, topic_id@, queue_id@, queue_type));
        assert(match result {
            Ok(outcome) => delivery_round(mid, qf, t1.pages, max_delivery_size as int, outcome),
            Err(_) => qf == mid,
        });
    }
    Ok(result)
}

} // verus!
