//! Operations on one queue of a topic, by topic id and queue id.
use vstd::prelude::*;

use crate::operations::delivery_confirmation::{has_queue, topic_queue};
use crate::operations::fail_result::OperationFailResult;
use crate::queue_with_intervals::{valid_message_id, MessageId};
use crate::queues::queue::TopicQueue;
use crate::queues::queues_list::{lemma_queue_put, queue_put, TopicQueuesList};
use crate::topics::{lemma_topic_put, topic_put, Topic, TopicsList};
use vstd::set_lib::set_int_range;

verus! {

/// Makes the queue hold exactly the ids from `message_id` up to the last message id of its topic;
/// fails when there is no such topic or the topic has no such queue.
pub fn set_message_id(
    topics: &mut TopicsList,
    topic_id: &str,
    queue_id: &str,
    message_id: MessageId,
) -> (result: Result<(), OperationFailResult>)
    requires
        old(topics).wf(),
        old(topics).contains_topic(topic_id@) && message_id <= old(topics).topic(topic_id@).message_id ==> valid_message_id(
            message_id as int,
        ) && valid_message_id(old(topics).topic(topic_id@).message_id as int),
    ensures
        final(topics).wf(),
        !old(topics).contains_topic(topic_id@) ==> (result matches Err(OperationFailResult::TopicNotFound { topic_id: id })
            && id@ == topic_id@ && *final(topics) == *old(topics)),
        old(topics).contains_topic(topic_id@) && !old(topics).topic(topic_id@).queues.contains_queue(queue_id@) ==> (result matches Err(
            OperationFailResult::QueueNotFound { queue_id: id },
        ) && id@ == queue_id@ && *final(topics) == *old(topics)),
        has_queue(*old(topics), topic_id@, queue_id@) ==> result is Ok && exists|t1: Topic, q: TopicQueue|
            #![trigger queue_put(old(topics).topic(topic_id@).queues.queues(), t1.queues, queue_id@, q)]
            {
                let q0 = topic_queue(*old(topics), topic_id@, queue_id@);
                &&& topic_put(old(topics).topics(), *final(topics), topic_id@, t1)
                &&& t1.same_but_queues(old(topics).topic(topic_id@))
                &&& queue_put(old(topics).topic(topic_id@).queues.queues(), t1.queues, queue_id@, q)
                &&& q.queue@ == set_int_range(message_id as int, t1.message_id + 1)
                &&& q.topic_id == q0.topic_id
                &&& q.queue_id == q0.queue_id
                &&& q.subscribers == q0.subscribers
                &&& q.delivery_attempts@ == q0.delivery_attempts@
                &&& q.queue_type == q0.queue_type
            },
{
    match crate::operations::delivery_confirmation::check_route(topics, topic_id, queue_id) {
        Err(e) => {
            return Err(e);
        },
        Ok(()) => {},
    }
    let ghost before = *topics;
    let topic = match topics.get_mut(topic_id) {
        Some(topic) => topic,
        None => {
            return Err(OperationFailResult::TopicNotFound { topic_id: topic_id.to_owned() });
        },
    };
    let ghost t0 = *topic;
    let topic_message_id = topic.message_id;
    let queue = match topic.queues.get_mut(queue_id) {
        Some(queue) => queue,
        None => {
            return Err(OperationFailResult::QueueNotFound { queue_id: queue_id.to_owned() });
        },
    };
    let ghost q0 = *queue;
    queue.set_message_id(message_id, topic_message_id);
    proof {
        let q = *queue;
        let t1 = *topic;
        assert(q0.wf());
        assert(q.wf());
        lemma_queue_put(t0.queues, t1.queues, queue_id@, q);
        lemma_topic_put(before, *topics, topic_id@, t1);
        assert(q0 == topic_queue(before, topic_id@, queue_id@));
        assert(t1.same_but_queues(before.topic(topic_id@)));
        assert(t1.message_id == topic_message_id);
        assert(queue_put(before.topic(topic_id@).queues.queues(), t1.queues, queue_id@, q));
    }
    Ok(())
}

/// Deletes the queue with the given id from its topic, if the topic has one; fails when there is
/// no such topic.
pub fn delete_queue(topics: &mut TopicsList, topic_id: &str, queue_id: &str) -> (result: Result<(), OperationFailResult>)
    requires
        old(topics).wf(),
    ensures
        final(topics).wf(),
        !old(topics).contains_topic(topic_id@) ==> (result matches Err(OperationFailResult::TopicNotFound { topic_id: id })
            && id@ == topic_id@ && *final(topics) == *old(topics)),
        old(topics).contains_topic(topic_id@) ==> result is Ok && exists|t1: Topic|
            #![trigger topic_put(old(topics).topics(), *final(topics), topic_id@, t1)]
            {
                let t0 = old(topics).topic(topic_id@);
                &&& topic_put(old(topics).topics(), *final(topics), topic_id@, t1)
                &&& t1.same_but_queues(t0)
                &&& !t1.queues.contains_queue(queue_id@)
                &&& forall|id: Seq<char>| id != queue_id@ ==> (#[trigger] t1.queues.contains_queue(id) == t0.queues.contains_queue(id))
            },
{
    let ghost before = *topics;
    let topic = match topics.get_mut(topic_id) {
        Some(topic) => topic,
        None => {
            return Err(OperationFailResult::TopicNotFound { topic_id: topic_id.to_owned() });
        },
    };
    let ghost t0 = *topic;
    proof {
        let i = crate::topics::index_of_topic(before.topics(), topic_id@);
        assert(before.topics()[i].queues.wf());
    }
    topic.queues.delete_queue(queue_id);
    proof {
        let t1 = *topic;
        crate::topics::lemma_topic_replaced(before, *topics, crate::topics::index_of_topic(before.topics(), topic_id@));
        lemma_topic_put(before, *topics, topic_id@, t1);
        assert(t1.same_but_queues(before.topic(topic_id@)));
        assert(topic_put(before.topics(), *topics, topic_id@, t1));
    }
    Ok(())
}

} // verus!
