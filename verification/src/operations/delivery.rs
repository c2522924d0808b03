//! Delivery of the messages of a queue to its subscribers: each ready subscriber is
//! rented, gets the next messages of the queue that fit into one package, and is put on
//! delivery of them.
use vstd::prelude::*;

use crate::date_time::DateTimeAsMicroseconds;
use crate::messages_page::{lookup, page_of, MessagesPagesCache, MySbMessage, PageId};
use crate::queue_subscribers::queue_subscriber::{same_identity, same_statistics, QueueSubscriber, QueueSubscriberDeliveryState};
use crate::queue_subscribers::subscriber_metrics::{SubscriberId, SubscriberMetrics, DELIVERY_MODE_ON_DELIVERY};
use crate::queue_subscribers::subscribers_list::{index_of_id, lemma_update_keeps_wf};
use crate::queue_with_intervals::{valid_message_id, MessageId, QueueWithIntervals};
use crate::queues::delivery_attempts::attempt_of;
use crate::queues::delivery_bucket::DeliveryBucket;
use crate::queues::delivery_iterator::{is_min, DeliveryIterator, NextMessageResult};
use crate::queues::queue::TopicQueue;
use crate::topics::Topic;

verus! {

/// A message as it is sent to a subscriber.
pub struct MessageToDeliver {
    pub id: MessageId,
    pub attempt_no: i32,
    pub content: Vec<u8>,
}

/// The messages sent to one subscriber in one delivery.
pub struct DeliveryPackage {
    pub subscriber_id: SubscriberId,
    pub session_id: i64,
    pub delivery_packet_version: i32,
    pub messages: Vec<MessageToDeliver>,
}

/// What a delivery round did: the packages to send, and the page to load before the
/// queue can go on.
pub struct DeliveryOutcome {
    pub packages: Vec<DeliveryPackage>,
    pub load_page: Option<PageId>,
}

/// The ids of a list of messages.
pub open spec fn message_ids(messages: Seq<MessageToDeliver>) -> Set<int> {
    Set::new(|id: int| exists|k: int| 0 <= k < messages.len() && (#[trigger] messages[k]).id == id)
}

/// The number of content bytes of a list of messages.
pub open spec fn package_size(messages: Seq<MessageToDeliver>) -> int
    decreases messages.len(),
{
    if messages.len() == 0 {
        0
    } else {
        package_size(messages.drop_last()) + messages.last().content@.len()
    }
}

/// A package holds at most `max` bytes of contents, unless everything before its last message is
/// empty (the first message with content always goes), and its messages come in increasing id order.
pub open spec fn package_well_made(messages: Seq<MessageToDeliver>, max: int) -> bool {
    &&& (package_size(messages) <= max || package_size(messages.drop_last()) == 0)
    &&& forall|k1: int, k2: int|
        #![trigger messages[k1], messages[k2]]
        0 <= k1 < k2 < messages.len() ==> messages[k1].id < messages[k2].id
}

/// A message as the cache and the attempts describe it.
pub open spec fn message_matches(m: MessageToDeliver, pages: MessagesPagesCache, attempts: Map<MessageId, i32>) -> bool {
    &&& lookup(pages.pages@, m.id as int) matches Some(MySbMessage::Loaded(c)) && c.content@ == m.content@
    &&& m.attempt_no == attempt_of(attempts, m.id)
}

/// A message that is lost: the cache marks it missing.
pub open spec fn lost_message(pages: MessagesPagesCache, id: int) -> bool {
    lookup(pages.pages@, id) matches Some(m) && m is Missing
}

/// Message `x` closed a package of `messages`: it is loaded, comes after every message of the
/// package, and does not fit into it (the package is not empty and `x` would take it past `max`).
pub open spec fn package_overflow(messages: Seq<MessageToDeliver>, pages: MessagesPagesCache, x: int, max: int) -> bool {
    &&& lookup(pages.pages@, x) matches Some(MySbMessage::Loaded(c)) && package_size(messages) > 0 && package_size(
        messages,
    ) + c.content@.len() > max
    &&& forall|k: int| 0 <= k < messages.len() ==> (#[trigger] messages[k]).id < x
}

/// A package was closed by a message that did not fit, which left the queue undelivered.
pub open spec fn package_closed(messages: Seq<MessageToDeliver>, pages: MessagesPagesCache, max: int) -> bool {
    exists|x: int| #[trigger] package_overflow(messages, pages, x, max)
}

/// Where the queue stopped for want of a page: its smallest id lies on `page_id`, and
/// the cache does not hold that message's content.
pub open spec fn waits_for_page(pages: MessagesPagesCache, queue: Set<int>, page_id: PageId) -> bool {
    &&& !queue.is_empty()
    &&& forall|m: int| #[trigger] is_min(queue, m) ==> page_id == page_of(m) && (lookup(pages.pages@, m) is None
        || (lookup(pages.pages@, m) matches Some(MySbMessage::NotLoaded { id: _ })))
}

/// The number of subscribers that are ready to deliver.
pub open spec fn ready_count(s: Seq<QueueSubscriber>) -> int
    decreases s.len(),
{
    if s.len() == 0 {
        0
    } else {
        ready_count(s.drop_last()) + if s.last().delivery_state is ReadyToDeliver {
            1int
        } else {
            0int
        }
    }
}

pub proof fn lemma_ready_count_update(s: Seq<QueueSubscriber>, i: int, x: QueueSubscriber)
    requires
        0 <= i < s.len(),
    ensures
        ready_count(s.update(i, x)) == ready_count(s) - (if s[i].delivery_state is ReadyToDeliver {
            1int
        } else {
            0int
        }) + (if x.delivery_state is ReadyToDeliver {
            1int
        } else {
            0int
        }),
    decreases s.len(),
{
    let t = s.update(i, x);
    if i == s.len() - 1 {
        assert(t.drop_last() =~= s.drop_last());
    } else {
        lemma_ready_count_update(s.drop_last(), i, x);
        assert(t.drop_last() =~= s.drop_last().update(i, x));
    }
}

pub proof fn lemma_ready_count_nonneg(s: Seq<QueueSubscriber>)
    ensures
        ready_count(s) >= 0,
    decreases s.len(),
{
    if s.len() > 0 {
        lemma_ready_count_nonneg(s.drop_last());
    }
}

/// Takes from the queue the next messages that fit into one package of
/// `max_delivery_size` bytes (the first message always fits).
fn fill_package(queue: &mut TopicQueue, pages: &MessagesPagesCache, max_delivery_size: usize) -> (result: (
    Vec<MessageToDeliver>,
    QueueWithIntervals,
    Option<PageId>,
    Ghost<Option<int>>,
))
    ensures
        final(queue).queue@.subset_of(old(queue).queue@),
        final(queue).subscribers == old(queue).subscribers,
        final(queue).delivery_attempts@ == old(queue).delivery_attempts@,
        final(queue).queue_type == old(queue).queue_type,
        final(queue).topic_id == old(queue).topic_id,
        final(queue).queue_id == old(queue).queue_id,
        result.1@ == message_ids(result.0@),
        package_well_made(result.0@, max_delivery_size as int),
        forall|k: int| 0 <= k < result.0@.len() ==> {
            &&& message_matches(#[trigger] result.0@[k], *pages, old(queue).delivery_attempts@)
            &&& old(queue).queue@.contains(result.0@[k].id as int)
            &&& !final(queue).queue@.contains(result.0@[k].id as int)
        },
        forall|x: int|
            #[trigger] old(queue).queue@.contains(x) && !final(queue).queue@.contains(x) && !result.1@.contains(x)
                ==> lost_message(*pages, x) || result.3@ == Some(x),
        result.3@ matches Some(x) ==> package_overflow(result.0@, *pages, x, max_delivery_size as int)
            && old(queue).queue@.contains(x) && !final(queue).queue@.contains(x),
        removed_before(old(queue).queue@, final(queue).queue@),
        forall|k: int, x: int|
            0 <= k < result.0@.len() && #[trigger] final(queue).queue@.contains(x) ==> (#[trigger] result.0@[k]).id < x,
        match result.2 {
            Some(page_id) => waits_for_page(*pages, final(queue).queue@, page_id) && result.3@ is None,
            None => result.3@ is None ==> final(queue).queue@.is_empty(),
        },
{
    let mut iterator = DeliveryIterator::new(max_delivery_size);
    let mut messages: Vec<MessageToDeliver> = Vec::new();
    let mut ids = QueueWithIntervals::new();
    let mut payload_size: usize = 0;
    let mut load_page: Option<PageId> = None;
    let ghost mut overflow: Option<int> = None;
    queue.queue.well_formed_facts();
    loop
        invariant_except_break
            load_page is None,
            overflow is None,
        invariant
            iterator.spec_yielded_size() == 0,
            iterator.spec_max_size() == max_delivery_size,
            queue.queue@.finite(),
            queue.queue@.subset_of(old(queue).queue@),
            forall|x: int| #[trigger] old(queue).queue@.contains(x) ==> valid_message_id(x),
            queue.subscribers == old(queue).subscribers,
            queue.delivery_attempts@ == old(queue).delivery_attempts@,
            queue.queue_type == old(queue).queue_type,
            queue.topic_id == old(queue).topic_id,
            queue.queue_id == old(queue).queue_id,
            ids@ == message_ids(messages@),
            payload_size == package_size(messages@),
            package_well_made(messages@, max_delivery_size as int),
            forall|k: int, x: int|
                0 <= k < messages@.len() && #[trigger] queue.queue@.contains(x) ==> (#[trigger] messages@[k]).id < x,
            forall|k: int| 0 <= k < messages@.len() ==> {
                &&& message_matches(#[trigger] messages@[k], *pages, old(queue).delivery_attempts@)
                &&& old(queue).queue@.contains(messages@[k].id as int)
                &&& !queue.queue@.contains(messages@[k].id as int)
            },
            forall|x: int|
                #[trigger] old(queue).queue@.contains(x) && !queue.queue@.contains(x) && !ids@.contains(x)
                    ==> lost_message(*pages, x) || overflow == Some(x),
            overflow matches Some(x) ==> package_overflow(messages@, *pages, x, max_delivery_size as int)
                && old(queue).queue@.contains(x) && !queue.queue@.contains(x),
            removed_before(old(queue).queue@, queue.queue@),
        ensures
            match load_page {
                Some(page_id) => waits_for_page(*pages, queue.queue@, page_id) && overflow is None,
                None => overflow is None ==> queue.queue@.is_empty(),
            },
        decreases queue.queue@.len(),
    {
        let ghost before = queue.queue@;
        let next = iterator.next(pages, &mut queue.queue, &queue.delivery_attempts);
        queue.queue.well_formed_facts();
        proof {
            let after = queue.queue@;
            let q0 = old(queue).queue@;
            assert forall|x: int, y: int| #[trigger] q0.contains(x) && !after.contains(x) && #[trigger] after.contains(y) implies x < y by {
                assert(before.contains(y));
                if before.contains(x) {
                    assert(before.contains(x) && !after.contains(x) && after.contains(y));
                }
            }
        }
        match next {
            None => {
                let min_id = queue.queue.get_min_id();
                if let Some(m) = min_id {
                    assert(is_min(queue.queue@, m as int));
                }
                break;
            },
            Some(NextMessageResult::LoadDataRequired(page_id)) => {
                load_page = Some(page_id);
                assert(!queue.queue@.is_empty());
                assert(waits_for_page(*pages, queue.queue@, page_id));
                break;
            },
            Some(NextMessageResult::Value { content, attempt_no }) => {
                let size = content.content.len();
                proof {
                    assert(before.contains(content.id as int));
                    assert(queue.queue@.len() < before.len()) by {
                        vstd::set_lib::lemma_len_subset(queue.queue@, before.remove(content.id as int));
                    }
                }
                if payload_size == 0 || (payload_size <= max_delivery_size && size <= max_delivery_size
                    - payload_size) {
                    let data = content.content.clone();
                    proof {
                        assert(data@ =~= content.content@);
                    }
                    let message = MessageToDeliver { id: content.id, attempt_no, content: data };
                    let ghost old_messages = messages@;
                    let ghost old_payload = payload_size;
                    messages.push(message);
                    ids.enqueue(content.id);
                    payload_size = payload_size + size;
                    proof {
                        assert(messages@.drop_last() =~= old_messages);
                        assert(messages@[messages@.len() - 1] == message);
                        assert forall|k: int| 0 <= k < old_messages.len() implies (#[trigger] old_messages[k]).id < content.id by {
                            assert(before.contains(content.id as int));
                        }
                        assert forall|k: int, x: int|
                            0 <= k < messages@.len() && #[trigger] queue.queue@.contains(x) implies (#[trigger] messages@[k]).id < x by {
                            assert(before.contains(x));
                            if k < old_messages.len() {
                                assert(messages@[k] == old_messages[k]);
                            } else {
                                assert(before.contains(content.id as int) && !queue.queue@.contains(content.id as int));
                            }
                        }
                        if old_payload == 0 {
                            assert(package_size(messages@.drop_last()) == 0);
                        }
                        assert forall|k: int| 0 <= k < old_messages.len() implies #[trigger] messages@[k] == old_messages[k] by {}
                        assert(ids@ =~= message_ids(messages@)) by {
                            assert forall|id: int| ids@.contains(id) == message_ids(messages@).contains(id) by {
                                if message_ids(old_messages).contains(id) {
                                    let k = choose|k: int| 0 <= k < old_messages.len() && (#[trigger] old_messages[k]).id == id;
                                    assert(messages@[k].id == id);
                                }
                                if message_ids(messages@).contains(id) {
                                    let k = choose|k: int| 0 <= k < messages@.len() && (#[trigger] messages@[k]).id == id;
                                    if k < old_messages.len() {
                                        assert(old_messages[k].id == id);
                                    }
                                }
                                if id == content.id {
                                    assert(messages@[messages@.len() - 1].id == id);
                                }
                            }
                        }
                    }
                } else {
                    proof {
                        let x = content.id as int;
                        assert(before.contains(x));
                        assert forall|k: int| 0 <= k < messages@.len() implies (#[trigger] messages@[k]).id < x by {}
                        overflow = Some(x);
                    }
                    break;
                }
            },
        }
    }
    (messages, ids, load_page, Ghost(overflow))
}


/// What a delivery round may do to subscriber `i`: it keeps its state and its delivery
/// statistics, or, when it was ready, it is put on delivery of a package.
pub open spec fn delivery_round_subscriber(a: QueueSubscriber, b: QueueSubscriber) -> bool {
    &&& same_identity(b, a)
    &&& b.wf() == a.wf()
    &&& (b.delivery_state == a.delivery_state || (a.delivery_state is ReadyToDeliver && b.delivery_state is OnDelivery))
    &&& !(a.delivery_state is ReadyToDeliver && b.delivery_state is OnDelivery) ==> same_statistics(b.metrics, a.metrics)
}

/// The metrics `after` of a subscriber record that a delivery started from `before`: the
/// subscriber is active and on delivery, and its delivered amounts and history are kept.
pub open spec fn delivery_started(before: SubscriberMetrics, after: SubscriberMetrics) -> bool {
    &&& after.active == 2
    &&& after.delivery_mode == DELIVERY_MODE_ON_DELIVERY
    &&& after.delivered_amount == before.delivered_amount
    &&& after.delivery_microseconds == before.delivery_microseconds
    &&& after.delivery_history@ == before.delivery_history@
}

/// Package `p` went to a subscriber that is now on delivery of exactly its messages, with its
/// delivery metrics started; each of its messages came out of the queue as the cache and the
/// attempts describe it.
pub open spec fn package_delivered(
    p: DeliveryPackage,
    before: TopicQueue,
    after: TopicQueue,
    pages: MessagesPagesCache,
) -> bool {
    let s = before.subscribers.subscribers();
    let t = after.subscribers.subscribers();
    let i = index_of_id(s, p.subscriber_id);
    &&& 0 <= i < s.len()
    &&& s[i].delivery_state is ReadyToDeliver
    &&& p.session_id == s[i].session_id
    &&& p.delivery_packet_version == s[i].delivery_packet_version
    &&& p.messages@.len() > 0
    &&& (t[i].delivery_state matches QueueSubscriberDeliveryState::OnDelivery(data) && data.bucket.ids@ == message_ids(p.messages@)
        && data.bucket.confirmed == 0)
    &&& delivery_started(s[i].metrics, t[i].metrics)
    &&& forall|k: int| 0 <= k < p.messages@.len() ==> {
        &&& message_matches(#[trigger] p.messages@[k], pages, before.delivery_attempts@)
        &&& before.queue@.contains(p.messages@[k].id as int)
        &&& !after.queue@.contains(p.messages@[k].id as int)
    }
}

/// Every subscriber that was ready and is now on delivery got one of the packages.
pub open spec fn covers_on_delivery(before: Seq<QueueSubscriber>, after: Seq<QueueSubscriber>, packages: Seq<DeliveryPackage>) -> bool {
    forall|j: int| 0 <= j < before.len() && (#[trigger] before[j]).delivery_state is ReadyToDeliver
        && after[j].delivery_state is OnDelivery
        ==> exists|k: int| 0 <= k < packages.len() && (#[trigger] packages[k]).subscriber_id == before[j].id
}

/// Every id that left the queue is lost, went out in one of the packages, or is the message that
/// did not fit into one of them.
pub open spec fn removed_accounted(
    pages: MessagesPagesCache,
    before: Set<int>,
    after: Set<int>,
    packages: Seq<DeliveryPackage>,
    max: int,
) -> bool {
    forall|x: int|
        #[trigger] before.contains(x) && !after.contains(x) ==> lost_message(pages, x) || exists|k: int|
            0 <= k < packages.len() && (message_ids((#[trigger] packages[k]).messages@).contains(x) || package_overflow(
                packages[k].messages@,
                pages,
                x,
                max,
            ))
}

/// Ids leave the queue in order: every id taken out of `before` is smaller than every id left in
/// `after`.
pub open spec fn removed_before(before: Set<int>, after: Set<int>) -> bool {
    forall|x: int, y: int| #[trigger] before.contains(x) && !after.contains(x) && #[trigger] after.contains(y) ==> x < y
}

/// The ids of the packages are smaller than every id left in the queue.
pub open spec fn packages_before(packages: Seq<DeliveryPackage>, queue: Set<int>) -> bool {
    forall|k: int, j: int, x: int|
        0 <= k < packages.len() && 0 <= j < packages[k].messages@.len() && #[trigger] queue.contains(x) ==> (
        #[trigger] packages[k].messages@[j]).id < x
}

/// No two packages go to the same subscriber.
pub open spec fn distinct_subscribers(packages: Seq<DeliveryPackage>) -> bool {
    forall|k1: int, k2: int|
        #![trigger packages[k1], packages[k2]]
        0 <= k1 < k2 < packages.len() ==> packages[k1].subscriber_id != packages[k2].subscriber_id
}

/// Every package but the last was closed by a message that did not fit; the last one was too,
/// unless `stopped` (the queue ran empty or waits for a page).
pub open spec fn packages_closed(packages: Seq<DeliveryPackage>, pages: MessagesPagesCache, max: int, stopped: bool) -> bool {
    &&& forall|k: int| 0 <= k < packages.len() - 1 ==> package_closed((#[trigger] packages[k]).messages@, pages, max)
    &&& packages.len() > 0 ==> package_closed(packages.last().messages@, pages, max) || stopped
}

/// A package stays delivered while the queue only shrinks and only subscriber `r`,
/// which was ready, changes.
proof fn lemma_package_stays(
    p: DeliveryPackage,
    q0: TopicQueue,
    qa: TopicQueue,
    qb: TopicQueue,
    pages: MessagesPagesCache,
    r: int,
)
    requires
        package_delivered(p, q0, qa, pages),
        qb.queue@.subset_of(qa.queue@),
        q0.subscribers.subscribers().len() == qa.subscribers.subscribers().len(),
        qa.subscribers.subscribers().len() == qb.subscribers.subscribers().len(),
        0 <= r < qa.subscribers.subscribers().len(),
        qa.subscribers.subscribers()[r].delivery_state is ReadyToDeliver,
        forall|j: int| 0 <= j < qa.subscribers.subscribers().len() && j != r ==> #[trigger] qb.subscribers.subscribers()[j]
            == qa.subscribers.subscribers()[j],
    ensures
        package_delivered(p, q0, qb, pages),
{
    let i = index_of_id(q0.subscribers.subscribers(), p.subscriber_id);
    assert(qa.subscribers.subscribers()[i].delivery_state is OnDelivery);
    assert(i != r);
    assert(qb.subscribers.subscribers()[i] == qa.subscribers.subscribers()[i]);
    assert forall|k: int| 0 <= k < p.messages@.len() implies !qb.queue@.contains(#[trigger] p.messages@[k].id as int) by {
        assert(!qa.queue@.contains(p.messages@[k].id as int));
    }
}

/// What a delivery round of the queue `q0` gives: the queue `q1` after it and the packages it
/// sent, with `pages` the cache it read and `max` the most bytes of a package.
pub open spec fn delivery_round(q0: TopicQueue, q1: TopicQueue, pages: MessagesPagesCache, max: int, result: DeliveryOutcome) -> bool {
    &&& q1.queue@.subset_of(q0.queue@)
    &&& q1.delivery_attempts@ == q0.delivery_attempts@
    &&& q1.queue_type == q0.queue_type
    &&& q1.topic_id == q0.topic_id
    &&& q1.queue_id == q0.queue_id
    &&& q1.subscribers.is_single() == q0.subscribers.is_single()
    &&& q1.subscribers.snapshot_id == q0.subscribers.snapshot_id
    &&& q1.subscribers.subscribers().len() == q0.subscribers.subscribers().len()
    &&& forall|i: int| 0 <= i < q0.subscribers.subscribers().len() ==> delivery_round_subscriber(
        #[trigger] q0.subscribers.subscribers()[i],
        q1.subscribers.subscribers()[i],
    )
    &&& forall|k: int| 0 <= k < result.packages@.len() ==> package_delivered(#[trigger] result.packages@[k], q0, q1, pages)
    &&& forall|k: int| 0 <= k < result.packages@.len() ==> package_well_made(#[trigger] result.packages@[k].messages@, max)
    &&& covers_on_delivery(q0.subscribers.subscribers(), q1.subscribers.subscribers(), result.packages@)
    &&& removed_accounted(pages, q0.queue@, q1.queue@, result.packages@, max)
    &&& removed_before(q0.queue@, q1.queue@)
    &&& packages_before(result.packages@, q1.queue@)
    &&& distinct_subscribers(result.packages@)
    &&& packages_closed(result.packages@, pages, max, q1.queue@.is_empty() || result.load_page is Some)
    &&& match result.load_page {
        Some(page_id) => waits_for_page(pages, q1.queue@, page_id),
        None => q1.queue@.is_empty() || forall|i: int|
            0 <= i < q1.subscribers.subscribers().len() ==> !((#[trigger] q1.subscribers.subscribers()[i]).delivery_state is ReadyToDeliver),
    }
}

/// Delivers what it can of the queue: while the queue holds ids and a subscriber is
/// ready, rents the first ready subscriber and fills a package for it (of at most
/// `max_delivery_size` bytes, the first message always fitting). A subscriber that gets
/// no message is given back. The round stops early when a message's page is not in the
/// cache, and says which page to load.
#[verifier::spinoff_prover]
#[verifier::rlimit(40)]
pub fn try_to_deliver(queue: &mut TopicQueue, pages: &MessagesPagesCache, max_delivery_size: usize) -> (result: DeliveryOutcome)
    requires
        old(queue).wf(),
    ensures
        final(queue).wf(),
        delivery_round(*old(queue), *final(queue), *pages, max_delivery_size as int, result),
{
    let ghost q0 = *queue;
    let ghost s0 = queue.subscribers.subscribers();
    let mut packages: Vec<DeliveryPackage> = Vec::new();
    proof {
        lemma_ready_count_nonneg(s0);
    }
    loop
        invariant
            q0 == *old(queue),
            s0 == old(queue).subscribers.subscribers(),
            queue.wf(),
            queue.queue@.subset_of(q0.queue@),
            queue.delivery_attempts@ == q0.delivery_attempts@,
            queue.queue_type == q0.queue_type,
            queue.topic_id == q0.topic_id,
            queue.queue_id == q0.queue_id,
            queue.subscribers.is_single() == q0.subscribers.is_single(),
            queue.subscribers.snapshot_id == q0.subscribers.snapshot_id,
            queue.subscribers.subscribers().len() == s0.len(),
            forall|i: int| 0 <= i < s0.len() ==> delivery_round_subscriber(#[trigger] s0[i], queue.subscribers.subscribers()[i]),
            forall|k: int| 0 <= k < packages@.len() ==> package_delivered(#[trigger] packages@[k], q0, *queue, *pages),
            forall|k: int| 0 <= k < packages@.len() ==> package_well_made(#[trigger] packages@[k].messages@, max_delivery_size as int),
            covers_on_delivery(s0, queue.subscribers.subscribers(), packages@),
            removed_accounted(*pages, q0.queue@, queue.queue@, packages@, max_delivery_size as int),
            removed_before(q0.queue@, queue.queue@),
            packages_before(packages@, queue.queue@),
            distinct_subscribers(packages@),
            packages_closed(packages@, *pages, max_delivery_size as int, queue.queue@.is_empty()),
        ensures
            queue.queue@.is_empty() || forall|i: int|
                0 <= i < queue.subscribers.subscribers().len() ==> !((#[trigger] queue.subscribers.subscribers()[i]).delivery_state is ReadyToDeliver),
        decreases ready_count(queue.subscribers.subscribers()) + if queue.queue@.is_empty() { 0int } else { 1int },
    {
        queue.queue.well_formed_facts();
        if queue.queue.len() == 0 {
            assert(queue.queue@ =~= Set::<int>::empty());
            break;
        }
        let ghost sa = queue.subscribers.subscribers();
        let ghost qa = *queue;
        let ghost measure_before = ready_count(sa) + 1;
        let rented = queue.subscribers.get_and_rent_next_subscriber_ready_to_deliver();
        let (subscriber_id, session_id, delivery_packet_version) = match rented {
            None => {
                break;
            },
            Some(subscriber) => (subscriber.id, subscriber.session_id, subscriber.delivery_packet_version),
        };
        let ghost i = index_of_id(sa, subscriber_id);
        proof {
            lemma_update_keeps_wf(qa.subscribers, queue.subscribers, i);
            lemma_ready_count_update(sa, i, queue.subscribers.subscribers()[i]);
        }
        let ghost sb = queue.subscribers.subscribers();
        let (messages, ids, load_page, overflow) = fill_package(queue, pages, max_delivery_size);
        let ghost qc = *queue;
        proof {
            assert forall|x: int, y: int| #[trigger] q0.queue@.contains(x) && !qc.queue@.contains(x) && #[trigger] qc.queue@.contains(
                y,
            ) implies x < y by {
                assert(qa.queue@.contains(y));
                if qa.queue@.contains(x) {
                    assert(qa.queue@.contains(x) && !qc.queue@.contains(x) && qc.queue@.contains(y));
                }
            }
            assert(queue.subscribers.contains_id(subscriber_id)) by {
                assert(sb[i].id == subscriber_id);
            }
            assert(index_of_id(sb, subscriber_id) == i) by {
                let k = index_of_id(sb, subscriber_id);
                if k != i {
                    if k < i {
                        assert(sb[k].id != sb[i].id);
                    } else {
                        assert(sb[i].id != sb[k].id);
                    }
                }
            }
        }
        let ghost old_packages = packages@;
        let ghost package_ids = ids@;
        let ghost package_messages = messages@;
        let found = queue.subscribers.get_by_id_mut(subscriber_id);
        if let Some(subscriber) = found {
            if messages.len() > 0 {
                subscriber.set_messages_on_delivery(DeliveryBucket::new(ids));
                subscriber.metrics.set_started_delivery(DateTimeAsMicroseconds::now());
                packages.push(DeliveryPackage { subscriber_id, session_id, delivery_packet_version, messages });
            } else {
                subscriber.cancel_the_rent();
            }
        }
        proof {
            let sc = queue.subscribers.subscribers();
            lemma_update_keeps_wf(qc.subscribers, queue.subscribers, i);
            lemma_ready_count_update(sb, i, sc[i]);
            // the subscriber's index in the list as it was when the round started
            let k0 = index_of_id(s0, subscriber_id);
            assert(0 <= k0 < s0.len() && s0[k0].id == subscriber_id);
            assert(delivery_round_subscriber(s0[k0], sa[k0]));
            if k0 != i {
                if k0 < i {
                    assert(sa[k0].id != sa[i].id);
                } else {
                    assert(sa[i].id != sa[k0].id);
                }
            }
            assert(s0[i].delivery_state is ReadyToDeliver);
            // the earlier packages stay delivered
            assert forall|k: int| 0 <= k < old_packages.len() implies package_delivered(
                #[trigger] old_packages[k],
                q0,
                *queue,
                *pages,
            ) by {
                lemma_package_stays(old_packages[k], q0, qa, *queue, *pages, i);
            }
            if package_messages.len() > 0 {
                let p = packages@[packages@.len() - 1];
                assert(p.messages@ == package_messages);
                assert forall|k: int| 0 <= k < packages@.len() implies package_well_made(
                    #[trigger] packages@[k].messages@,
                    max_delivery_size as int,
                ) by {
                    if k < old_packages.len() {
                        assert(packages@[k] == old_packages[k]);
                    }
                }
                assert(package_delivered(p, q0, *queue, *pages));
                assert forall|k: int| 0 <= k < packages@.len() implies package_delivered(
                    #[trigger] packages@[k],
                    q0,
                    *queue,
                    *pages,
                ) by {
                    if k < old_packages.len() {
                        assert(packages@[k] == old_packages[k]);
                    }
                }
                let last = packages@.len() - 1;
                assert(packages@[last] == p);
                assert forall|x: int|
                    #[trigger] q0.queue@.contains(x) && !queue.queue@.contains(x) implies lost_message(*pages, x)
                        || exists|k: int|
                        0 <= k < packages@.len() && (message_ids((#[trigger] packages@[k]).messages@).contains(x)
                            || package_overflow(packages@[k].messages@, *pages, x, max_delivery_size as int)) by {
                    if qa.queue@.contains(x) {
                        if package_ids.contains(x) {
                            assert(message_ids(packages@[last].messages@).contains(x));
                        } else if !lost_message(*pages, x) {
                            assert(overflow@ == Some(x));
                            assert(package_overflow(packages@[last].messages@, *pages, x, max_delivery_size as int));
                        }
                    } else {
                        assert(removed_accounted(*pages, q0.queue@, qa.queue@, old_packages, max_delivery_size as int));
                        if !lost_message(*pages, x) {
                            let k = choose|k: int|
                                0 <= k < old_packages.len() && (message_ids((#[trigger] old_packages[k]).messages@).contains(x)
                                    || package_overflow(old_packages[k].messages@, *pages, x, max_delivery_size as int));
                            assert(packages@[k] == old_packages[k]);
                        }
                    }
                }
                assert forall|k: int, j: int, x: int|
                    0 <= k < packages@.len() && 0 <= j < packages@[k].messages@.len() && #[trigger] queue.queue@.contains(x)
                        implies (#[trigger] packages@[k].messages@[j]).id < x by {
                    assert(qc.queue@.contains(x));
                    if k < old_packages.len() {
                        assert(packages@[k] == old_packages[k]);
                        assert(qa.queue@.contains(x));
                        assert(packages_before(old_packages, qa.queue@));
                        assert(old_packages[k].messages@[j].id < x);
                    } else {
                        assert(package_messages[j].id < x);
                    }
                }
                assert forall|k1: int, k2: int|
                    #![trigger packages@[k1], packages@[k2]]
                    0 <= k1 < k2 < packages@.len() implies packages@[k1].subscriber_id != packages@[k2].subscriber_id by {
                    assert(packages@[k1] == old_packages[k1]);
                    if k2 < old_packages.len() {
                        assert(packages@[k2] == old_packages[k2]);
                        assert(distinct_subscribers(old_packages));
                    } else {
                        if old_packages[k1].subscriber_id == subscriber_id {
                            assert(package_delivered(old_packages[k1], q0, qa, *pages));
                            assert(index_of_id(s0, old_packages[k1].subscriber_id) == k0);
                            assert(sa[i].delivery_state is ReadyToDeliver);
                        }
                    }
                }
                assert forall|k: int| 0 <= k < packages@.len() - 1 implies package_closed(
                    (#[trigger] packages@[k]).messages@,
                    *pages,
                    max_delivery_size as int,
                ) by {
                    assert(packages@[k] == old_packages[k]);
                    assert(packages_closed(old_packages, *pages, max_delivery_size as int, qa.queue@.is_empty()));
                    if k == old_packages.len() - 1 {
                        assert(!qa.queue@.is_empty());
                        assert(old_packages.last() == old_packages[k]);
                    }
                }
                if overflow@ is Some {
                    let x = overflow@->0;
                    assert(package_overflow(packages@[last].messages@, *pages, x, max_delivery_size as int));
                }
                assert(packages_closed(
                    packages@,
                    *pages,
                    max_delivery_size as int,
                    queue.queue@.is_empty() || load_page is Some,
                ));
                assert forall|j: int| 0 <= j < s0.len() && (#[trigger] s0[j]).delivery_state is ReadyToDeliver
                    && sc[j].delivery_state is OnDelivery implies exists|k: int| 0 <= k < packages@.len() && (#[trigger] packages@[k]).subscriber_id == s0[j].id by {
                    if j == i {
                        assert(packages@[packages@.len() - 1].subscriber_id == s0[j].id);
                    } else {
                        assert(sc[j] == sa[j]);
                        assert(covers_on_delivery(s0, sa, old_packages));
                        assert(s0[j].delivery_state is ReadyToDeliver && sa[j].delivery_state is OnDelivery);
                        let k = choose|k: int| 0 <= k < old_packages.len() && (#[trigger] old_packages[k]).subscriber_id == s0[j].id;
                        assert(packages@[k] == old_packages[k]);
                    }
                }
                assert(covers_on_delivery(s0, sc, packages@));
                assert(removed_accounted(*pages, q0.queue@, queue.queue@, packages@, max_delivery_size as int));
            } else {
                assert(package_ids =~= Set::<int>::empty());
                assert forall|j: int| 0 <= j < s0.len() && (#[trigger] s0[j]).delivery_state is ReadyToDeliver
                    && sc[j].delivery_state is OnDelivery implies exists|k: int| 0 <= k < packages@.len() && (#[trigger] packages@[k]).subscriber_id == s0[j].id by {
                    assert(j != i);
                    assert(sc[j] == sa[j]);
                    assert(covers_on_delivery(s0, sa, old_packages));
                }
                assert(covers_on_delivery(s0, sc, packages@));
                assert(packages@ == old_packages);
                assert(overflow@ is None) by {
                    if overflow@ is Some {
                        assert(package_size(package_messages) == 0);
                    }
                }
                assert forall|x: int|
                    #[trigger] q0.queue@.contains(x) && !queue.queue@.contains(x) implies lost_message(*pages, x)
                        || exists|k: int|
                        0 <= k < packages@.len() && (message_ids((#[trigger] packages@[k]).messages@).contains(x)
                            || package_overflow(packages@[k].messages@, *pages, x, max_delivery_size as int)) by {
                    assert(removed_accounted(*pages, q0.queue@, qa.queue@, old_packages, max_delivery_size as int));
                }
                assert(removed_accounted(*pages, q0.queue@, queue.queue@, packages@, max_delivery_size as int));
                assert forall|k: int, j: int, x: int|
                    0 <= k < packages@.len() && 0 <= j < packages@[k].messages@.len() && #[trigger] queue.queue@.contains(x)
                        implies (#[trigger] packages@[k].messages@[j]).id < x by {
                    assert(qa.queue@.contains(x));
                    assert(packages_before(old_packages, qa.queue@));
                }
                assert(packages_closed(old_packages, *pages, max_delivery_size as int, qa.queue@.is_empty()));
                if packages@.len() > 0 {
                    assert(!qa.queue@.is_empty());
                }
                assert(packages_closed(
                    packages@,
                    *pages,
                    max_delivery_size as int,
                    queue.queue@.is_empty() || load_page is Some,
                ));
            }
        }
        if load_page.is_some() {
            return DeliveryOutcome { packages, load_page };
        }
        proof {
            let sc = queue.subscribers.subscribers();
            lemma_ready_count_nonneg(sc);
            assert(ready_count(sc) + (if queue.queue@.is_empty() { 0int } else { 1int }) < measure_before);
        }
    }
    DeliveryOutcome { packages, load_page: None }
}

/// Delivers what it can of every queue of the topic, queue after queue, reading the topic's pages;
/// stops after the first queue that waits for a page to be loaded, whose id the last outcome gives.
/// The outcome of the round of the queue at position `k` is the result's item `k`.
pub fn deliver_to_topic(topic: &mut Topic, max_delivery_size: usize) -> (result: Vec<DeliveryOutcome>)
    requires
        old(topic).queues.wf(),
    ensures
        final(topic).same_but_queues(*old(topic)),
        final(topic).queues.wf(),
        final(topic).queues.queues().len() == old(topic).queues.queues().len(),
        result@.len() <= old(topic).queues.queues().len(),
        forall|k: int| 0 <= k < result@.len() ==> delivery_round(
            #[trigger] old(topic).queues.queues()[k],
            final(topic).queues.queues()[k],
            old(topic).pages,
            max_delivery_size as int,
            result@[k],
        ),
        forall|k: int|
            result@.len() <= k < old(topic).queues.queues().len() ==> #[trigger] final(topic).queues.queues()[k] == old(
                topic,
            ).queues.queues()[k],
        forall|k: int| 0 <= k < result@.len() - 1 ==> (#[trigger] result@[k]).load_page is None,
        result@.len() < old(topic).queues.queues().len() ==> result@.len() > 0 && result@.last().load_page is Some,
{
    topic.queues.deliver_to_queues(&topic.pages, max_delivery_size)
}

} // verus!
