//! Bringing back the queues of a topic from their persisted snapshots.
use vstd::prelude::*;

use crate::queue_subscribers::queue_subscriber::QueueSubscriber;
use crate::queue_with_intervals::{
    MessageId, lemma_snapshot_restores, ranges_set, ranges_wf, snapshot_set, valid_message_id, QueueIndexRange, QueueWithIntervals,
};
use crate::queues::queue::{TopicQueue, TopicQueueSnapshot};
use crate::queues::queue_type::TopicQueueType;
use crate::queues::queues_list::{index_of_queue, persisted_queues, snapshot_of, TopicQueuesList};
use crate::topics::{lemma_topic_put, topic_put, Topic, TopicsList};

verus! {

/// The queue with the given id in the list.
pub open spec fn queue_in(list: TopicQueuesList, queue_id: Seq<char>) -> TopicQueue {
    list.queues()[index_of_queue(list.queues(), queue_id)]
}

/// Ranges whose ids `QueueWithIntervals::restore` accepts: every non-empty range holds valid ids.
pub open spec fn restorable_ranges(ranges: Seq<QueueIndexRange>) -> bool {
    forall|j: int|
        0 <= j < ranges.len() && #[trigger] ranges[j].from_id <= ranges[j].to_id ==> valid_message_id(
            ranges[j].from_id as int,
        ) && valid_message_id(ranges[j].to_id as int)
}

/// A range that `QueueWithIntervals::restore` accepts: an empty one, or one of valid ids.
pub open spec fn range_restorable(r: QueueIndexRange) -> bool {
    r.from_id <= r.to_id ==> valid_message_id(r.from_id as int) && valid_message_id(r.to_id as int)
}

/// The ranges of `s` that a restore keeps, in order: those that cannot hold message ids are left out.
pub open spec fn kept_ranges(s: Seq<QueueIndexRange>) -> Seq<QueueIndexRange>
    decreases s.len(),
{
    if s.len() == 0 {
        Seq::<QueueIndexRange>::empty()
    } else if range_restorable(s.last()) {
        kept_ranges(s.drop_last()).push(s.last())
    } else {
        kept_ranges(s.drop_last())
    }
}

/// What a restore keeps of some ranges is accepted by `QueueWithIntervals::restore`, and ranges
/// that it accepts as they are are kept whole.
pub proof fn lemma_kept_ranges(s: Seq<QueueIndexRange>)
    ensures
        restorable_ranges(kept_ranges(s)),
        restorable_ranges(s) ==> kept_ranges(s) == s,
    decreases s.len(),
{
    if s.len() > 0 {
        let p = s.drop_last();
        lemma_kept_ranges(p);
        let k = kept_ranges(s);
        assert forall|j: int| 0 <= j < k.len() implies #[trigger] range_restorable(k[j]) by {
            let kp = kept_ranges(p);
            if j < kp.len() {
                assert(k[j] == kp[j]);
                assert(kp[j].from_id <= kp[j].to_id ==> valid_message_id(kp[j].from_id as int));
            }
        }
        if restorable_ranges(s) {
            assert forall|j: int| 0 <= j < p.len() && #[trigger] p[j].from_id <= p[j].to_id implies valid_message_id(
                p[j].from_id as int,
            ) && valid_message_id(p[j].to_id as int) by {
                assert(s[j] == p[j]);
            }
            assert(s.last().from_id <= s.last().to_id ==> valid_message_id(s[s.len() - 1].from_id as int));
            assert(kept_ranges(p).push(s.last()) =~= s);
        }
    }
}

/// The ranges that a restore keeps: those that cannot hold message ids are left out.
pub fn restorable_part(ranges: Vec<QueueIndexRange>) -> (result: Vec<QueueIndexRange>)
    ensures
        result@ == kept_ranges(ranges@),
{
    let mut result: Vec<QueueIndexRange> = Vec::new();
    let mut i: usize = 0;
    while i < ranges.len()
        invariant
            0 <= i <= ranges@.len(),
            result@ == kept_ranges(ranges@.take(i as int)),
        decreases ranges@.len() - i,
    {
        let r = ranges[i];
        proof {
            assert(ranges@.take(i + 1).drop_last() =~= ranges@.take(i as int));
            assert(ranges@.take(i + 1).last() == r);
        }
        if r.from_id > r.to_id || (r.from_id >= 0 && r.to_id < i64::MAX) {
            result.push(r);
        }
        i = i + 1;
    }
    assert(ranges@.take(ranges@.len() as int) =~= ranges@);
    result
}

/// Some snapshot among `snapshots[from..to)` is of the queue with the given id.
pub open spec fn snapshot_among(snapshots: Seq<TopicQueueSnapshot>, from: int, to: int, queue_id: Seq<char>) -> bool {
    exists|k: int| from <= k < to && (#[trigger] snapshots[k]).queue_id@ == queue_id
}

/// `queue` is the queue of `topic_id` restored from `snapshot`: its ids, its kind, and no subscriber.
pub open spec fn restored_from(queue: TopicQueue, topic_id: Seq<char>, snapshot: TopicQueueSnapshot) -> bool {
    &&& queue.topic_id@ == topic_id
    &&& queue.queue_id@ == snapshot.queue_id@
    &&& queue.queue_type == snapshot.queue_type
    &&& queue.queue@ == snapshot_set(kept_ranges(snapshot.ranges@))
    &&& queue.subscribers.subscribers() == Seq::<QueueSubscriber>::empty()
}

/// Restores the queues of a topic from their snapshots, in order: each snapshot puts its queue in
/// place of the queue with the same id, so the last snapshot of an id decides that queue; a range
/// that cannot hold message ids is left out. The queues no snapshot names stay as they were.
pub fn restore_topic_queues(queues: &mut TopicQueuesList, topic_id: &String, snapshots: Vec<TopicQueueSnapshot>)
    requires
        old(queues).wf(),
    ensures
        final(queues).wf(),
        forall|k: int| 0 <= k < snapshots@.len() ==> final(queues).contains_queue(#[trigger] snapshots@[k].queue_id@),
        forall|k: int|
            0 <= k < snapshots@.len() && !snapshot_among(snapshots@, k + 1, snapshots@.len() as int, snapshots@[k].queue_id@)
                ==> restored_from(queue_in(*final(queues), #[trigger] snapshots@[k].queue_id@), topic_id@, snapshots@[k]),
        forall|id: Seq<char>|
            !snapshot_among(snapshots@, 0, snapshots@.len() as int, id) ==> (#[trigger] final(queues).contains_queue(id)
                == old(queues).contains_queue(id)),
        forall|j: int|
            0 <= j < old(queues).queues().len() && !snapshot_among(
                snapshots@,
                0,
                snapshots@.len() as int,
                old(queues).queues()[j].queue_id@,
            ) ==> queue_in(*final(queues), #[trigger] old(queues).queues()[j].queue_id@) == old(queues).queues()[j],
{
    let ghost s = snapshots@;
    let ghost initial = *queues;
    for snapshot in it: snapshots.into_iter()
        invariant
            it.seq() == s,
            initial == *old(queues),
            queues.wf(),
            forall|k: int| 0 <= k < it.index() ==> queues.contains_queue(#[trigger] s[k].queue_id@),
            forall|k: int|
                0 <= k < it.index() && !snapshot_among(s, k + 1, it.index() as int, s[k].queue_id@) ==> restored_from(
                    queue_in(*queues, #[trigger] s[k].queue_id@),
                    topic_id@,
                    s[k],
                ),
            forall|id: Seq<char>|
                !snapshot_among(s, 0, it.index() as int, id) ==> (#[trigger] queues.contains_queue(id) == initial.contains_queue(id)),
            forall|j: int|
                0 <= j < initial.queues().len() && !snapshot_among(s, 0, it.index() as int, initial.queues()[j].queue_id@)
                    ==> queue_in(*queues, #[trigger] initial.queues()[j].queue_id@) == initial.queues()[j],
    {
        let ghost i = it.index();
        let ghost before = *queues;
        let ghost current = snapshot;
        assert(current == s[i as int]);
        let ranges = restorable_part(snapshot.ranges);
        proof {
            lemma_kept_ranges(current.ranges@);
        }
        let queue = QueueWithIntervals::restore(ranges);
        queues.restore(topic_id.clone(), snapshot.queue_id, snapshot.queue_type, queue);
        proof {
            let id = current.queue_id@;
            let after = *queues;
            assert forall|k: int| 0 <= k < i + 1 implies after.contains_queue(#[trigger] s[k].queue_id@) by {
                if k < i && s[k].queue_id@ != id {
                    assert(before.contains_queue(s[k].queue_id@));
                }
            }
            assert forall|k: int|
                0 <= k < i + 1 && !snapshot_among(s, k + 1, i + 1, s[k].queue_id@) implies restored_from(
                queue_in(after, #[trigger] s[k].queue_id@),
                topic_id@,
                s[k],
            ) by {
                if k < i {
                    assert(s[k].queue_id@ != id);
                    assert(!snapshot_among(s, k + 1, i as int, s[k].queue_id@));
                    let w = index_of_queue(before.queues(), s[k].queue_id@);
                    assert(before.contains_queue(s[k].queue_id@));
                    assert(0 <= w < before.queues().len() && before.queues()[w].queue_id@ == s[k].queue_id@);
                    assert(queue_in(after, before.queues()[w].queue_id@) == before.queues()[w]);
                }
            }
            assert forall|x: Seq<char>| !snapshot_among(s, 0, i + 1, x) implies (#[trigger] after.contains_queue(x)
                == initial.contains_queue(x)) by {
                assert(!snapshot_among(s, 0, i as int, x));
                assert(x != id);
            }
            assert forall|j: int|
                0 <= j < initial.queues().len() && !snapshot_among(s, 0, i + 1, initial.queues()[j].queue_id@) implies queue_in(
                after,
                #[trigger] initial.queues()[j].queue_id@,
            ) == initial.queues()[j] by {
                let x = initial.queues()[j].queue_id@;
                assert(!snapshot_among(s, 0, i as int, x));
                assert(x != id);
                assert(before.contains_queue(x));
                let w = index_of_queue(before.queues(), x);
                assert(0 <= w < before.queues().len() && before.queues()[w].queue_id@ == x);
                assert(queue_in(after, before.queues()[w].queue_id@) == before.queues()[w]);
            }
        }
    }
}

/// What is persisted of a topic: its id, the id of its last message and its queues.
pub struct TopicSnapshot {
    pub topic_id: String,
    pub message_id: MessageId,
    pub queues: Vec<TopicQueueSnapshot>,
}

/// Some snapshot among `snapshots[from..to)` is of the topic with the given id.
pub open spec fn topic_snapshot_among(snapshots: Seq<TopicSnapshot>, from: int, to: int, topic_id: Seq<char>) -> bool {
    exists|k: int| from <= k < to && (#[trigger] snapshots[k]).topic_id@ == topic_id
}

/// `t` is the topic restored from `snapshot`: its id, its last message id, no page yet, and the
/// queues of the snapshot, each restored from its last snapshot.
pub open spec fn topic_restored_from(t: Topic, snapshot: TopicSnapshot) -> bool {
    let qs = snapshot.queues@;
    &&& t.topic_id@ == snapshot.topic_id@
    &&& t.message_id == snapshot.message_id
    &&& t.pages.pages@ == Seq::<crate::messages_page::MessagesPage>::empty()
    &&& forall|k: int| 0 <= k < qs.len() ==> t.queues.contains_queue(#[trigger] qs[k].queue_id@)
    &&& forall|k: int|
        0 <= k < qs.len() && !snapshot_among(qs, k + 1, qs.len() as int, qs[k].queue_id@) ==> restored_from(
            queue_in(t.queues, #[trigger] qs[k].queue_id@),
            snapshot.topic_id@,
            qs[k],
        )
    &&& forall|id: Seq<char>| !snapshot_among(qs, 0, qs.len() as int, id) ==> !(#[trigger] t.queues.contains_queue(id))
}

/// Restores the topics from their snapshots, in order: each snapshot puts a topic restored from it in
/// place of the topic with the same id, so the last snapshot of an id decides that topic. The
/// topics no snapshot names stay as they were.
pub fn restore_topics(topics: &mut TopicsList, snapshots: Vec<TopicSnapshot>)
    requires
        old(topics).wf(),
    ensures
        final(topics).wf(),
        forall|k: int| 0 <= k < snapshots@.len() ==> final(topics).contains_topic(#[trigger] snapshots@[k].topic_id@),
        forall|k: int|
            0 <= k < snapshots@.len() && !topic_snapshot_among(snapshots@, k + 1, snapshots@.len() as int, snapshots@[k].topic_id@)
                ==> topic_restored_from(final(topics).topic(#[trigger] snapshots@[k].topic_id@), snapshots@[k]),
        forall|id: Seq<char>|
            !topic_snapshot_among(snapshots@, 0, snapshots@.len() as int, id) ==> (#[trigger] final(topics).contains_topic(id)
                == old(topics).contains_topic(id)),
        forall|id: Seq<char>|
            !topic_snapshot_among(snapshots@, 0, snapshots@.len() as int, id) && old(topics).contains_topic(id)
                ==> #[trigger] final(topics).topic(id) == old(topics).topic(id),
{
    let ghost s = snapshots@;
    let ghost initial = *topics;
    for snapshot in it: snapshots.into_iter()
        invariant
            it.seq() == s,
            initial == *old(topics),
            topics.wf(),
            forall|k: int| 0 <= k < it.index() ==> topics.contains_topic(#[trigger] s[k].topic_id@),
            forall|k: int|
                0 <= k < it.index() && !topic_snapshot_among(s, k + 1, it.index() as int, s[k].topic_id@) ==> topic_restored_from(
                    topics.topic(#[trigger] s[k].topic_id@),
                    s[k],
                ),
            forall|id: Seq<char>|
                !topic_snapshot_among(s, 0, it.index() as int, id) ==> (#[trigger] topics.contains_topic(id) == initial.contains_topic(id)),
            forall|id: Seq<char>|
                !topic_snapshot_among(s, 0, it.index() as int, id) && initial.contains_topic(id) ==> #[trigger] topics.topic(id)
                    == initial.topic(id),
    {
        let ghost i = it.index();
        let ghost before = *topics;
        let ghost current = snapshot;
        assert(current == s[i as int]);
        let TopicSnapshot { topic_id, message_id, queues } = snapshot;
        let topic_key = topic_id.clone();
        let topic = topics.restore(topic_id, message_id);
        restore_topic_queues(&mut topic.queues, &topic_key, queues);
        proof {
            let t1 = *topic;
            let id = current.topic_id@;
            let qs = current.queues@;
            if !before.contains_topic(id) {
                assert(topics.topics() =~= before.topics().push(t1));
            }
            lemma_topic_put(before, *topics, id, t1);
            assert forall|x: Seq<char>| !snapshot_among(qs, 0, qs.len() as int, x) implies !(#[trigger] t1.queues.contains_queue(x)) by {
                if t1.queues.contains_queue(x) {
                    let w = choose|w: int| 0 <= w < t1.queues.queues().len() && (#[trigger] t1.queues.queues()[w]).queue_id@ == x;
                }
            }
            assert(topic_restored_from(t1, current));
            let after = *topics;
            assert forall|k: int| 0 <= k < i + 1 implies after.contains_topic(#[trigger] s[k].topic_id@) by {
                if k < i && s[k].topic_id@ != id {
                    assert(before.contains_topic(s[k].topic_id@));
                }
            }
            assert forall|k: int|
                0 <= k < i + 1 && !topic_snapshot_among(s, k + 1, i + 1, s[k].topic_id@) implies topic_restored_from(
                after.topic(#[trigger] s[k].topic_id@),
                s[k],
            ) by {
                if k < i {
                    assert(s[k].topic_id@ != id);
                    assert(!topic_snapshot_among(s, k + 1, i as int, s[k].topic_id@));
                    assert(before.contains_topic(s[k].topic_id@));
                }
            }
            assert forall|x: Seq<char>| !topic_snapshot_among(s, 0, i + 1, x) implies (#[trigger] after.contains_topic(x)
                == initial.contains_topic(x)) by {
                assert(!topic_snapshot_among(s, 0, i as int, x));
                assert(x != id);
            }
            assert forall|x: Seq<char>| !topic_snapshot_among(s, 0, i + 1, x) && initial.contains_topic(x) implies #[trigger] after.topic(x)
                == initial.topic(x) by {
                assert(!topic_snapshot_among(s, 0, i as int, x));
                assert(x != id);
                assert(before.contains_topic(x));
            }
        }
    }
}

/// Every queue that `persisted_queues` keeps is a queue of `s`.
proof fn lemma_persisted_from(s: Seq<TopicQueue>)
    ensures
        forall|k: int|
            0 <= k < persisted_queues(s).len() ==> exists|j: int|
                0 <= j < s.len() && (#[trigger] s[j]) == (#[trigger] persisted_queues(s)[k]),
    decreases s.len(),
{
    if s.len() > 0 {
        let p = s.drop_last();
        lemma_persisted_from(p);
        let e = persisted_queues(s);
        let ep = persisted_queues(p);
        assert forall|k: int| 0 <= k < e.len() implies exists|j: int| 0 <= j < s.len() && (#[trigger] s[j]) == (#[trigger] e[k]) by {
            if k < ep.len() {
                assert(e[k] == ep[k]);
                let j = choose|j: int| 0 <= j < p.len() && (#[trigger] p[j]) == ep[k];
                assert(s[j] == p[j]);
            } else {
                assert(s[s.len() - 1] == e[k]);
            }
        }
    }
}

/// Every queue of `s` that is not deleted on disconnect is kept by `persisted_queues`.
proof fn lemma_persisted_all(s: Seq<TopicQueue>)
    ensures
        forall|j: int|
            0 <= j < s.len() && (#[trigger] s[j]).queue_type != TopicQueueType::DeleteOnDisconnect ==> exists|k: int|
                0 <= k < persisted_queues(s).len() && #[trigger] persisted_queues(s)[k] == s[j],
    decreases s.len(),
{
    if s.len() > 0 {
        let p = s.drop_last();
        lemma_persisted_all(p);
        let e = persisted_queues(s);
        let ep = persisted_queues(p);
        assert forall|j: int| 0 <= j < s.len() && (#[trigger] s[j]).queue_type != TopicQueueType::DeleteOnDisconnect implies exists|k: int|
            0 <= k < e.len() && #[trigger] e[k] == s[j] by {
            if j < p.len() {
                assert(p[j] == s[j]);
                let k = choose|k: int| 0 <= k < ep.len() && #[trigger] ep[k] == p[j];
                assert(e[k] == ep[k]);
            } else {
                assert(e[ep.len() as int] == s[j]);
            }
        }
    }
}

/// With distinct queue ids, `persisted_queues` keeps queues with distinct ids.
proof fn lemma_persisted_distinct(s: Seq<TopicQueue>)
    requires
        forall|a: int, b: int| #![trigger s[a], s[b]] 0 <= a < b < s.len() ==> s[a].queue_id@ != s[b].queue_id@,
    ensures
        forall|k1: int, k2: int|
            #![trigger persisted_queues(s)[k1], persisted_queues(s)[k2]]
            0 <= k1 < k2 < persisted_queues(s).len() ==> persisted_queues(s)[k1].queue_id@ != persisted_queues(s)[k2].queue_id@,
    decreases s.len(),
{
    if s.len() > 0 {
        let p = s.drop_last();
        lemma_persisted_distinct(p);
        lemma_persisted_from(p);
        let e = persisted_queues(s);
        let ep = persisted_queues(p);
        assert forall|k1: int, k2: int|
            #![trigger e[k1], e[k2]]
            0 <= k1 < k2 < e.len() implies e[k1].queue_id@ != e[k2].queue_id@ by {
            if k2 < ep.len() {
                assert(e[k1] == ep[k1] && e[k2] == ep[k2]);
            } else {
                assert(e[k1] == ep[k1]);
                let j = choose|j: int| 0 <= j < p.len() && (#[trigger] p[j]) == ep[k1];
                assert(s[j] == p[j]);
                assert(s[j].queue_id@ != s[s.len() - 1].queue_id@);
            }
        }
    }
}

/// Restoring the snapshots that a list of queues persists gives back each of its persisted
/// queues, with the same ids and the same kind; the snapshots are accepted by the restore.
pub proof fn lemma_persisted_queues_restore(
    initial: Seq<TopicQueue>,
    snapshots: Seq<TopicQueueSnapshot>,
    restored: TopicQueuesList,
    topic_id: Seq<char>,
)
    requires
        forall|a: int, b: int| #![trigger initial[a], initial[b]] 0 <= a < b < initial.len() ==> initial[a].queue_id@ != initial[b].queue_id@,
        forall|j: int| 0 <= j < initial.len() ==> ranges_wf(#[trigger] initial[j].queue.ranges()),
        forall|j: int| 0 <= j < initial.len() ==> (#[trigger] initial[j]).queue@ == ranges_set(initial[j].queue.ranges()),
        snapshots.len() == persisted_queues(initial).len(),
        forall|k: int| 0 <= k < snapshots.len() ==> snapshot_of(#[trigger] snapshots[k], persisted_queues(initial)[k]),
        forall|k: int|
            0 <= k < snapshots.len() && !snapshot_among(snapshots, k + 1, snapshots.len() as int, snapshots[k].queue_id@)
                ==> restored_from(queue_in(restored, #[trigger] snapshots[k].queue_id@), topic_id, snapshots[k]),
    ensures
        forall|k: int| 0 <= k < snapshots.len() ==> restorable_ranges(#[trigger] snapshots[k].ranges@),
        forall|j: int|
            0 <= j < initial.len() && (#[trigger] initial[j]).queue_type != TopicQueueType::DeleteOnDisconnect ==> {
                let q = queue_in(restored, initial[j].queue_id@);
                &&& q.queue_id@ == initial[j].queue_id@
                &&& q.queue_type == initial[j].queue_type
                &&& q.queue@ == initial[j].queue@
            },
{
    lemma_persisted_from(initial);
    lemma_persisted_all(initial);
    lemma_persisted_distinct(initial);
    let e = persisted_queues(initial);
    assert forall|k: int| 0 <= k < snapshots.len() implies restorable_ranges(#[trigger] snapshots[k].ranges@) by {
        let j = choose|j: int| 0 <= j < initial.len() && (#[trigger] initial[j]) == e[k];
        lemma_snapshot_restores(initial[j].queue.ranges(), initial[j].queue@);
    }
    assert forall|j: int| 0 <= j < initial.len() && (#[trigger] initial[j]).queue_type != TopicQueueType::DeleteOnDisconnect implies {
        let q = queue_in(restored, initial[j].queue_id@);
        &&& q.queue_id@ == initial[j].queue_id@
        &&& q.queue_type == initial[j].queue_type
        &&& q.queue@ == initial[j].queue@
    } by {
        let k = choose|k: int| 0 <= k < e.len() && #[trigger] e[k] == initial[j];
        assert(snapshot_of(snapshots[k], e[k]));
        assert(!snapshot_among(snapshots, k + 1, snapshots.len() as int, snapshots[k].queue_id@)) by {
            if snapshot_among(snapshots, k + 1, snapshots.len() as int, snapshots[k].queue_id@) {
                let k2 = choose|k2: int| k + 1 <= k2 < snapshots.len() && (#[trigger] snapshots[k2]).queue_id@ == snapshots[k].queue_id@;
                assert(snapshot_of(snapshots[k2], e[k2]));
                assert(e[k].queue_id@ != e[k2].queue_id@);
            }
        }
        lemma_snapshot_restores(initial[j].queue.ranges(), initial[j].queue@);
        lemma_kept_ranges(snapshots[k].ranges@);
    }
}

} // verus!
