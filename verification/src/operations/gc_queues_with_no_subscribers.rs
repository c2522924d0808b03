//! Removal of the queues that are deleted once nobody listens to them.
use vstd::prelude::*;

use crate::date_time::{positive_or_zero_micros, DateTimeAsMicroseconds};
use crate::queues::queue::TopicQueue;
use crate::queues::queue_type::TopicQueueType;
use crate::queues::queues_list::TopicQueuesList;

verus! {

/// A queue is collected when it is deleted on disconnect, has no subscriber, and its
/// last subscriber left more than `timeout_micros` before `now`.
pub open spec fn is_collected(queue: TopicQueue, timeout_micros: i64, now: DateTimeAsMicroseconds) -> bool {
    &&& queue.queue_type == TopicQueueType::DeleteOnDisconnect
    &&& queue.subscribers.subscribers().len() == 0
    &&& positive_or_zero_micros(
        now.unix_microseconds as int,
        queue.subscribers.last_unsubscribe.unix_microseconds as int,
    ) > timeout_micros
}

/// The ids of the queues among `s[0..n)` that are collected.
pub open spec fn collected_ids(s: Seq<TopicQueue>, n: int, timeout_micros: i64, now: DateTimeAsMicroseconds) -> Set<Seq<char>> {
    Set::new(|id: Seq<char>| exists|j: int| 0 <= j < n && (#[trigger] s[j]).queue_id@ == id && is_collected(s[j], timeout_micros, now))
}

/// The contents of a list of strings.
pub open spec fn names(v: Seq<String>) -> Set<Seq<char>> {
    Set::new(|id: Seq<char>| exists|k: int| 0 <= k < v.len() && (#[trigger] v[k])@ == id)
}

/// `after` keeps exactly the queues of `before` that are not collected as of `now`.
pub open spec fn collected_as_of(before: TopicQueuesList, after: TopicQueuesList, timeout_micros: i64, now: DateTimeAsMicroseconds) -> bool {
    forall|i: int| 0 <= i < before.queues().len() ==> (#[trigger] after.contains_queue(before.queues()[i].queue_id@)
        == !is_collected(before.queues()[i], timeout_micros, now))
}

/// What a collection as of `now` does to each queue of the list: a queue is removed exactly when it
/// is deleted on disconnect, has no subscriber, and its last subscriber left more than
/// `timeout_micros` before `now`; every other queue (a permanent one, one with a subscriber, one left
/// recently) stays.
pub proof fn lemma_collection_removes_only_idle_delete_on_disconnect_queues(
    before: TopicQueuesList,
    after: TopicQueuesList,
    timeout_micros: i64,
    now: DateTimeAsMicroseconds,
)
    requires
        collected_as_of(before, after, timeout_micros, now),
    ensures
        forall|i: int|
            0 <= i < before.queues().len() && (#[trigger] before.queues()[i]).queue_type != TopicQueueType::DeleteOnDisconnect
                ==> after.contains_queue(before.queues()[i].queue_id@),
        forall|i: int|
            0 <= i < before.queues().len() && (#[trigger] before.queues()[i]).subscribers.subscribers().len() > 0
                ==> after.contains_queue(before.queues()[i].queue_id@),
        forall|i: int|
            0 <= i < before.queues().len() && positive_or_zero_micros(
                now.unix_microseconds as int,
                (#[trigger] before.queues()[i]).subscribers.last_unsubscribe.unix_microseconds as int,
            ) <= timeout_micros ==> after.contains_queue(before.queues()[i].queue_id@),
        forall|i: int|
            0 <= i < before.queues().len() && (#[trigger] before.queues()[i]).queue_type == TopicQueueType::DeleteOnDisconnect
                && before.queues()[i].subscribers.subscribers().len() == 0 && positive_or_zero_micros(
                now.unix_microseconds as int,
                before.queues()[i].subscribers.last_unsubscribe.unix_microseconds as int,
            ) > timeout_micros ==> !after.contains_queue(before.queues()[i].queue_id@),
{
    assert forall|i: int| 0 <= i < before.queues().len() implies (#[trigger] after.contains_queue(
        before.queues()[i].queue_id@,
    ) == !is_collected(before.queues()[i], timeout_micros, now)) by {}
}

/// Removes, as of `now`, every queue that `is_collected`; the other queues stay.
pub fn gc_queues_with_no_subscribers_at(queues: &mut TopicQueuesList, empty_queue_gc_timeout_micros: i64, now: DateTimeAsMicroseconds)
    requires
        old(queues).wf(),
    ensures
        final(queues).wf(),
        collected_as_of(*old(queues), *final(queues), empty_queue_gc_timeout_micros, now),
        forall|i: int|
            0 <= i < old(queues).queues().len() && (#[trigger] old(queues).queues()[i]).queue_type
                != TopicQueueType::DeleteOnDisconnect ==> final(queues).contains_queue(old(queues).queues()[i].queue_id@),
        forall|i: int|
            0 <= i < old(queues).queues().len() && (#[trigger] old(queues).queues()[i]).subscribers.subscribers().len() > 0
                ==> final(queues).contains_queue(old(queues).queues()[i].queue_id@),
        forall|i: int|
            0 <= i < old(queues).queues().len() && positive_or_zero_micros(
                now.unix_microseconds as int,
                (#[trigger] old(queues).queues()[i]).subscribers.last_unsubscribe.unix_microseconds as int,
            ) <= empty_queue_gc_timeout_micros ==> final(queues).contains_queue(old(queues).queues()[i].queue_id@),
        forall|i: int|
            0 <= i < old(queues).queues().len() && (#[trigger] old(queues).queues()[i]).queue_type
                == TopicQueueType::DeleteOnDisconnect && old(queues).queues()[i].subscribers.subscribers().len() == 0
                && positive_or_zero_micros(
                now.unix_microseconds as int,
                old(queues).queues()[i].subscribers.last_unsubscribe.unix_microseconds as int,
            ) > empty_queue_gc_timeout_micros ==> !final(queues).contains_queue(old(queues).queues()[i].queue_id@),
        forall|i: int| 0 <= i < final(queues).queues().len() ==> old(queues).queues().contains(#[trigger] final(queues).queues()[i]),
{
    let mut queues_to_delete: Vec<String> = Vec::new();
    let ghost s = queues.queues();
    {
        let all = queues.get_all();
        let mut i: usize = 0;
        while i < all.len()
            invariant
                all@.len() == s.len(),
                forall|j: int| 0 <= j < all@.len() ==> *all@[j] == #[trigger] s[j],
                0 <= i <= s.len(),
                names(queues_to_delete@) == collected_ids(s, i as int, empty_queue_gc_timeout_micros, now),
            decreases s.len() - i,
        {
            let topic_queue = all[i];
            let ghost before = queues_to_delete@;
            let mut collected = false;
            if topic_queue.subscribers.get_amount() == 0 {
                if let TopicQueueType::DeleteOnDisconnect = topic_queue.queue_type {
                    if now.duration_since_as_positive_or_zero(topic_queue.subscribers.last_unsubscribe) > empty_queue_gc_timeout_micros {
                        queues_to_delete.push(topic_queue.queue_id.clone());
                        collected = true;
                    }
                }
            }
            proof {
                assert(collected == is_collected(s[i as int], empty_queue_gc_timeout_micros, now));
                assert forall|id: Seq<char>| #[trigger] names(queues_to_delete@).contains(id) == collected_ids(s, i + 1, empty_queue_gc_timeout_micros, now).contains(id) by {
                    if names(queues_to_delete@).contains(id) {
                        let k = choose|k: int| 0 <= k < queues_to_delete@.len() && (#[trigger] queues_to_delete@[k])@ == id;
                        if k < before.len() {
                            assert(before[k] == queues_to_delete@[k]);
                            assert(names(before).contains(id));
                        } else {
                            assert(s[i as int].queue_id@ == id);
                        }
                    }
                    if collected_ids(s, i + 1, empty_queue_gc_timeout_micros, now).contains(id) {
                        let j = choose|j: int| 0 <= j < i + 1 && (#[trigger] s[j]).queue_id@ == id && is_collected(s[j], empty_queue_gc_timeout_micros, now);
                        if j < i {
                            assert(collected_ids(s, i as int, empty_queue_gc_timeout_micros, now).contains(id));
                            let k = choose|k: int| 0 <= k < before.len() && (#[trigger] before[k])@ == id;
                            assert(queues_to_delete@[k] == before[k]);
                        } else {
                            assert(queues_to_delete@[queues_to_delete@.len() - 1]@ == id);
                        }
                    }
                }
                assert(names(queues_to_delete@) =~= collected_ids(s, i + 1, empty_queue_gc_timeout_micros, now));
            }
            i = i + 1;
        }
    }
    let ghost doomed = names(queues_to_delete@);
    let mut k: usize = 0;
    while k < queues_to_delete.len()
        invariant
            queues.wf(),
            0 <= k <= queues_to_delete@.len(),
            doomed == names(queues_to_delete@),
            forall|id: Seq<char>| #[trigger] queues.contains_queue(id) == (old(queues).contains_queue(id)
                && !names(queues_to_delete@.take(k as int)).contains(id)),
            forall|i: int| 0 <= i < queues.queues().len() ==> s.contains(#[trigger] queues.queues()[i]),
            s == old(queues).queues(),
        decreases queues_to_delete@.len() - k,
    {
        let ghost before = queues_to_delete@.take(k as int);
        let ghost name = queues_to_delete@[k as int]@;
        queues.remove(queues_to_delete[k].as_str());
        proof {
            let after = queues_to_delete@.take(k + 1);
            assert forall|id: Seq<char>| #[trigger] names(after).contains(id) == (names(before).contains(id) || id == name) by {
                if names(after).contains(id) {
                    let w = choose|w: int| 0 <= w < after.len() && (#[trigger] after[w])@ == id;
                    if w < k {
                        assert(before[w] == after[w]);
                    }
                }
                if names(before).contains(id) {
                    let w = choose|w: int| 0 <= w < before.len() && (#[trigger] before[w])@ == id;
                    assert(after[w] == before[w]);
                }
                if id == name {
                    assert(after[k as int]@ == id);
                }
            }
        }
        k = k + 1;
    }
    proof {
        assert(queues_to_delete@.take(queues_to_delete@.len() as int) =~= queues_to_delete@);
        assert forall|i: int| 0 <= i < s.len() implies (#[trigger] queues.contains_queue(s[i].queue_id@)
            == !is_collected(s[i], empty_queue_gc_timeout_micros, now)) by {
            assert(old(queues).contains_queue(s[i].queue_id@));
            if doomed.contains(s[i].queue_id@) {
                let j = choose|j: int| 0 <= j < s.len() && (#[trigger] s[j]).queue_id@ == s[i].queue_id@ && is_collected(s[j], empty_queue_gc_timeout_micros, now);
                if j != i {
                    if j < i {
                        assert(s[j].queue_id@ != s[i].queue_id@);
                    } else {
                        assert(s[i].queue_id@ != s[j].queue_id@);
                    }
                }
            } else {
                assert(!collected_ids(s, s.len() as int, empty_queue_gc_timeout_micros, now).contains(s[i].queue_id@));
            }
        }
        lemma_collection_removes_only_idle_delete_on_disconnect_queues(*old(queues), *queues, empty_queue_gc_timeout_micros, now);
    }
}

/// `gc_queues_with_no_subscribers_at` the current time.
pub fn gc_queues_with_no_subscribers(queues: &mut TopicQueuesList, empty_queue_gc_timeout_micros: i64)
    requires
        old(queues).wf(),
    ensures
        final(queues).wf(),
        forall|i: int| 0 <= i < final(queues).queues().len() ==> old(queues).queues().contains(#[trigger] final(queues).queues()[i]),
        forall|i: int|
            0 <= i < old(queues).queues().len() && (#[trigger] old(queues).queues()[i]).queue_type
                != TopicQueueType::DeleteOnDisconnect ==> final(queues).contains_queue(old(queues).queues()[i].queue_id@),
        forall|i: int|
            0 <= i < old(queues).queues().len() && (#[trigger] old(queues).queues()[i]).subscribers.subscribers().len() > 0
                ==> final(queues).contains_queue(old(queues).queues()[i].queue_id@),
        exists|now: DateTimeAsMicroseconds|
            now.unix_microseconds >= 0 && #[trigger] collected_as_of(*old(queues), *final(queues), empty_queue_gc_timeout_micros, now),
{
    gc_queues_with_no_subscribers_at(queues, empty_queue_gc_timeout_micros, DateTimeAsMicroseconds::now());
}

} // verus!
