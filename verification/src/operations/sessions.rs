//! What a session that disconnects leaves behind in the queues of a topic.
use vstd::prelude::*;

use crate::operations::subscriber::handle_subscriber_remove;
use crate::queue_subscribers::queue_subscriber::QueueSubscriber;
use crate::queue_subscribers::subscriber_metrics::ConnectionId;
use crate::queue_subscribers::subscribers_list::index_of_session;
use crate::queues::queue::{attempts_after_failure, TopicQueue};
use crate::queues::queues_list::{index_of_queue, removed_view, session_subscribers, TopicQueuesList};

verus! {

/// The subscriber of the given session in a queue.
pub open spec fn session_subscriber(queue: TopicQueue, session_id: ConnectionId) -> QueueSubscriber {
    let s = queue.subscribers.subscribers();
    s[index_of_session(s, session_id)]
}

/// The ids that the subscriber of the given session has on delivery in a queue, when it has some.
pub open spec fn session_ids_on_delivery(queue: TopicQueue, session_id: ConnectionId) -> Option<Set<int>> {
    if queue.subscribers.has_session(session_id) {
        session_subscriber(queue, session_id).ids_on_delivery()
    } else {
        None
    }
}

/// `after` is `before` once the subscriber of the session is gone and its messages on delivery
/// are back in the queue, each counted as a failed attempt.
pub open spec fn left_by_session(before: TopicQueue, after: TopicQueue, session_id: ConnectionId) -> bool {
    &&& after.queue_id@ == before.queue_id@
    &&& after.queue_type == before.queue_type
    &&& !after.subscribers.has_session(session_id)
    &&& match session_ids_on_delivery(before, session_id) {
        Some(ids) => {
            &&& after.queue@ == before.queue@ + ids
            &&& after.delivery_attempts@ == attempts_after_failure(before.delivery_attempts@, ids)
        },
        None => {
            &&& after.queue@ == before.queue@
            &&& after.delivery_attempts@ == before.delivery_attempts@
        },
    }
}

/// Every entry of `session_subscribers` is the subscriber of the session in a queue that has it,
/// and each such queue has an entry.
proof fn lemma_session_entries(s: Seq<TopicQueue>, session_id: ConnectionId)
    ensures
        forall|k: int|
            0 <= k < session_subscribers(s, session_id).len() ==> exists|j: int|
                0 <= j < s.len() && (#[trigger] s[j]).queue_id@ == (#[trigger] session_subscribers(s, session_id)[k]).0
                    && s[j].subscribers.has_session(session_id) && session_subscribers(s, session_id)[k].1
                    == session_subscriber(s[j], session_id),
        forall|j: int|
            0 <= j < s.len() && (#[trigger] s[j]).subscribers.has_session(session_id) ==> exists|k: int|
                0 <= k < session_subscribers(s, session_id).len() && (#[trigger] session_subscribers(s, session_id)[k]).0
                    == s[j].queue_id@,
    decreases s.len(),
{
    if s.len() > 0 {
        let p = s.drop_last();
        lemma_session_entries(p, session_id);
        let e = session_subscribers(s, session_id);
        let ep = session_subscribers(p, session_id);
        assert forall|k: int| 0 <= k < e.len() implies exists|j: int|
            0 <= j < s.len() && (#[trigger] s[j]).queue_id@ == (#[trigger] e[k]).0 && s[j].subscribers.has_session(session_id)
                && e[k].1 == session_subscriber(s[j], session_id) by {
            if k < ep.len() {
                assert(e[k] == ep[k]);
                let j = choose|j: int|
                    0 <= j < p.len() && (#[trigger] p[j]).queue_id@ == ep[k].0 && p[j].subscribers.has_session(session_id)
                        && ep[k].1 == session_subscriber(p[j], session_id);
                assert(s[j] == p[j]);
            } else {
                assert(s[s.len() - 1] == s.last());
            }
        }
        assert forall|j: int| 0 <= j < s.len() && (#[trigger] s[j]).subscribers.has_session(session_id) implies exists|k: int|
            0 <= k < e.len() && (#[trigger] e[k]).0 == s[j].queue_id@ by {
            if j < p.len() {
                assert(p[j] == s[j]);
                let k = choose|k: int| 0 <= k < ep.len() && (#[trigger] ep[k]).0 == p[j].queue_id@;
                assert(e[k] == ep[k]);
            } else {
                assert(e[ep.len() as int].0 == s[j].queue_id@);
            }
        }
    }
}

/// With distinct queue ids, the entries of `session_subscribers` name distinct queues.
proof fn lemma_session_entries_distinct(s: Seq<TopicQueue>, session_id: ConnectionId)
    requires
        forall|a: int, b: int| #![trigger s[a], s[b]] 0 <= a < b < s.len() ==> s[a].queue_id@ != s[b].queue_id@,
    ensures
        forall|k1: int, k2: int|
            #![trigger session_subscribers(s, session_id)[k1], session_subscribers(s, session_id)[k2]]
            0 <= k1 < k2 < session_subscribers(s, session_id).len() ==> session_subscribers(s, session_id)[k1].0
                != session_subscribers(s, session_id)[k2].0,
    decreases s.len(),
{
    if s.len() > 0 {
        let p = s.drop_last();
        lemma_session_entries_distinct(p, session_id);
        lemma_session_entries(p, session_id);
        let e = session_subscribers(s, session_id);
        let ep = session_subscribers(p, session_id);
        assert forall|k1: int, k2: int|
            #![trigger e[k1], e[k2]]
            0 <= k1 < k2 < e.len() implies e[k1].0 != e[k2].0 by {
            if k2 < ep.len() {
                assert(e[k1] == ep[k1] && e[k2] == ep[k2]);
            } else {
                assert(e[k1] == ep[k1]);
                let j = choose|j: int|
                    0 <= j < p.len() && (#[trigger] p[j]).queue_id@ == ep[k1].0 && p[j].subscribers.has_session(session_id)
                        && ep[k1].1 == session_subscriber(p[j], session_id);
                assert(s[j] == p[j]);
                assert(s[j].queue_id@ != s[s.len() - 1].queue_id@);
            }
        }
    }
}

/// Removes the subscribers of a session that disconnected from every queue; their messages on
/// delivery go back to their queues, each counted as a failed attempt.
pub fn handle_after_disconnect(queues: &mut TopicQueuesList, session_id: ConnectionId)
    requires
        old(queues).wf(),
    ensures
        final(queues).wf(),
        final(queues).queues().len() == old(queues).queues().len(),
        forall|j: int|
            0 <= j < old(queues).queues().len() ==> left_by_session(
                #[trigger] old(queues).queues()[j],
                final(queues).queues()[j],
                session_id,
            ),
{
    let ghost s = queues.queues();
    let removed = queues.remove_subscribers_by_session_id(session_id);
    let removed = match removed {
        Some(removed) => removed,
        None => {
            proof {
                lemma_session_entries(s, session_id);
                assert forall|j: int| 0 <= j < s.len() implies left_by_session(#[trigger] s[j], queues.queues()[j], session_id) by {
                    if s[j].subscribers.has_session(session_id) {
                        let k = choose|k: int|
                            0 <= k < session_subscribers(s, session_id).len() && (#[trigger] session_subscribers(s, session_id)[k]).0
                                == s[j].queue_id@;
                    }
                }
            }
            return;
        },
    };
    let ghost entries = removed_view(removed@);
    let ghost mid = *queues;
    proof {
        lemma_session_entries(s, session_id);
        lemma_session_entries_distinct(s, session_id);
    }
    let ghost v = removed@;
    for entry in it: removed.into_iter()
        invariant
            it.seq() == v,
            entries == removed_view(v),
            entries == session_subscribers(s, session_id),
            mid.queues().len() == s.len(),
            queues.wf(),
            queues.queues().len() == s.len(),
            forall|a: int, b: int| #![trigger s[a], s[b]] 0 <= a < b < s.len() ==> s[a].queue_id@ != s[b].queue_id@,
            forall|k: int|
                0 <= k < entries.len() ==> exists|j: int|
                    0 <= j < s.len() && (#[trigger] s[j]).queue_id@ == (#[trigger] entries[k]).0 && s[j].subscribers.has_session(
                        session_id,
                    ) && entries[k].1 == session_subscriber(s[j], session_id),
            forall|k1: int, k2: int|
                #![trigger entries[k1], entries[k2]]
                0 <= k1 < k2 < entries.len() ==> entries[k1].0 != entries[k2].0,
            forall|j: int|
                0 <= j < s.len() ==> {
                    &&& (#[trigger] queues.queues()[j]).queue_id@ == s[j].queue_id@
                    &&& queues.queues()[j].queue_type == s[j].queue_type
                    &&& !queues.queues()[j].subscribers.has_session(session_id)
                    &&& if exists|k: int| 0 <= k < it.index() && (#[trigger] entries[k]).0 == s[j].queue_id@ {
                        left_by_session(s[j], queues.queues()[j], session_id)
                    } else {
                        &&& queues.queues()[j].queue@ == s[j].queue@
                        &&& queues.queues()[j].delivery_attempts@ == s[j].delivery_attempts@
                    }
                },
    {
        let ghost k = it.index();
        let ghost before = *queues;
        let (queue_id, subscriber) = entry;
        proof {
            assert(entries[k] == (v[k].0@, v[k].1));
        }
        let ghost j0 = choose|j: int|
            0 <= j < s.len() && (#[trigger] s[j]).queue_id@ == entries[k].0 && s[j].subscribers.has_session(session_id)
                && entries[k].1 == session_subscriber(s[j], session_id);
        proof {
            assert(before.queues()[j0].queue_id@ == queue_id@);
            assert(before.contains_queue(queue_id@));
            let w = index_of_queue(before.queues(), queue_id@);
            if w != j0 {
                if w < j0 {
                    assert(before.queues()[w].queue_id@ != before.queues()[j0].queue_id@);
                } else {
                    assert(before.queues()[j0].queue_id@ != before.queues()[w].queue_id@);
                }
            }
        }
        match queues.get_mut(queue_id.as_str()) {
            Some(queue) => {
                handle_subscriber_remove(queue, subscriber);
            },
            None => {},
        }
        proof {
            let t = queues.queues();
            assert(t == before.queues().update(j0, t[j0]));
            assert forall|a: int, b: int|
                #![trigger t[a], t[b]]
                0 <= a < b < t.len() implies t[a].queue_id@ != t[b].queue_id@ by {
                assert(before.queues()[a].queue_id@ != before.queues()[b].queue_id@);
            }
            assert forall|a: int| 0 <= a < t.len() implies (#[trigger] t[a]).wf() by {
                assert(before.queues()[a].wf());
            }
            assert forall|j: int| 0 <= j < s.len() implies {
                &&& (#[trigger] t[j]).queue_id@ == s[j].queue_id@
                &&& t[j].queue_type == s[j].queue_type
                &&& !t[j].subscribers.has_session(session_id)
                &&& if exists|k2: int| 0 <= k2 < k + 1 && (#[trigger] entries[k2]).0 == s[j].queue_id@ {
                    left_by_session(s[j], t[j], session_id)
                } else {
                    &&& t[j].queue@ == s[j].queue@
                    &&& t[j].delivery_attempts@ == s[j].delivery_attempts@
                }
            } by {
                if j == j0 {
                    assert(!exists|k2: int| 0 <= k2 < k && (#[trigger] entries[k2]).0 == s[j].queue_id@) by {
                        if exists|k2: int| 0 <= k2 < k && (#[trigger] entries[k2]).0 == s[j].queue_id@ {
                            let k2 = choose|k2: int| 0 <= k2 < k && (#[trigger] entries[k2]).0 == s[j].queue_id@;
                            assert(entries[k2].0 != entries[k].0);
                        }
                    }
                    assert(entries[k].0 == s[j].queue_id@);
                } else {
                    assert(t[j] == before.queues()[j]);
                    if exists|k2: int| 0 <= k2 < k + 1 && (#[trigger] entries[k2]).0 == s[j].queue_id@ {
                        let k2 = choose|k2: int| 0 <= k2 < k + 1 && (#[trigger] entries[k2]).0 == s[j].queue_id@;
                        if k2 == k {
                            assert(s[j].queue_id@ != s[j0].queue_id@);
                        }
                        assert(exists|k3: int| 0 <= k3 < k && (#[trigger] entries[k3]).0 == s[j].queue_id@);
                    }
                }
            }
        }
    }
    proof {
        let t = queues.queues();
        assert forall|j: int| 0 <= j < s.len() implies left_by_session(#[trigger] s[j], t[j], session_id) by {
            if s[j].subscribers.has_session(session_id) {
                let k = choose|k: int| 0 <= k < entries.len() && (#[trigger] entries[k]).0 == s[j].queue_id@;
            }
        }
    }
}

} // verus!
