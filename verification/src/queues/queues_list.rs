//! The queues of a topic, each under its own id.
use vstd::prelude::*;

use crate::queue_subscribers::queue_subscriber::QueueSubscriber;
use crate::queue_subscribers::subscriber_metrics::ConnectionId;
use crate::queue_subscribers::subscribers_list::{index_of_id, index_of_session, list_ticked};
use crate::messages_page::MessagesPagesCache;
use crate::operations::delivery::{delivery_round, try_to_deliver, DeliveryOutcome};
use crate::queue_with_intervals::QueueWithIntervals;
use crate::queues::queue::{TopicQueue, TopicQueueSnapshot};
use crate::queues::queue_type::TopicQueueType;

verus! {

pub struct TopicQueuesList {
    queues: Vec<TopicQueue>,
    snapshot_id: usize,
}

/// The position of the queue with the given id, -1 when there is none.
pub open spec fn index_of_queue(s: Seq<TopicQueue>, queue_id: Seq<char>) -> int {
    if exists|i: int| 0 <= i < s.len() && (#[trigger] s[i]).queue_id@ == queue_id {
        choose|i: int| 0 <= i < s.len() && (#[trigger] s[i]).queue_id@ == queue_id
    } else {
        -1
    }
}

impl TopicQueuesList {
    /// The queues, in the order they were added.
    pub closed spec fn queues(&self) -> Seq<TopicQueue> {
        self.queues@
    }

    pub closed spec fn spec_snapshot_id(&self) -> usize {
        self.snapshot_id
    }

    pub open spec fn contains_queue(&self, queue_id: Seq<char>) -> bool {
        exists|i: int| 0 <= i < self.queues().len() && (#[trigger] self.queues()[i]).queue_id@ == queue_id
    }

    /// Every queue is well formed and no two share an id.
    pub open spec fn wf(&self) -> bool {
        &&& forall|i: int| 0 <= i < self.queues().len() ==> (#[trigger] self.queues()[i]).wf()
        &&& forall|i: int, j: int|
            #![trigger self.queues()[i], self.queues()[j]]
            0 <= i < j < self.queues().len() ==> self.queues()[i].queue_id@ != self.queues()[j].queue_id@
    }

    pub fn new() -> (result: Self)
        ensures
            result.wf(),
            result.queues() == Seq::<TopicQueue>::empty(),
            result.spec_snapshot_id() == 0,
    {
        TopicQueuesList { queues: Vec::new(), snapshot_id: 0 }
    }

    /// Counts the changes of the set of queues.
    pub fn get_snapshot_id(&self) -> (result: usize)
        ensures
            result == self.spec_snapshot_id(),
    {
        self.snapshot_id
    }

    fn find_index(&self, queue_id: &String) -> (result: Option<usize>)
        requires
            self.wf(),
        ensures
            match result {
                None => !self.contains_queue(queue_id@),
                Some(i) => i == index_of_queue(self.queues(), queue_id@) && 0 <= i < self.queues().len()
                    && self.queues()[i as int].queue_id@ == queue_id@,
            },
    {
        let ghost s = self.queues@;
        let mut i: usize = 0;
        while i < self.queues.len() && self.queues[i].queue_id != *queue_id
            invariant
                s == self.queues@,
                0 <= i <= s.len(),
                forall|j: int| 0 <= j < i ==> (#[trigger] s[j]).queue_id@ != queue_id@,
            decreases s.len() - i,
        {
            i = i + 1;
        }
        if i < self.queues.len() {
            proof {
                let k = index_of_queue(s, queue_id@);
                assert(0 <= k < s.len() && s[k].queue_id@ == queue_id@);
                if k != i {
                    if k < i {
                        assert(s[k].queue_id@ != s[i as int].queue_id@);
                    } else {
                        assert(s[i as int].queue_id@ != s[k].queue_id@);
                    }
                }
            }
            Some(i)
        } else {
            None
        }
    }

    /// The queue with the given id, created when it does not exist; its type becomes `queue_type`.
    pub fn add_queue_if_not_exists(&mut self, topic_id: String, queue_id: String, queue_type: TopicQueueType) -> (result: &mut TopicQueue)
        requires
            old(self).wf(),
        ensures
            !old(self).contains_queue(queue_id@) ==> {
                &&& final(self).spec_snapshot_id() == old(self).spec_snapshot_id().wrapping_add(1)
                &&& final(self).queues().len() == old(self).queues().len() + 1
                &&& final(self).queues().drop_last() == old(self).queues()
                &&& final(self).queues().last() == *final(result)
                &&& result.topic_id@ == topic_id@
                &&& result.queue@ == Set::<int>::empty()
                &&& result.subscribers.subscribers() == Seq::<QueueSubscriber>::empty()
                &&& result.subscribers.is_single() == (queue_type == TopicQueueType::PermanentWithSingleConnection)
                &&& result.delivery_attempts@ == Map::<i64, i32>::empty()
            },
            old(self).contains_queue(queue_id@) ==> {
                let i = index_of_queue(old(self).queues(), queue_id@);
                let q = old(self).queues()[i];
                &&& final(self).spec_snapshot_id() == old(self).spec_snapshot_id()
                &&& final(self).queues() == old(self).queues().update(i, *final(result))
                &&& result.topic_id == q.topic_id
                &&& result.queue@ == q.queue@
                &&& result.subscribers == q.subscribers
                &&& result.delivery_attempts@ == q.delivery_attempts@
            },
            result.queue_id@ == queue_id@,
            result.queue_type == queue_type,
            result.wf(),
    {
        let found = self.find_index(&queue_id);
        let i = match found {
            Some(i) => i,
            None => {
                let ghost s = self.queues@;
                let queue = TopicQueue::new(topic_id, queue_id, queue_type);
                self.queues.push(queue);
                self.snapshot_id = self.snapshot_id.wrapping_add(1);
                proof {
                    assert(self.queues@.drop_last() =~= s);
                }
                self.queues.len() - 1
            },
        };
        let ghost s = self.queues@;
        proof {
            assert(s[i as int].queue_id@ == queue_id@);
            assert(s[i as int].wf());
        }
        let result = &mut self.queues[i];
        result.update_queue_type(queue_type);
        result
    }

    /// Puts a restored queue under its id, replacing a queue with the same id.
    pub fn restore(&mut self, topic_id: String, queue_id: String, queue_type: TopicQueueType, queue: QueueWithIntervals) -> (result: &TopicQueue)
        requires
            old(self).wf(),
        ensures
            final(self).wf(),
            final(self).spec_snapshot_id() == old(self).spec_snapshot_id().wrapping_add(1),
            final(self).contains_queue(queue_id@),
            forall|id: Seq<char>| id != queue_id@ ==> (#[trigger] final(self).contains_queue(id) == old(self).contains_queue(id)),
            result.queue_id@ == queue_id@,
            result.topic_id@ == topic_id@,
            result.queue@ == queue@,
            result.queue_type == queue_type,
            result.subscribers.subscribers() == Seq::<QueueSubscriber>::empty(),
            *result == final(self).queues()[index_of_queue(final(self).queues(), queue_id@)],
            forall|j: int|
                0 <= j < old(self).queues().len() && old(self).queues()[j].queue_id@ != queue_id@ ==> final(self).queues()[index_of_queue(
                    final(self).queues(),
                    #[trigger] old(self).queues()[j].queue_id@,
                )] == old(self).queues()[j],
    {
        let found = self.find_index(&queue_id);
        let topic_queue = TopicQueue::restore(topic_id, queue_id, queue_type, queue);
        self.snapshot_id = self.snapshot_id.wrapping_add(1);
        let ghost s = self.queues@;
        let i = match found {
            Some(i) => {
                self.queues.set(i, topic_queue);
                proof {
                    assert forall|a: int, b: int|
                        #![trigger self.queues@[a], self.queues@[b]]
                        0 <= a < b < self.queues@.len() implies self.queues@[a].queue_id@ != self.queues@[b].queue_id@ by {
                        assert(s[a].queue_id@ != s[b].queue_id@);
                    }
                    assert forall|id: Seq<char>| id != self.queues@[i as int].queue_id@ implies (#[trigger] self.contains_queue(id)
                        == old(self).contains_queue(id)) by {
                        if old(self).contains_queue(id) {
                            let w = choose|w: int| 0 <= w < s.len() && (#[trigger] s[w]).queue_id@ == id;
                            assert(self.queues@[w] == s[w]);
                        }
                        if self.contains_queue(id) {
                            let w = choose|w: int| 0 <= w < s.len() && (#[trigger] self.queues@[w]).queue_id@ == id;
                            assert(self.queues@[w] == s[w]);
                        }
                    }
                }
                i
            },
            None => {
                self.queues.push(topic_queue);
                proof {
                    assert forall|id: Seq<char>| id != self.queues@.last().queue_id@ implies (#[trigger] self.contains_queue(id)
                        == old(self).contains_queue(id)) by {
                        if old(self).contains_queue(id) {
                            let w = choose|w: int| 0 <= w < s.len() && (#[trigger] s[w]).queue_id@ == id;
                            assert(self.queues@[w] == s[w]);
                        }
                        if self.contains_queue(id) {
                            let w = choose|w: int| 0 <= w < self.queues@.len() && (#[trigger] self.queues@[w]).queue_id@ == id;
                            assert(w < s.len());
                            assert(self.queues@[w] == s[w]);
                        }
                    }
                }
                self.queues.len() - 1
            },
        };
        proof {
            let t = self.queues@;
            assert forall|j: int|
                0 <= j < s.len() && s[j].queue_id@ != queue_id@ implies t[index_of_queue(
                    t,
                    #[trigger] s[j].queue_id@,
                )] == s[j] by {
                assert(t[j] == s[j]);
                let k = index_of_queue(t, s[j].queue_id@);
                assert(0 <= k < t.len() && t[k].queue_id@ == s[j].queue_id@);
                if k != j {
                    if k < j {
                        assert(t[k].queue_id@ != t[j].queue_id@);
                    } else {
                        assert(t[j].queue_id@ != t[k].queue_id@);
                    }
                }
            }
            assert(t[i as int].queue_id@ == queue_id@);
            let k = index_of_queue(t, queue_id@);
            assert(0 <= k < t.len() && t[k].queue_id@ == queue_id@);
            if k != i {
                if k < i {
                    assert(t[k].queue_id@ != t[i as int].queue_id@);
                } else {
                    assert(t[i as int].queue_id@ != t[k].queue_id@);
                }
            }
        }
        &self.queues[i]
    }

    /// Runs a delivery round of each queue in turn, reading the pages of `pages`, with packages of at
    /// most `max_delivery_size` bytes; stops after the first round that waits for a page to be
    /// loaded. The outcome of the round of the queue at position `k` is the result's item `k`.
    pub fn deliver_to_queues(&mut self, pages: &MessagesPagesCache, max_delivery_size: usize) -> (result: Vec<DeliveryOutcome>)
        requires
            old(self).wf(),
        ensures
            final(self).wf(),
            final(self).spec_snapshot_id() == old(self).spec_snapshot_id(),
            final(self).queues().len() == old(self).queues().len(),
            result@.len() <= old(self).queues().len(),
            forall|k: int| 0 <= k < result@.len() ==> delivery_round(
                #[trigger] old(self).queues()[k],
                final(self).queues()[k],
                *pages,
                max_delivery_size as int,
                result@[k],
            ),
            forall|k: int| result@.len() <= k < old(self).queues().len() ==> #[trigger] final(self).queues()[k] == old(self).queues()[k],
            forall|k: int| 0 <= k < result@.len() - 1 ==> (#[trigger] result@[k]).load_page is None,
            result@.len() < old(self).queues().len() ==> result@.len() > 0 && result@.last().load_page is Some,
    {
        let mut result: Vec<DeliveryOutcome> = Vec::new();
        let mut i: usize = 0;
        while i < self.queues.len()
            invariant_except_break
                result@.len() == i,
                forall|k: int| 0 <= k < result@.len() ==> (#[trigger] result@[k]).load_page is None,
            invariant
                0 <= i <= self.queues@.len(),
                self.queues@.len() == old(self).queues@.len(),
                self.snapshot_id == old(self).snapshot_id,
                self.wf(),
                result@.len() <= self.queues@.len(),
                forall|k: int| 0 <= k < result@.len() ==> delivery_round(
                    #[trigger] old(self).queues@[k],
                    self.queues@[k],
                    *pages,
                    max_delivery_size as int,
                    result@[k],
                ),
                forall|k: int| result@.len() <= k < self.queues@.len() ==> #[trigger] self.queues@[k] == old(self).queues@[k],
                forall|k: int| 0 <= k < result@.len() - 1 ==> (#[trigger] result@[k]).load_page is None,
            ensures
                result@.len() < self.queues@.len() ==> result@.len() > 0 && result@.last().load_page is Some,
            decreases self.queues@.len() - i,
        {
            let ghost before = self.queues@;
            proof {
                assert(before[i as int].wf());
            }
            let outcome = try_to_deliver(&mut self.queues[i], pages, max_delivery_size);
            proof {
                let after = self.queues@;
                assert(after == before.update(i as int, after[i as int]));
                assert forall|a: int, b: int|
                    #![trigger after[a], after[b]]
                    0 <= a < b < after.len() implies after[a].queue_id@ != after[b].queue_id@ by {
                    assert(before[a].queue_id@ != before[b].queue_id@);
                }
                assert forall|a: int| 0 <= a < after.len() implies (#[trigger] after[a]).wf() by {
                    if a != i {
                        assert(before[a].wf());
                    }
                }
            }
            let stop = outcome.load_page.is_some();
            result.push(outcome);
            i = i + 1;
            if stop {
                break;
            }
        }
        result
    }

    pub fn get(&self, queue_id: &str) -> (result: Option<&TopicQueue>)
        requires
            self.wf(),
        ensures
            match result {
                None => !self.contains_queue(queue_id@),
                Some(q) => self.contains_queue(queue_id@) && *q == self.queues()[index_of_queue(
                    self.queues(),
                    queue_id@,
                )],
            },
    {
        let key = queue_id.to_owned();
        match self.find_index(&key) {
            Some(i) => Some(&self.queues[i]),
            None => None,
        }
    }

    pub fn get_mut(&mut self, queue_id: &str) -> (result: Option<&mut TopicQueue>)
        requires
            old(self).wf(),
        ensures
            match result {
                None => !old(self).contains_queue(queue_id@) && *final(self) == *old(self),
                Some(q) => {
                    let i = index_of_queue(old(self).queues(), queue_id@);
                    &&& old(self).contains_queue(queue_id@)
                    &&& *q == old(self).queues()[i]
                    &&& final(self).queues() == old(self).queues().update(i, *final(q))
                    &&& final(self).spec_snapshot_id() == old(self).spec_snapshot_id()
                },
            },
    {
        let key = queue_id.to_owned();
        match self.find_index(&key) {
            Some(i) => Some(&mut self.queues[i]),
            None => None,
        }
    }

    /// Removes the queue with the given id, if any; counts a new snapshot either way.
    pub fn delete_queue(&mut self, queue_id: &str) -> (result: Option<TopicQueue>)
        requires
            old(self).wf(),
        ensures
            final(self).wf(),
            final(self).spec_snapshot_id() == old(self).spec_snapshot_id().wrapping_add(1),
            !final(self).contains_queue(queue_id@),
            forall|id: Seq<char>| id != queue_id@ ==> (#[trigger] final(self).contains_queue(id) == old(self).contains_queue(id)),
            forall|i: int| 0 <= i < final(self).queues().len() ==> old(self).queues().contains(#[trigger] final(self).queues()[i]),
            match result {
                None => !old(self).contains_queue(queue_id@) && final(self).queues() == old(self).queues(),
                Some(q) => {
                    let i = index_of_queue(old(self).queues(), queue_id@);
                    &&& old(self).contains_queue(queue_id@)
                    &&& q == old(self).queues()[i]
                    &&& final(self).queues() == old(self).queues().remove(i)
                },
            },
    {
        let key = queue_id.to_owned();
        let found = self.find_index(&key);
        self.snapshot_id = self.snapshot_id.wrapping_add(1);
        let ghost s = self.queues@;
        match found {
            None => None,
            Some(i) => {
                let result = self.queues.remove(i);
                proof {
                    let t = self.queues@;
                    assert forall|a: int, b: int|
                        #![trigger t[a], t[b]]
                        0 <= a < b < t.len() implies t[a].queue_id@ != t[b].queue_id@ by {
                        let a2 = if a < i { a } else { a + 1 };
                        let b2 = if b < i { b } else { b + 1 };
                        assert(t[a] == s[a2] && t[b] == s[b2]);
                        assert(s[a2].queue_id@ != s[b2].queue_id@);
                    }
                    assert forall|a: int| 0 <= a < t.len() implies (#[trigger] t[a]).wf() by {
                        let a2 = if a < i { a } else { a + 1 };
                        assert(t[a] == s[a2]);
                    }
                    assert forall|id: Seq<char>| id != queue_id@ implies (#[trigger] self.contains_queue(id) == old(self).contains_queue(id)) by {
                        if old(self).contains_queue(id) {
                            let w = choose|w: int| 0 <= w < s.len() && (#[trigger] s[w]).queue_id@ == id;
                            assert(w != i);
                            let w2 = if w < i { w } else { w - 1 };
                            assert(t[w2] == s[w]);
                        }
                        if self.contains_queue(id) {
                            let w = choose|w: int| 0 <= w < t.len() && (#[trigger] t[w]).queue_id@ == id;
                            let w2 = if w < i { w } else { w + 1 };
                            assert(t[w] == s[w2]);
                        }
                    }
                    assert forall|a: int| 0 <= a < t.len() implies s.contains(#[trigger] t[a]) by {
                        let a2 = if a < i { a } else { a + 1 };
                        assert(t[a] == s[a2]);
                    }
                    if self.contains_queue(queue_id@) {
                        let w = choose|w: int| 0 <= w < t.len() && (#[trigger] t[w]).queue_id@ == queue_id@;
                        let w2 = if w < i { w } else { w + 1 };
                        assert(t[w] == s[w2]);
                        if w2 < i {
                            assert(s[w2].queue_id@ != s[i as int].queue_id@);
                        } else {
                            assert(s[i as int].queue_id@ != s[w2].queue_id@);
                        }
                    }
                }
                Some(result)
            },
        }
    }

    pub fn remove(&mut self, queue_id: &str) -> (result: Option<TopicQueue>)
        requires
            old(self).wf(),
        ensures
            final(self).wf(),
            final(self).spec_snapshot_id() == old(self).spec_snapshot_id().wrapping_add(1),
            !final(self).contains_queue(queue_id@),
            forall|id: Seq<char>| id != queue_id@ ==> (#[trigger] final(self).contains_queue(id) == old(self).contains_queue(id)),
            forall|i: int| 0 <= i < final(self).queues().len() ==> old(self).queues().contains(#[trigger] final(self).queues()[i]),
            match result {
                None => !old(self).contains_queue(queue_id@) && final(self).queues() == old(self).queues(),
                Some(q) => {
                    let i = index_of_queue(old(self).queues(), queue_id@);
                    &&& old(self).contains_queue(queue_id@)
                    &&& q == old(self).queues()[i]
                    &&& final(self).queues() == old(self).queues().remove(i)
                },
            },
    {
        self.delete_queue(queue_id)
    }

    /// Every queue, in the order they were added.
    pub fn get_all(&self) -> (result: Vec<&TopicQueue>)
        ensures
            result@.len() == self.queues().len(),
            forall|i: int| 0 <= i < result@.len() ==> *result@[i] == #[trigger] self.queues()[i],
    {
        let mut result: Vec<&TopicQueue> = Vec::new();
        let mut i: usize = 0;
        while i < self.queues.len()
            invariant
                0 <= i <= self.queues@.len(),
                result@.len() == i,
                forall|j: int| 0 <= j < i ==> *result@[j] == #[trigger] self.queues@[j],
            decreases self.queues@.len() - i,
        {
            result.push(&self.queues[i]);
            i = i + 1;
        }
        result
    }

    /// Every queue, in the order they were added.
    pub fn get_queues(&self) -> (result: Vec<&TopicQueue>)
        ensures
            result@.len() == self.queues().len(),
            forall|i: int| 0 <= i < result@.len() ==> *result@[i] == #[trigger] self.queues()[i],
    {
        self.get_all()
    }

    /// The snapshots of the queues that are persisted, in queue order.
    pub fn get_snapshot_to_persist(&self) -> (result: Vec<TopicQueueSnapshot>)
        ensures
            result@.len() == persisted_queues(self.queues()).len(),
            forall|k: int| 0 <= k < result@.len() ==> snapshot_of(#[trigger] result@[k], persisted_queues(self.queues())[k]),
    {
        let mut result: Vec<TopicQueueSnapshot> = Vec::new();
        let ghost s = self.queues@;
        let mut i: usize = 0;
        while i < self.queues.len()
            invariant
                s == self.queues@,
                0 <= i <= s.len(),
                result@.len() == persisted_queues(s.take(i as int)).len(),
                forall|k: int| 0 <= k < result@.len() ==> snapshot_of(#[trigger] result@[k], persisted_queues(s.take(i as int))[k]),
            decreases s.len() - i,
        {
            let snapshot = self.queues[i].get_snapshot_to_persist();
            proof {
                assert(s.take(i + 1).drop_last() =~= s.take(i as int));
                assert(s.take(i + 1).last() == s[i as int]);
            }
            if let Some(snapshot_to_persist) = snapshot {
                result.push(snapshot_to_persist);
            }
            i = i + 1;
        }
        proof {
            assert(s.take(s.len() as int) =~= s);
        }
        result
    }

    /// The queues without subscribers, `None` when every queue has one.
    pub fn get_queues_with_no_subscribers(&self) -> (result: Option<Vec<&TopicQueue>>)
        ensures
            match result {
                None => forall|i: int| 0 <= i < self.queues().len() ==> (#[trigger] self.queues()[i]).subscribers.subscribers().len() > 0,
                Some(v) => v@.len() > 0 && forall|i: int| 0 <= i < v@.len() ==> {
                    &&& (#[trigger] v@[i]).subscribers.subscribers().len() == 0
                    &&& self.queues().contains(*v@[i])
                },
            },
    {
        let mut result: Vec<&TopicQueue> = Vec::new();
        let mut i: usize = 0;
        while i < self.queues.len()
            invariant
                0 <= i <= self.queues@.len(),
                forall|j: int| 0 <= j < result@.len() ==> {
                    &&& (#[trigger] result@[j]).subscribers.subscribers().len() == 0
                    &&& self.queues@.contains(*result@[j])
                },
                result@.len() == 0 ==> forall|j: int| 0 <= j < i ==> (#[trigger] self.queues@[j]).subscribers.subscribers().len() > 0,
            decreases self.queues@.len() - i,
        {
            let queue = &self.queues[i];
            if queue.subscribers.get_amount() == 0 {
                result.push(queue);
                proof {
                    assert(self.queues@[i as int] == *queue);
                }
            }
            i = i + 1;
        }
        if result.len() == 0 {
            None
        } else {
            Some(result)
        }
    }

    /// Closes the current second of the metrics of every subscriber of every queue.
    pub fn one_second_tick(&mut self)
        requires
            old(self).wf(),
        ensures
            final(self).wf(),
            final(self).spec_snapshot_id() == old(self).spec_snapshot_id(),
            final(self).queues().len() == old(self).queues().len(),
            forall|i: int| 0 <= i < old(self).queues().len() ==> {
                &&& (#[trigger] final(self).queues()[i]).queue_id@ == old(self).queues()[i].queue_id@
                &&& final(self).queues()[i].queue@ == old(self).queues()[i].queue@
                &&& final(self).queues()[i].delivery_attempts@ == old(self).queues()[i].delivery_attempts@
                &&& final(self).queues()[i].queue_type == old(self).queues()[i].queue_type
                &&& list_ticked(old(self).queues()[i].subscribers, final(self).queues()[i].subscribers)
            },
    {
        let mut queues: Vec<TopicQueue> = Vec::new();
        std::mem::swap(&mut queues, &mut self.queues);
        let ghost s = queues@;
        let mut i: usize = 0;
        while i < queues.len()
            invariant
                0 <= i <= queues@.len(),
                queues@.len() == s.len(),
                forall|j: int| i <= j < s.len() ==> #[trigger] queues@[j] == s[j],
                forall|j: int| 0 <= j < s.len() ==> (#[trigger] s[j]).wf(),
                forall|j: int| 0 <= j < i ==> {
                    &&& (#[trigger] queues@[j]).queue_id@ == s[j].queue_id@
                    &&& queues@[j].queue@ == s[j].queue@
                    &&& queues@[j].delivery_attempts@ == s[j].delivery_attempts@
                    &&& queues@[j].queue_type == s[j].queue_type
                    &&& queues@[j].wf()
                    &&& list_ticked(s[j].subscribers, queues@[j].subscribers)
                },
            decreases queues@.len() - i,
        {
            queues[i].one_second_tick();
            i = i + 1;
        }
        self.queues = queues;
        proof {
            let t = self.queues@;
            assert forall|a: int, b: int|
                #![trigger t[a], t[b]]
                0 <= a < b < t.len() implies t[a].queue_id@ != t[b].queue_id@ by {
                assert(s[a].queue_id@ != s[b].queue_id@);
            }
        }
    }

    /// Removes the subscribers of a session from every queue; gives each back with the id of its queue.
    pub fn remove_subscribers_by_session_id(&mut self, session_id: ConnectionId) -> (result: Option<Vec<(String, QueueSubscriber)>>)
        requires
            old(self).wf(),
        ensures
            final(self).wf(),
            final(self).spec_snapshot_id() == old(self).spec_snapshot_id(),
            final(self).queues().len() == old(self).queues().len(),
            forall|i: int| 0 <= i < old(self).queues().len() ==> {
                let a = #[trigger] old(self).queues()[i];
                let b = final(self).queues()[i];
                &&& b.queue_id@ == a.queue_id@
                &&& b.queue@ == a.queue@
                &&& b.delivery_attempts@ == a.delivery_attempts@
                &&& b.queue_type == a.queue_type
                &&& !b.subscribers.has_session(session_id)
            },
            match result {
                None => session_subscribers(old(self).queues(), session_id).len() == 0,
                Some(v) => v@.len() > 0 && removed_view(v@) == session_subscribers(old(self).queues(), session_id),
            },
    {
        let mut queues: Vec<TopicQueue> = Vec::new();
        std::mem::swap(&mut queues, &mut self.queues);
        let ghost s = queues@;
        let mut result: Vec<(String, QueueSubscriber)> = Vec::new();
        let mut i: usize = 0;
        while i < queues.len()
            invariant
                0 <= i <= queues@.len(),
                queues@.len() == s.len(),
                forall|j: int| i <= j < s.len() ==> #[trigger] queues@[j] == s[j],
                forall|j: int| 0 <= j < s.len() ==> (#[trigger] s[j]).wf(),
                forall|j: int| 0 <= j < i ==> {
                    &&& (#[trigger] queues@[j]).queue_id@ == s[j].queue_id@
                    &&& queues@[j].queue@ == s[j].queue@
                    &&& queues@[j].delivery_attempts@ == s[j].delivery_attempts@
                    &&& queues@[j].queue_type == s[j].queue_type
                    &&& queues@[j].wf()
                    &&& !queues@[j].subscribers.has_session(session_id)
                },
                removed_view(result@) == session_subscribers(s.take(i as int), session_id),
            decreases queues@.len() - i,
        {
            let ghost before = result@;
            proof {
                assert(s.take(i + 1).drop_last() =~= s.take(i as int));
                assert(s.take(i + 1).last() == s[i as int]);
            }
            let removed = queues[i].subscribers.remove_by_connection_id(session_id);
            if let Some(subscriber) = removed {
                let queue_id = queues[i].queue_id.clone();
                proof {
                    let subs = s[i as int].subscribers.subscribers();
                    let w = index_of_id(subs, subscriber.id);
                    let v = index_of_session(subs, session_id);
                    assert(subs[w].session_id == session_id);
                    assert(0 <= v < subs.len() && subs[v].session_id == session_id);
                    if v != w {
                        if v < w {
                            assert(subs[v].session_id != subs[w].session_id);
                        } else {
                            assert(subs[w].session_id != subs[v].session_id);
                        }
                    }
                }
                result.push((queue_id, subscriber));
                proof {
                    assert(s[i as int].queue_id@ == queues@[i as int].queue_id@);
                    assert(removed_view(result@) =~= removed_view(before).push((s[i as int].queue_id@, subscriber)));
                }
            }
            i = i + 1;
        }
        proof {
            assert(s.take(s.len() as int) =~= s);
        }
        self.queues = queues;
        proof {
            let t = self.queues@;
            assert forall|a: int, b: int|
                #![trigger t[a], t[b]]
                0 <= a < b < t.len() implies t[a].queue_id@ != t[b].queue_id@ by {
                assert(s[a].queue_id@ != s[b].queue_id@);
            }
        }
        if result.len() == 0 {
            None
        } else {
            Some(result)
        }
    }
}

/// The subscribers of the given session, with the id of their queue, queue by queue.
pub open spec fn session_subscribers(s: Seq<TopicQueue>, session_id: ConnectionId) -> Seq<(Seq<char>, QueueSubscriber)>
    decreases s.len(),
{
    if s.len() == 0 {
        Seq::empty()
    } else {
        let before = session_subscribers(s.drop_last(), session_id);
        let subscribers = s.last().subscribers.subscribers();
        if s.last().subscribers.has_session(session_id) {
            before.push((s.last().queue_id@, subscribers[index_of_session(subscribers, session_id)]))
        } else {
            before
        }
    }
}

/// The removed subscribers with their queue ids as sequences of characters.
pub open spec fn removed_view(v: Seq<(String, QueueSubscriber)>) -> Seq<(Seq<char>, QueueSubscriber)> {
    v.map_values(|e: (String, QueueSubscriber)| (e.0@, e.1))
}

/// The queues that are persisted, in order: all but those deleted on disconnect.
/// `after` holds `q` as its queue with the given id: in place of the queue with that id in
/// `before`, or after the others when there was none; the other queues are those of `before`.
pub open spec fn queue_put(before: Seq<TopicQueue>, after: TopicQueuesList, queue_id: Seq<char>, q: TopicQueue) -> bool {
    if exists|i: int| 0 <= i < before.len() && (#[trigger] before[i]).queue_id@ == queue_id {
        after.queues() == before.update(index_of_queue(before, queue_id), q)
    } else {
        after.queues() == before.push(q)
    }
}

/// Putting a well-formed queue with the given id into a well-formed list, as `queue_put` says,
/// gives a well-formed list that holds it under its id.
pub proof fn lemma_queue_put(before: TopicQueuesList, after: TopicQueuesList, queue_id: Seq<char>, q: TopicQueue)
    requires
        before.wf(),
        q.queue_id@ == queue_id,
        q.wf(),
        queue_put(before.queues(), after, queue_id, q),
    ensures
        after.wf(),
        after.contains_queue(queue_id),
        after.queues()[index_of_queue(after.queues(), queue_id)] == q,
{
    let s = before.queues();
    let u = after.queues();
    if before.contains_queue(queue_id) {
        let i = index_of_queue(s, queue_id);
        assert(0 <= i < s.len() && s[i].queue_id@ == queue_id);
        assert(u[i] == q);
        assert forall|a: int, b: int|
            #![trigger u[a], u[b]]
            0 <= a < b < u.len() implies u[a].queue_id@ != u[b].queue_id@ by {
            assert(s[a].queue_id@ != s[b].queue_id@);
        }
        assert forall|a: int| 0 <= a < u.len() implies (#[trigger] u[a]).wf() by {
            if a != i {
                assert(s[a].wf());
            }
        }
        let k = index_of_queue(u, queue_id);
        assert(0 <= k < u.len() && u[k].queue_id@ == queue_id);
        if k != i {
            if k < i {
                assert(u[k].queue_id@ != u[i].queue_id@);
            } else {
                assert(u[i].queue_id@ != u[k].queue_id@);
            }
        }
    } else {
        let n = s.len() as int;
        assert(u[n] == q);
        assert forall|a: int, b: int|
            #![trigger u[a], u[b]]
            0 <= a < b < u.len() implies u[a].queue_id@ != u[b].queue_id@ by {
            assert(u[a] == s[a]);
            if b < n {
                assert(u[b] == s[b]);
            } else {
                assert(!(s[a].queue_id@ == queue_id));
            }
        }
        assert forall|a: int| 0 <= a < u.len() implies (#[trigger] u[a]).wf() by {
            if a < n {
                assert(u[a] == s[a]);
            }
        }
        let k = index_of_queue(u, queue_id);
        assert(0 <= k < u.len() && u[k].queue_id@ == queue_id);
        if k < n {
            assert(u[k] == s[k]);
        }
    }
}

pub open spec fn persisted_queues(s: Seq<TopicQueue>) -> Seq<TopicQueue>
    decreases s.len(),
{
    if s.len() == 0 {
        Seq::empty()
    } else if s.last().queue_type == TopicQueueType::DeleteOnDisconnect {
        persisted_queues(s.drop_last())
    } else {
        persisted_queues(s.drop_last()).push(s.last())
    }
}

/// `snapshot` is what `queue` persists.
pub open spec fn snapshot_of(snapshot: TopicQueueSnapshot, queue: TopicQueue) -> bool {
    &&& snapshot.queue_id@ == queue.queue_id@
    &&& snapshot.queue_type == queue.queue_type
    &&& snapshot.ranges@ == queue.queue.ranges()
}

} // verus!
