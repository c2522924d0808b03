//! Topics: each holds the last message id published to it, its queues and its cache of pages.
use vstd::prelude::*;

use crate::messages_page::{MessagesPage, MessagesPagesCache};
use crate::queue_with_intervals::MessageId;
use crate::queues::queue::TopicQueue;
use crate::queues::queues_list::TopicQueuesList;

verus! {

pub struct Topic {
    pub topic_id: String,
    /// The id of the last message published to the topic.
    pub message_id: MessageId,
    pub queues: TopicQueuesList,
    pub pages: MessagesPagesCache,
}

impl Topic {
    /// A topic with no queue and no page in the cache.
    pub fn new(topic_id: String, message_id: MessageId) -> (result: Self)
        ensures
            result.topic_id == topic_id,
            result.message_id == message_id,
            result.queues.wf(),
            result.queues.queues() == Seq::<TopicQueue>::empty(),
            result.pages.pages@ == Seq::<MessagesPage>::empty(),
    {
        Topic { topic_id, message_id, queues: TopicQueuesList::new(), pages: MessagesPagesCache::new() }
    }

    /// A topic that is just like `self` but for its queues.
    pub open spec fn same_but_queues(&self, other: Topic) -> bool {
        &&& other.topic_id == self.topic_id
        &&& other.message_id == self.message_id
        &&& other.pages == self.pages
    }
}

/// The position of the topic with the given id, -1 when there is none.
pub open spec fn index_of_topic(s: Seq<Topic>, topic_id: Seq<char>) -> int {
    if exists|i: int| 0 <= i < s.len() && (#[trigger] s[i]).topic_id@ == topic_id {
        choose|i: int| 0 <= i < s.len() && (#[trigger] s[i]).topic_id@ == topic_id
    } else {
        -1
    }
}

/// The topics of the bus, each under its own id.
pub struct TopicsList {
    topics: Vec<Topic>,
}

impl TopicsList {
    /// The topics, in the order they were added.
    pub closed spec fn topics(&self) -> Seq<Topic> {
        self.topics@
    }

    pub open spec fn contains_topic(&self, topic_id: Seq<char>) -> bool {
        exists|i: int| 0 <= i < self.topics().len() && (#[trigger] self.topics()[i]).topic_id@ == topic_id
    }

    /// The topic with the given id.
    pub open spec fn topic(&self, topic_id: Seq<char>) -> Topic {
        self.topics()[index_of_topic(self.topics(), topic_id)]
    }

    /// The queues of every topic are well formed, and no two topics share an id.
    pub open spec fn wf(&self) -> bool {
        &&& forall|i: int| 0 <= i < self.topics().len() ==> (#[trigger] self.topics()[i]).queues.wf()
        &&& forall|i: int, j: int|
            #![trigger self.topics()[i], self.topics()[j]]
            0 <= i < j < self.topics().len() ==> self.topics()[i].topic_id@ != self.topics()[j].topic_id@
    }

    pub fn new() -> (result: Self)
        ensures
            result.wf(),
            result.topics() == Seq::<Topic>::empty(),
    {
        TopicsList { topics: Vec::new() }
    }

    fn find_index(&self, topic_id: &str) -> (result: Option<usize>)
        requires
            self.wf(),
        ensures
            match result {
                None => !self.contains_topic(topic_id@),
                Some(i) => i == index_of_topic(self.topics(), topic_id@) && 0 <= i < self.topics().len()
                    && self.topics()[i as int].topic_id@ == topic_id@,
            },
    {
        let ghost s = self.topics@;
        let key = topic_id.to_owned();
        let mut i: usize = 0;
        while i < self.topics.len() && self.topics[i].topic_id != key
            invariant
                s == self.topics@,
                key@ == topic_id@,
                0 <= i <= s.len(),
                forall|j: int| 0 <= j < i ==> (#[trigger] s[j]).topic_id@ != topic_id@,
            decreases s.len() - i,
        {
            i = i + 1;
        }
        if i < self.topics.len() {
            proof {
                let k = index_of_topic(s, topic_id@);
                assert(s[i as int].topic_id@ == topic_id@);
                assert(0 <= k < s.len() && s[k].topic_id@ == topic_id@);
                assert(self.topics()[i as int] == s[i as int] && self.topics()[k] == s[k]);
                if k != i {
                    if k < i {
                        assert(s[k].topic_id@ != s[i as int].topic_id@);
                    } else {
                        assert(s[i as int].topic_id@ != s[k].topic_id@);
                    }
                }
            }
            Some(i)
        } else {
            None
        }
    }

    /// The ids of the topics, in order.
    pub fn topic_ids(&self) -> (result: Vec<String>)
        ensures
            result@.len() == self.topics().len(),
            forall|i: int| 0 <= i < result@.len() ==> (#[trigger] result@[i])@ == self.topics()[i].topic_id@,
    {
        let mut result: Vec<String> = Vec::new();
        let mut i: usize = 0;
        while i < self.topics.len()
            invariant
                0 <= i <= self.topics@.len(),
                result@.len() == i,
                forall|j: int| 0 <= j < i ==> (#[trigger] result@[j])@ == self.topics@[j].topic_id@,
            decreases self.topics@.len() - i,
        {
            result.push(self.topics[i].topic_id.clone());
            i = i + 1;
        }
        result
    }

    /// The topic with the given id, if there is one.
    pub fn get(&self, topic_id: &str) -> (result: Option<&Topic>)
        requires
            self.wf(),
        ensures
            match result {
                None => !self.contains_topic(topic_id@),
                Some(t) => self.contains_topic(topic_id@) && *t == self.topic(topic_id@),
            },
    {
        match self.find_index(topic_id) {
            Some(i) => Some(&self.topics[i]),
            None => None,
        }
    }

    /// The topic with the given id, to change in place, if there is one.
    pub fn get_mut(&mut self, topic_id: &str) -> (result: Option<&mut Topic>)
        requires
            old(self).wf(),
        ensures
            match result {
                None => !old(self).contains_topic(topic_id@) && *final(self) == *old(self),
                Some(t) => {
                    let i = index_of_topic(old(self).topics(), topic_id@);
                    &&& old(self).contains_topic(topic_id@)
                    &&& *t == old(self).topics()[i]
                    &&& final(self).topics() == old(self).topics().update(i, *final(t))
                },
            },
    {
        match self.find_index(topic_id) {
            Some(i) => Some(&mut self.topics[i]),
            None => None,
        }
    }

    /// The topic with the given id, created with message id 0 when it does not exist.
    pub fn add_if_not_exists(&mut self, topic_id: &str) -> (result: &mut Topic)
        requires
            old(self).wf(),
        ensures
            !old(self).contains_topic(topic_id@) ==> {
                &&& final(self).topics().len() == old(self).topics().len() + 1
                &&& final(self).topics().drop_last() == old(self).topics()
                &&& final(self).topics().last() == *final(result)
                &&& result.topic_id@ == topic_id@
                &&& result.message_id == 0
                &&& result.queues.queues() == Seq::<TopicQueue>::empty()
                &&& result.pages.pages@ == Seq::<MessagesPage>::empty()
            },
            old(self).contains_topic(topic_id@) ==> {
                let i = index_of_topic(old(self).topics(), topic_id@);
                &&& *result == old(self).topics()[i]
                &&& final(self).topics() == old(self).topics().update(i, *final(result))
            },
            result.topic_id@ == topic_id@,
            result.queues.wf(),
    {
        let i = match self.find_index(topic_id) {
            Some(i) => i,
            None => {
                let ghost s = self.topics@;
                self.topics.push(Topic::new(topic_id.to_owned(), 0));
                proof {
                    assert(self.topics@.drop_last() =~= s);
                }
                self.topics.len() - 1
            },
        };
        proof {
            assert(self.topics@[i as int].queues.wf());
        }
        &mut self.topics[i]
    }

    /// Puts a topic restored with `message_id`, with no queue and no page yet, in place of the topic
    /// with the same id, or after the others when there is none.
    pub fn restore(&mut self, topic_id: String, message_id: MessageId) -> (result: &mut Topic)
        requires
            old(self).wf(),
        ensures
            !old(self).contains_topic(topic_id@) ==> {
                &&& final(self).topics().len() == old(self).topics().len() + 1
                &&& final(self).topics().drop_last() == old(self).topics()
                &&& final(self).topics().last() == *final(result)
            },
            old(self).contains_topic(topic_id@) ==> final(self).topics() == old(self).topics().update(
                index_of_topic(old(self).topics(), topic_id@),
                *final(result),
            ),
            result.topic_id == topic_id,
            result.message_id == message_id,
            result.queues.wf(),
            result.queues.queues() == Seq::<TopicQueue>::empty(),
            result.pages.pages@ == Seq::<MessagesPage>::empty(),
    {
        let found = self.find_index(topic_id.as_str());
        let topic = Topic::new(topic_id, message_id);
        let i = match found {
            Some(i) => {
                self.topics.set(i, topic);
                i
            },
            None => {
                let ghost s = self.topics@;
                self.topics.push(topic);
                proof {
                    assert(self.topics@.drop_last() =~= s);
                }
                self.topics.len() - 1
            },
        };
        &mut self.topics[i]
    }
}

/// `after` holds `t` as its topic with the given id: in place of the topic with that id in
/// `before`, or after the others when there was none; the other topics are those of `before`.
pub open spec fn topic_put(before: Seq<Topic>, after: TopicsList, topic_id: Seq<char>, t: Topic) -> bool {
    if exists|i: int| 0 <= i < before.len() && (#[trigger] before[i]).topic_id@ == topic_id {
        after.topics() == before.update(index_of_topic(before, topic_id), t)
    } else {
        after.topics() == before.push(t)
    }
}

/// Putting a topic with the given id and well-formed queues into a well-formed list, as `topic_put`
/// says, gives a well-formed list that holds it under its id.
pub proof fn lemma_topic_put(before: TopicsList, after: TopicsList, topic_id: Seq<char>, t: Topic)
    requires
        before.wf(),
        t.topic_id@ == topic_id,
        t.queues.wf(),
        topic_put(before.topics(), after, topic_id, t),
    ensures
        after.wf(),
        after.contains_topic(topic_id),
        after.topic(topic_id) == t,
        forall|id: Seq<char>| id != topic_id ==> (#[trigger] after.contains_topic(id) == before.contains_topic(id)),
        forall|id: Seq<char>| id != topic_id && before.contains_topic(id) ==> #[trigger] after.topic(id) == before.topic(id),
{
    let s = before.topics();
    let u = after.topics();
    assert forall|id: Seq<char>| id != topic_id implies (#[trigger] after.contains_topic(id) == before.contains_topic(id)) by {
        if before.contains_topic(id) {
            let w = choose|w: int| 0 <= w < s.len() && (#[trigger] s[w]).topic_id@ == id;
            assert(u[w] == s[w]);
        }
        if after.contains_topic(id) {
            let w = choose|w: int| 0 <= w < u.len() && (#[trigger] u[w]).topic_id@ == id;
            assert(w < s.len());
            assert(u[w] == s[w]);
        }
    }
    assert forall|id: Seq<char>| id != topic_id && before.contains_topic(id) implies #[trigger] after.topic(id) == before.topic(id) by {
        let w = index_of_topic(s, id);
        assert(0 <= w < s.len() && s[w].topic_id@ == id);
        assert(u[w] == s[w]);
        if before.contains_topic(topic_id) {
            lemma_topic_replaced(before, after, index_of_topic(s, topic_id));
        } else {
            assert(u.drop_last() =~= s);
            lemma_topic_added(before, after, topic_id);
        }
        let k = index_of_topic(u, id);
        assert(0 <= k < u.len() && u[k].topic_id@ == id);
        if k != w {
            if k < w {
                assert(u[k].topic_id@ != u[w].topic_id@);
            } else {
                assert(u[w].topic_id@ != u[k].topic_id@);
            }
        }
    }
    if before.contains_topic(topic_id) {
        let i = index_of_topic(s, topic_id);
        assert(0 <= i < s.len() && s[i].topic_id@ == topic_id);
        lemma_topic_replaced(before, after, i);
        assert(u[i].topic_id@ == topic_id);
        let k = index_of_topic(u, topic_id);
        assert(0 <= k < u.len() && u[k].topic_id@ == topic_id);
        if k != i {
            if k < i {
                assert(u[k].topic_id@ != u[i].topic_id@);
            } else {
                assert(u[i].topic_id@ != u[k].topic_id@);
            }
        }
    } else {
        assert(u.drop_last() =~= s);
        lemma_topic_added(before, after, topic_id);
    }
}

/// A list that holds `after` in place of its topic with the id of `after`, and the other topics as they
/// were, is well formed when `after`'s queues are.
pub proof fn lemma_topic_replaced(before: TopicsList, after: TopicsList, i: int)
    requires
        before.wf(),
        0 <= i < before.topics().len(),
        after.topics() == before.topics().update(i, after.topics()[i]),
        after.topics()[i].topic_id@ == before.topics()[i].topic_id@,
        after.topics()[i].queues.wf(),
    ensures
        after.wf(),
{
    let s = before.topics();
    let t = after.topics();
    assert forall|a: int, b: int|
        #![trigger t[a], t[b]]
        0 <= a < b < t.len() implies t[a].topic_id@ != t[b].topic_id@ by {
        assert(s[a].topic_id@ != s[b].topic_id@);
    }
    assert forall|a: int| 0 <= a < t.len() implies (#[trigger] t[a]).queues.wf() by {
        if a != i {
            assert(s[a].queues.wf());
        }
    }
}

/// After a topic is added at the end of a list without one of its id, the list is well formed.
pub proof fn lemma_topic_added(before: TopicsList, after: TopicsList, topic_id: Seq<char>)
    requires
        before.wf(),
        !before.contains_topic(topic_id),
        after.topics().len() == before.topics().len() + 1,
        after.topics().drop_last() == before.topics(),
        after.topics().last().topic_id@ == topic_id,
        after.topics().last().queues.wf(),
    ensures
        after.wf(),
        after.contains_topic(topic_id),
        index_of_topic(after.topics(), topic_id) == before.topics().len(),
{
    let s = before.topics();
    let t = after.topics();
    let n = s.len() as int;
    assert(t[n].topic_id@ == topic_id);
    assert forall|a: int, b: int|
        #![trigger t[a], t[b]]
        0 <= a < b < t.len() implies t[a].topic_id@ != t[b].topic_id@ by {
        assert(t[a] == s[a]);
        if b < n {
            assert(t[b] == s[b]);
        } else {
            assert(!(s[a].topic_id@ == topic_id));
        }
    }
    assert forall|a: int| 0 <= a < t.len() implies (#[trigger] t[a]).queues.wf() by {
        if a < n {
            assert(t[a] == s[a]);
        }
    }
    let k = index_of_topic(t, topic_id);
    assert(0 <= k < t.len() && t[k].topic_id@ == topic_id);
    if k < n {
        assert(t[k] == s[k]);
    }
}

} // verus!
