//! Picks the next message of a queue to deliver, looking its content up in the page cache.
use vstd::prelude::*;

use crate::messages_page::{
    find_message, find_page, get_page_id, lemma_find_message_id, lookup, page_of, MessagesPagesCache, MySbMessage,
    MySbMessageContent, PageId,
};
use crate::queue_with_intervals::QueueWithIntervals;
use crate::queues::delivery_attempts::{attempt_of, DeliveryAttempts};

verus! {

pub enum NextMessageResult<'s> {
    Value { content: &'s MySbMessageContent, attempt_no: i32 },
    LoadDataRequired(PageId),
}

/// The smallest element of a set.
pub open spec fn is_min(s: Set<int>, m: int) -> bool {
    s.contains(m) && forall|y: int| #[trigger] s.contains(y) ==> m <= y
}

/// A message of `size` bytes fits when nothing was yielded yet or it stays within `max_size`.
pub open spec fn fits(yielded_size: usize, max_size: usize, size: int) -> bool {
    yielded_size == 0 || yielded_size + size <= max_size
}

/// The ids that left the queue: smaller than what stays, and lost (`Missing`) unless it is `except`.
pub open spec fn skipped_prefix(pages: Seq<crate::messages_page::MessagesPage>, before: Set<int>, after: Set<int>, except: Option<int>) -> bool {
    &&& after.subset_of(before)
    &&& forall|x: int, y: int| #[trigger] before.contains(x) && !after.contains(x) && #[trigger] after.contains(y) ==> x < y
    &&& forall|x: int|
        #[trigger] before.contains(x) && !after.contains(x) && except != Some(x) ==> (lookup(pages, x) matches Some(m) && m is Missing)
}

/// Walks a queue in id order, yielding the messages whose content is in the cache.
pub struct DeliveryIterator {
    yielded_size: usize,
    max_size: usize,
}

impl DeliveryIterator {
    pub closed spec fn spec_yielded_size(&self) -> usize {
        self.yielded_size
    }

    pub closed spec fn spec_max_size(&self) -> usize {
        self.max_size
    }

    pub fn new(max_size: usize) -> (result: Self)
        ensures
            result.spec_max_size() == max_size,
            result.spec_yielded_size() == 0,
    {
        DeliveryIterator { yielded_size: 0, max_size }
    }

    /// Takes lost messages off the front of the queue, then: yields the content of the
    /// next message when it is loaded and fits (taking it off the queue too), asks for
    /// its page when the cache does not hold it, and ends when the queue is empty or the
    /// next message does not fit.
    pub fn next<'s>(
        &mut self,
        pages: &'s MessagesPagesCache,
        queue: &mut QueueWithIntervals,
        delivery_attempts: &DeliveryAttempts,
    ) -> (result: Option<NextMessageResult<'s>>)
        ensures
            *final(self) == *old(self),
            match result {
                None => {
                    &&& skipped_prefix(pages.pages@, old(queue)@, final(queue)@, None)
                    &&& (final(queue)@.is_empty() || forall|m: int| #[trigger] is_min(final(queue)@, m) ==> (lookup(pages.pages@, m) matches Some(MySbMessage::Loaded(c))
                        && !fits(old(self).spec_yielded_size(), old(self).spec_max_size(), c.content@.len() as int)))
                },
                Some(NextMessageResult::LoadDataRequired(page_id)) => {
                    &&& skipped_prefix(pages.pages@, old(queue)@, final(queue)@, None)
                    &&& !final(queue)@.is_empty()
                    &&& forall|m: int| #[trigger] is_min(final(queue)@, m) ==> page_id == page_of(m) && (lookup(pages.pages@, m) is None
                        || (lookup(pages.pages@, m) matches Some(MySbMessage::NotLoaded { id: _ })))
                },
                Some(NextMessageResult::Value { content, attempt_no }) => {
                    let id = content.id as int;
                    &&& skipped_prefix(pages.pages@, old(queue)@, final(queue)@, Some(id))
                    &&& old(queue)@.contains(id)
                    &&& !final(queue)@.contains(id)
                    &&& lookup(pages.pages@, id) == Some(MySbMessage::Loaded(*content))
                    &&& fits(old(self).spec_yielded_size(), old(self).spec_max_size(), content.content@.len() as int)
                    &&& attempt_no == attempt_of(delivery_attempts@, content.id)
                    &&& forall|x: int| #[trigger] old(queue)@.contains(x) && !final(queue)@.contains(x) ==> x <= id
                },
            },
    {
        let ghost q0 = queue@;
        queue.well_formed_facts();
        loop
            invariant
                *self == *old(self),
                q0 == old(queue)@,
                queue@.finite(),
                skipped_prefix(pages.pages@, q0, queue@, None),
            decreases queue@.len(),
        {
            let next_message_id = queue.peek();
            let next_message_id = match next_message_id {
                None => {
                    assert(skipped_prefix(pages.pages@, q0, queue@, None));
                    assert(queue@.is_empty());
                    return None;
                },
                Some(id) => id,
            };
            queue.well_formed_facts();
            assert(is_min(queue@, next_message_id as int));
            let page_id = get_page_id(next_message_id);
            let page = match pages.get_page(page_id) {
                None => {
                    assert(lookup(pages.pages@, next_message_id as int) is None);
                    assert forall|m: int| #[trigger] is_min(queue@, m) implies m == next_message_id by {
                        assert(queue@.contains(next_message_id as int));
                    }
                    return Some(NextMessageResult::LoadDataRequired(page_id));
                },
                Some(page) => page,
            };
            let message = match page.get(next_message_id) {
                None => {
                    return Some(NextMessageResult::LoadDataRequired(page_id));
                },
                Some(message) => message,
            };
            match message {
                MySbMessage::Loaded(content) => {
                    let size = content.content.len();
                    if self.yielded_size == 0 || (self.yielded_size <= self.max_size && size
                        <= self.max_size - self.yielded_size) {
                        proof {
                            lemma_find_message_id(page.messages@, next_message_id as int);
                            assert(content.id == next_message_id);
                            assert(lookup(pages.pages@, next_message_id as int) == Some(MySbMessage::Loaded(*content)));
                        }
                        queue.dequeue();
                        return Some(
                            NextMessageResult::Value {
                                content,
                                attempt_no: delivery_attempts.get(next_message_id),
                            },
                        );
                    }
                    return None;
                },
                MySbMessage::Missing { id: _ } => {
                    queue.dequeue();
                },
                MySbMessage::NotLoaded { id: _ } => {
                    return Some(NextMessageResult::LoadDataRequired(page_id));
                },
            }
        }
    }
}

} // verus!
