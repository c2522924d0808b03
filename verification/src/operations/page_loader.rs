//! Which messages to load for a page, and how loaded messages enter the cache.
use std::collections::BTreeMap;
use vstd::prelude::*;

use crate::messages_page::{MessagesPage, MySbMessage, MySbMessageContent, PageId, MESSAGES_IN_PAGE};
use crate::persistence::error::PersistenceError;
use crate::queue_with_intervals::MessageId;

verus! {

broadcast use {vstd::std_specs::btree::group_btree_axioms, vstd::laws_cmp::group_laws_cmp};

/// The ids of `page_id` to load: from the smallest id a queue still needs (but not
/// before the page starts) to the last id of the topic (but not after the page ends).
pub open spec fn load_page_interval(min_queue_msg_id: int, topic_message_id: int, page_id: int) -> (int, int) {
    let first = page_id * MESSAGES_IN_PAGE;
    let next = first + MESSAGES_IN_PAGE;
    (
        if min_queue_msg_id < first {
            first
        } else {
            min_queue_msg_id
        },
        if topic_message_id < next {
            topic_message_id
        } else {
            next - 1
        },
    )
}

pub fn get_load_page_interval(min_queue_msg_id: MessageId, topic_message_id: MessageId, page_id: PageId) -> (result: (MessageId, MessageId))
    requires
        i64::MIN <= page_id * MESSAGES_IN_PAGE,
        (page_id + 1) * MESSAGES_IN_PAGE <= i64::MAX,
    ensures
        (result.0 as int, result.1 as int) == load_page_interval(min_queue_msg_id as int, topic_message_id as int, page_id as int),
{
    let first_message_id_in_page = page_id * MESSAGES_IN_PAGE;
    let from_id = if min_queue_msg_id < first_message_id_in_page {
        first_message_id_in_page
    } else {
        min_queue_msg_id
    };
    let first_message_id_in_next_page = first_message_id_in_page + MESSAGES_IN_PAGE;
    let to_id = if topic_message_id < first_message_id_in_next_page {
        topic_message_id
    } else {
        first_message_id_in_next_page - 1
    };
    (from_id, to_id)
}

/// Messages marked as not loaded, one for each id from `from_message_id` up to, but
/// not including, `to_message_id`.
pub fn generate_not_loaded_messages(from_message_id: MessageId, to_message_id: MessageId) -> (result: Vec<MySbMessage>)
    ensures
        result@.len() == if from_message_id < to_message_id {
            to_message_id - from_message_id
        } else {
            0
        },
        forall|k: int| 0 <= k < result@.len() ==> #[trigger] result@[k] == (MySbMessage::NotLoaded {
            id: (from_message_id + k) as i64,
        }),
{
    let mut result: Vec<MySbMessage> = Vec::new();
    let mut id = from_message_id;
    while id < to_message_id
        invariant
            from_message_id <= id || to_message_id <= from_message_id,
            id == from_message_id || from_message_id < to_message_id,
            from_message_id < to_message_id ==> from_message_id <= id <= to_message_id,
            result@.len() == id - from_message_id,
            forall|k: int| 0 <= k < result@.len() ==> #[trigger] result@[k] == (MySbMessage::NotLoaded {
                id: (from_message_id + k) as i64,
            }),
        decreases to_message_id - id,
    {
        result.push(MySbMessage::NotLoaded { id });
        id = id + 1;
    }
    result
}

/// The messages of `s` keyed by id, a later message replacing an earlier one with the same id.
pub open spec fn compiled_messages(s: Seq<MySbMessageContent>) -> Map<MessageId, MySbMessage>
    decreases s.len(),
{
    if s.len() == 0 {
        Map::empty()
    } else {
        compiled_messages(s.drop_last()).insert(s.last().id, MySbMessage::Loaded(s.last()))
    }
}

/// The loaded messages, keyed by id.
pub fn compile_message_with_missing_state(src: Vec<MySbMessageContent>) -> (result: BTreeMap<MessageId, MySbMessage>)
    ensures
        result@ == compiled_messages(src@),
{
    let ghost s = src@;
    let mut result: BTreeMap<MessageId, MySbMessage> = BTreeMap::new();
    for msg in it: src.into_iter()
        invariant
            it.seq() == s,
            result@ == compiled_messages(s.take(it.index() as int)),
    {
        proof {
            assert(s.take(it.index() + 1).drop_last() =~= s.take(it.index() as int));
        }
        result.insert(msg.id, MySbMessage::Loaded(msg));
    }
    assert(s.take(s.len() as int) =~= s);
    result
}

/// Every id of `from..=to` marked as lost.
pub open spec fn all_missing(from: MessageId, to: MessageId) -> Map<MessageId, MySbMessage> {
    Map::new(|id: MessageId| from <= id <= to, |id: MessageId| MySbMessage::Missing { id })
}

/// The messages of the ids `from..=to` of a page after a load: the loaded messages keyed by id, or,
/// where the load gave nothing, every id of the range marked as lost.
pub fn sub_page_after_load(from: MessageId, to: MessageId, loaded: Option<Vec<MySbMessageContent>>) -> (result: BTreeMap<MessageId, MySbMessage>)
    ensures
        match loaded {
            Some(messages) => result@ == compiled_messages(messages@),
            None => result@ == all_missing(from, to),
        },
{
    match loaded {
        Some(messages) => compile_message_with_missing_state(messages),
        None => create_with_all_missing(from, to),
    }
}

/// Every id of `from..=to` marked as lost, keyed by id.
pub fn create_with_all_missing(from: MessageId, to: MessageId) -> (result: BTreeMap<MessageId, MySbMessage>)
    ensures
        result@ == all_missing(from, to),
{
    let mut result: BTreeMap<MessageId, MySbMessage> = BTreeMap::new();
    if to < from {
        assert(result@ =~= all_missing(from, to));
        return result;
    }
    let mut id = from;
    loop
        invariant
            from <= id <= to,
            result@ == Map::new(|k: MessageId| from <= k < id, |k: MessageId| MySbMessage::Missing { id: k }),
        decreases to - id,
    {
        result.insert(id, MySbMessage::Missing { id });
        if id == to {
            assert(result@ =~= all_missing(from, to));
            return result;
        }
        assert(result@ =~= Map::new(|k: MessageId| from <= k < id + 1, |k: MessageId| MySbMessage::Missing { id: k }));
        id = id + 1;
    }
}

/// How a page that is not in the cache is brought into it.
#[derive(Clone, Copy, Debug, PartialEq, Eq, Structural)]
pub enum PageInitPlan {
    /// Load the ids `from..=to` of the page from the persistence service (`0, 0` loads the whole page).
    LoadFromStorage { from: MessageId, to: MessageId },
    /// Nothing to load: mark the ids `from..to` as not loaded.
    MarkNotLoaded { from: MessageId, to: MessageId },
}

/// The plan for bringing `page_id` into the cache, given the smallest id a queue of the topic still
/// needs (if any queue needs one) and the topic's last message id.
pub open spec fn page_init_plan(queue_min_message_id: Option<MessageId>, topic_message_id: MessageId, page_id: PageId) -> PageInitPlan {
    let page_first = page_id * MESSAGES_IN_PAGE;
    match queue_min_message_id {
        Some(min_id) => if min_id <= page_first {
            PageInitPlan::LoadFromStorage { from: 0, to: 0 }
        } else {
            PageInitPlan::LoadFromStorage { from: min_id, to: topic_message_id }
        },
        None => PageInitPlan::MarkNotLoaded { from: page_first as MessageId, to: topic_message_id },
    }
}

/// Decides how `page_id` is brought into the cache: a page that a queue needs from its start is
/// loaded whole, one that a queue needs from inside is loaded from that id on, and one that no queue
/// needs has its ids marked as not loaded.
pub fn init_page_to_cache_plan(queue_min_message_id: Option<MessageId>, topic_message_id: MessageId, page_id: PageId) -> (plan: PageInitPlan)
    requires
        i64::MIN <= page_id * MESSAGES_IN_PAGE <= i64::MAX,
    ensures
        plan == page_init_plan(queue_min_message_id, topic_message_id, page_id),
{
    let page_first_message_id = page_id * MESSAGES_IN_PAGE;
    match queue_min_message_id {
        Some(queue_min_message_id) => {
            if queue_min_message_id <= page_first_message_id {
                PageInitPlan::LoadFromStorage { from: 0, to: 0 }
            } else {
                PageInitPlan::LoadFromStorage { from: queue_min_message_id, to: topic_message_id }
            }
        },
        None => PageInitPlan::MarkNotLoaded { from: page_first_message_id, to: topic_message_id },
    }
}

/// How many times a page load is tried before an empty page is put in its place.
pub const PAGE_LOAD_ATTEMPTS: u32 = 5;

/// What follows a failed page load.
#[derive(Clone, Copy, Debug, PartialEq, Eq, Structural)]
pub enum PageLoadStep {
    /// Put an empty page in the cache.
    GiveUp,
    /// Pause, then make the attempt with this number.
    Retry(u32),
}

/// The step after attempt `attempt_no` (counted from 0) failed with `error`: a payload that cannot be
/// unpacked is given up at once; other failures are retried until `PAGE_LOAD_ATTEMPTS` attempts have
/// been made.
pub open spec fn page_load_step(attempt_no: u32, error: PersistenceError) -> PageLoadStep {
    if error.is_unpacking_failure() || attempt_no + 1 >= PAGE_LOAD_ATTEMPTS {
        PageLoadStep::GiveUp
    } else {
        PageLoadStep::Retry((attempt_no + 1) as u32)
    }
}

/// The step after attempt `attempt_no` (counted from 0) failed with `error`, as `page_load_step`
/// says.
pub fn next_page_load_step(attempt_no: u32, error: &PersistenceError) -> (step: PageLoadStep)
    ensures
        step == page_load_step(attempt_no, *error),
        error is ZipOperationError ==> step == PageLoadStep::GiveUp,
        !(error is ZipOperationError) && attempt_no + 1 < PAGE_LOAD_ATTEMPTS ==> step == PageLoadStep::Retry(
            (attempt_no + 1) as u32,
        ),
        attempt_no + 1 >= PAGE_LOAD_ATTEMPTS ==> step == PageLoadStep::GiveUp,
{
    match error {
        PersistenceError::ZipOperationError(_) => PageLoadStep::GiveUp,
        _ => {
            if attempt_no >= PAGE_LOAD_ATTEMPTS - 1 {
                PageLoadStep::GiveUp
            } else {
                PageLoadStep::Retry(attempt_no + 1)
            }
        },
    }
}

/// What restoring a page into the cache does after one load from the persistence service.
pub enum PageRestoreStep {
    /// Put this page in the cache; the restore is done.
    Restore(MessagesPage),
    /// Pause, then make the attempt with this number.
    Retry(u32),
}

/// The step of restoring `page_id` after attempt `attempt_no` (counted from 0) gave `loaded`: a page
/// that came is restored; after a failure the load is tried again as `page_load_step` says, and an
/// empty page is restored once it gives up.
pub fn page_restore_step(page_id: PageId, attempt_no: u32, loaded: Result<MessagesPage, PersistenceError>) -> (step: PageRestoreStep)
    ensures
        match loaded {
            Ok(page) => step == PageRestoreStep::Restore(page),
            Err(error) => match page_load_step(attempt_no, error) {
                PageLoadStep::GiveUp => step matches PageRestoreStep::Restore(page) && page.page_id == page_id
                    && page.messages@ == Seq::<MySbMessage>::empty(),
                PageLoadStep::Retry(next) => step == PageRestoreStep::Retry(next),
            },
        },
{
    match loaded {
        Ok(page) => PageRestoreStep::Restore(page),
        Err(error) => match next_page_load_step(attempt_no, &error) {
            PageLoadStep::GiveUp => PageRestoreStep::Restore(MessagesPage::new(page_id)),
            PageLoadStep::Retry(next) => PageRestoreStep::Retry(next),
        },
    }
}

/// A failed page load is given up at once only when its payload cannot be unpacked: any other
/// failure (the service unreachable, its client not created yet, a payload that cannot be decoded)
/// is tried again, each retry counting one attempt more, until `PAGE_LOAD_ATTEMPTS` attempts have
/// been made, after which it is given up.
pub proof fn lemma_page_load_attempts_bounded(attempt_no: u32, error: PersistenceError)
    ensures
        error is ZipOperationError ==> page_load_step(attempt_no, error) == PageLoadStep::GiveUp,
        !(error is ZipOperationError) && attempt_no + 1 < PAGE_LOAD_ATTEMPTS ==> page_load_step(attempt_no, error)
            == PageLoadStep::Retry((attempt_no + 1) as u32),
        attempt_no + 1 >= PAGE_LOAD_ATTEMPTS ==> page_load_step(attempt_no, error) == PageLoadStep::GiveUp,
        page_load_step(attempt_no, error) matches PageLoadStep::Retry(next) ==> next == attempt_no + 1 && next
            < PAGE_LOAD_ATTEMPTS,
{
}

/// The interval to load never leaves the page: it starts at or after the page's first id and ends
/// at or before its last one.
pub proof fn lemma_load_interval_within_page(min_queue_msg_id: int, topic_message_id: int, page_id: int)
    ensures
        load_page_interval(min_queue_msg_id, topic_message_id, page_id).0 >= page_id * MESSAGES_IN_PAGE,
        load_page_interval(min_queue_msg_id, topic_message_id, page_id).1 <= page_id * MESSAGES_IN_PAGE
            + MESSAGES_IN_PAGE - 1,
{
}

/// Whether restoring a page tries again after `error`: a failure to reach the persistence service
/// is retried without limit, while a payload that cannot be unpacked, decoded or read as a
/// compressed page is given up at once, an empty page taking its place.
pub fn restore_page_retries(error: &PersistenceError) -> (retry: bool)
    ensures
        retry == !error.is_content_failure(),
{
    match error {
        PersistenceError::ZipOperationError(_) => false,
        PersistenceError::InvalidProtobufPayload(_) => false,
        PersistenceError::CompressedPageReaderError(_) => false,
        PersistenceError::TonicError(_) => true,
        PersistenceError::GrpcClientError(_) => true,
        PersistenceError::GrpcClientIsNotInitialized(_) => true,
        PersistenceError::CanNotInitializeGrpcService => true,
    }
}

} // verus!
