//! What the library computes for the messages-pages persistence service: the chunks a batch of
//! messages is sent in, the page the service streams back, and when connecting is given up.
use std::collections::HashMap;
use vstd::prelude::*;

use crate::messages_page::MySbMessageContent;
use crate::persistence::error::PersistenceError;
use crate::persistence::split::{chunk, chunk_count, joined_chunks, split};
use crate::persistence::zip::{
    compress_payload, deflate_size_bound, deflated_in_bytes, entries_in_bytes, payload_entry_name, zip64_threshold, zip_readable,
};
use crate::queue_with_intervals::MessageId;

verus! {

broadcast use vstd::std_specs::hash::group_hash_axioms;

/// The chunks, joined in order.
pub open spec fn joined(chunks: Seq<Vec<u8>>) -> Seq<u8>
    decreases chunks.len(),
{
    if chunks.len() == 0 {
        Seq::<u8>::empty()
    } else {
        joined(chunks.drop_last()) + chunks.last()@
    }
}

proof fn lemma_joined_split(chunks: Seq<Vec<u8>>, src: Seq<u8>, max: int, n: nat)
    requires
        n <= chunks.len(),
        forall|k: int| 0 <= k < n ==> (#[trigger] chunks[k])@ == chunk(src, max, k),
    ensures
        joined(chunks.take(n as int)) == joined_chunks(src, max, n),
    decreases n,
{
    if n > 0 {
        lemma_joined_split(chunks, src, max, (n - 1) as nat);
        assert(chunks.take(n as int).drop_last() =~= chunks.take(n - 1));
    } else {
        assert(chunks.take(0) =~= Seq::<Vec<u8>>::empty());
    }
}

/// The chunks a batch of messages is sent to the persistence service in: `payload` (the encoded
/// batch) packed into a zip archive, cut into chunks of at most `max_chunk_size` bytes. Fails when
/// the archive cannot be made, which a payload whose compressed size cannot reach the zip64
/// threshold never causes.
pub fn compressed_chunks(payload: &[u8], max_chunk_size: usize) -> (r: Result<Vec<Vec<u8>>, PersistenceError>)
    requires
        max_chunk_size > 0,
    ensures
        deflate_size_bound(payload@.len() as int) < zip64_threshold() ==> r is Ok,
        r matches Ok(chunks) ==> {
            let archive = joined(chunks@);
            &&& entries_in_bytes(archive) == seq![(payload_entry_name(), payload@)]
            &&& zip_readable(archive)
            &&& deflated_in_bytes(archive)
            &&& chunks@.len() == chunk_count(archive.len() as int, max_chunk_size as int)
            &&& forall|k: int| 0 <= k < chunks@.len() ==> (#[trigger] chunks@[k])@ == chunk(archive, max_chunk_size as int, k)
            &&& forall|k: int| 0 <= k < chunks@.len() ==> 0 < (#[trigger] chunks@[k])@.len() <= max_chunk_size
        },
        r matches Err(e) ==> e is ZipOperationError,
{
    let archive = match compress_payload(payload) {
        Ok(archive) => archive,
        Err(e) => {
            return Err(PersistenceError::ZipOperationError(e));
        },
    };
    let chunks = split(archive.as_slice(), max_chunk_size);
    proof {
        let max = max_chunk_size as int;
        crate::persistence::split::lemma_split_chunks_rejoin(archive@, max);
        lemma_joined_split(chunks@, archive@, max, chunks@.len());
        assert(chunks@.take(chunks@.len() as int) =~= chunks@);
        assert(joined(chunks@) == archive@);
    }
    Ok(chunks)
}

/// The messages of a page keyed by id, a later message replacing an earlier one with the same id.
pub open spec fn messages_keyed(messages: Seq<MySbMessageContent>) -> Map<MessageId, MySbMessageContent>
    decreases messages.len(),
{
    if messages.len() == 0 {
        Map::empty()
    } else {
        messages_keyed(messages.drop_last()).insert(messages.last().id, messages.last())
    }
}

/// The messages the persistence service streamed back for a page, keyed by id.
pub fn messages_by_id(messages: Vec<MySbMessageContent>) -> (result: HashMap<MessageId, MySbMessageContent>)
    ensures
        result@ == messages_keyed(messages@),
{
    let ghost s = messages@;
    let mut result: HashMap<MessageId, MySbMessageContent> = HashMap::new();
    for msg in it: messages.into_iter()
        invariant
            it.seq() == s,
            result@ == messages_keyed(s.take(it.index() as int)),
    {
        proof {
            assert(s.take(it.index() + 1).drop_last() =~= s.take(it.index() as int));
        }
        result.insert(msg.id, msg);
    }
    assert(s.take(s.len() as int) =~= s);
    result
}

/// How many times connecting to the persistence service is tried before it is given up.
pub const CONNECT_ATTEMPTS: u32 = 6;

/// Whether connecting to the persistence service is tried again after attempt `attempt_no`
/// (counted from 0) failed.
pub fn connect_retries(attempt_no: u32) -> (retry: bool)
    ensures
        retry == (attempt_no + 1 < CONNECT_ATTEMPTS),
{
    attempt_no < CONNECT_ATTEMPTS - 1
}

} // verus!
