//! How many times each message has failed to be delivered.
use std::collections::HashMap;
use vstd::prelude::*;

use crate::queue_with_intervals::MessageId;

verus! {

broadcast use vstd::std_specs::hash::group_hash_axioms;

pub struct DeliveryAttempts {
    attempts: HashMap<MessageId, i32>,
}

impl View for DeliveryAttempts {
    type V = Map<MessageId, i32>;

    closed spec fn view(&self) -> Map<MessageId, i32> {
        self.attempts@
    }
}

/// The attempt number recorded for a message, 0 when none is recorded.
pub open spec fn attempt_of(attempts: Map<MessageId, i32>, message_id: MessageId) -> i32 {
    if attempts.contains_key(message_id) {
        attempts[message_id]
    } else {
        0
    }
}

/// What `add` records: the first failure is recorded as 0, each later one adds 1
/// (wrapping at the end of the `i32` range).
pub open spec fn next_attempt(attempts: Map<MessageId, i32>, message_id: MessageId) -> i32 {
    if attempts.contains_key(message_id) {
        vstd::wrapping::i32_specs::wrapping_add(attempts[message_id], 1)
    } else {
        0
    }
}

impl DeliveryAttempts {
    pub fn new() -> (result: Self)
        ensures
            result@ == Map::<MessageId, i32>::empty(),
    {
        DeliveryAttempts { attempts: HashMap::new() }
    }

    pub fn get(&self, message_id: MessageId) -> (result: i32)
        ensures
            result == attempt_of(self@, message_id),
    {
        match self.attempts.get(&message_id) {
            Some(result) => *result,
            None => 0,
        }
    }

    pub fn reset(&mut self, message_id: MessageId)
        ensures
            final(self)@ == old(self)@.remove(message_id),
    {
        self.attempts.remove(&message_id);
    }

    pub fn add(&mut self, message_id: MessageId)
        ensures
            final(self)@ == old(self)@.insert(message_id, next_attempt(old(self)@, message_id)),
    {
        let result = self.attempts.get(&message_id);
        match result {
            Some(value) => {
                let value = *value;
                self.attempts.insert(message_id, value.wrapping_add(1));
            },
            None => {
                self.attempts.insert(message_id, 0);
            },
        }
    }
}

/// What `get` reads back after `add` and `reset`: after `add`, the message's next attempt number
/// (0 after its first failure, one more after each later one); after `reset`, 0. Other messages
/// keep theirs.
pub proof fn lemma_attempts_read_back(attempts: Map<MessageId, i32>, message_id: MessageId, other: MessageId)
    requires
        other != message_id,
    ensures
        attempt_of(attempts.insert(message_id, next_attempt(attempts, message_id)), message_id) == next_attempt(
            attempts,
            message_id,
        ),
        attempt_of(attempts.remove(message_id), message_id) == 0,
        attempt_of(attempts.insert(message_id, next_attempt(attempts, message_id)), other) == attempt_of(
            attempts,
            other,
        ),
        attempt_of(attempts.remove(message_id), other) == attempt_of(attempts, other),
        !attempts.contains_key(message_id) ==> attempt_of(
            attempts.insert(message_id, next_attempt(attempts, message_id)),
            message_id,
        ) == 0,
        attempts.contains_key(message_id) && attempts[message_id] < i32::MAX ==> attempt_of(
            attempts.insert(message_id, next_attempt(attempts, message_id)),
            message_id,
        ) == attempts[message_id] + 1,
{
}

} // verus!
