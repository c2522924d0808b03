//! A message handed out of a queue.
use vstd::prelude::*;

use crate::queue_with_intervals::MessageId;

verus! {

/// A message id with the number of the delivery attempt it is on.
#[derive(Debug)]
pub struct NextMessage {
    pub message_id: MessageId,
    pub attempt_no: i32,
}

} // verus!
