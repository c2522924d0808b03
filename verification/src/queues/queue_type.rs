//! The kinds of queue.
use vstd::prelude::*;

verus! {

#[derive(Clone, Copy, Debug, PartialEq, Eq, Structural)]
pub enum TopicQueueType {
    /// Kept, with its messages, when its subscribers leave.
    Permanent,
    /// Deleted some time after its last subscriber leaves.
    DeleteOnDisconnect,
    /// Kept; a new subscriber replaces the previous one.
    PermanentWithSingleConnection,
}

} // verus!
