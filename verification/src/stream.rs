use vstd::prelude::*;
use crate::task::TaskPoll;

verus! {

/// What one look at a stream gave.
pub enum StreamPoll<I> {
    /// The next item.
    Item(I),
    /// The stream has ended.
    End,
    /// No item yet.
    NotYet,
}

/// One poll of a task that consumes a stream: an item is handed on (to be
/// passed to the consumer, at most one per poll) and the task stays pending; the
/// end of the stream completes the task; no item yet leaves it pending.
pub open spec fn spec_stream_step<I>(p: StreamPoll<I>) -> (Option<I>, TaskPoll) {
    match p {
        StreamPoll::Item(i) => (Some(i), TaskPoll::Pending),
        StreamPoll::End => (None, TaskPoll::Ready),
        StreamPoll::NotYet => (None, TaskPoll::Pending),
    }
}

pub fn stream_step<I>(p: StreamPoll<I>) -> (r: (Option<I>, TaskPoll))
    ensures
        r == spec_stream_step(p),
{
    match p {
        StreamPoll::Item(i) => (Some(i), TaskPoll::Pending),
        StreamPoll::End => (None, TaskPoll::Ready),
        StreamPoll::NotYet => (None, TaskPoll::Pending),
    }
}

} // verus!
