use vstd::prelude::*;
use crate::cancel_reason::CancelReason;
use crate::scope::{Cx, RequestView};

verus! {

/// Index of a task in its scope.
pub type TaskId = usize;

/// Sender id of wake messages that come from outside any task.
pub const EXTERNAL_WAKE: TaskId = usize::MAX;

/// What one poll of a task reports.
#[derive(Debug, Clone, Copy, PartialEq, Eq, Structural)]
pub enum TaskPoll {
    Pending,
    Ready,
}

/// Life-cycle state of a task.
#[derive(Debug, Clone, Copy, PartialEq, Eq, Structural)]
pub enum TaskState {
    Alive,
    Completed,
    Cancelled,
    Panicked,
}

/// A request to schedule task `to`, sent by `from`.
#[derive(Debug, Clone, Copy, PartialEq, Eq, Structural)]
pub struct WakeMsg {
    pub from: TaskId,
    pub to: TaskId,
}

/// Why a joinable task produced no output.
#[derive(Debug, Clone, Copy, PartialEq, Eq, Structural)]
pub enum JoinError {
    Panicked,
    Cancelled(CancelReason),
}

/// One look at a join handle.
#[derive(Debug, PartialEq, Eq)]
pub enum JoinPoll<T> {
    Pending,
    Ready(Result<T, JoinError>),
}

/// A task that yields once, then completes.
pub struct YieldNowTask {
    yielded: bool,
}

impl YieldNowTask {
    pub fn new() -> (t: YieldNowTask)
        ensures
            !t.has_yielded(),
    {
        YieldNowTask { yielded: false }
    }

    pub closed spec fn has_yielded(&self) -> bool {
        self.yielded
    }

    /// First poll: reschedules itself and stays pending; every later poll: ready.
    pub fn poll_with<R, T, Tr>(&mut self, cx: &mut Cx<'_, R, T, Tr>) -> (p: TaskPoll)
        ensures
            final(self).has_yielded(),
            final(cx).same_base(old(cx)),
            !old(self).has_yielded() ==> p == TaskPoll::Pending
                && final(cx).pending() == old(cx).pending().push(RequestView::Wake(old(cx).task())),
            old(self).has_yielded() ==> p == TaskPoll::Ready && final(cx).pending() == old(cx).pending(),
    {
        if !self.yielded {
            self.yielded = true;
            return cx.yield_now();
        }
        TaskPoll::Ready
    }
}

} // verus!
