use vstd::prelude::*;
use std::sync::Arc;
use std::sync::atomic::AtomicBool;
use std::sync::atomic::AtomicU8;
use std::sync::atomic::Ordering;
use crate::cancel_reason::CancelReason;
use crate::cancel_reason::ABORT_PANICKED;
use crate::task::TaskId;
use crate::task::WakeMsg;
use crate::task::EXTERNAL_WAKE;
use crate::wake::WakeTx;

verus! {

/// Calls `Arc::clone`: a second handle on the same shared value.
#[verifier::external_body]
fn arc_clone<V>(a: &Arc<V>) -> (r: Arc<V>)
    ensures
        r == *a,
{
    Arc::clone(a)
}

/// The abort code of a joinable task, shared with the task's output side.
///
/// The scope is the only writer: it keeps the code it last wrote in `code` and
/// publishes every write to the shared cell, which the output side only reads.
pub struct AbortCell {
    code: u8,
    shared: Arc<AtomicU8>,
}

impl AbortCell {
    /// A fresh cell holding code 0, and the handle for the output side: a second
    /// handle on the cell's shared value.
    pub fn new() -> (r: (AbortCell, Arc<AtomicU8>))
        ensures
            r.0.code() == 0,
            r.1 == r.0.shared_value(),
    {
        let shared = Arc::new(AtomicU8::new(0));
        let handle = arc_clone(&shared);
        (AbortCell { code: 0, shared }, handle)
    }

    pub closed spec fn code(&self) -> u8 {
        self.code
    }

    /// The value shared with the output side, to which every write is published.
    pub closed spec fn shared_value(&self) -> Arc<AtomicU8> {
        self.shared
    }

    pub fn get(&self) -> (c: u8)
        ensures
            c == self.code(),
    {
        self.code
    }

    pub fn set(&mut self, c: u8)
        ensures
            final(self).code() == c,
    {
        self.code = c;
        self.shared.store(c, Ordering::SeqCst);
    }
}

/// A handle that cancels one task from anywhere, including other threads.
#[derive(Clone)]
pub struct CancelToken {
    id: TaskId,
    flag: Arc<AtomicBool>,
    wake: WakeTx,
    abort_reason: Option<Arc<AtomicU8>>,
}

impl CancelToken {
    pub(crate) fn new(id: TaskId, flag: Arc<AtomicBool>, wake: WakeTx, abort_reason: Option<Arc<AtomicU8>>) -> (t: CancelToken)
        ensures
            t.task_id_spec() == id,
    {
        CancelToken { id, flag, wake, abort_reason }
    }

    pub closed spec fn task_id_spec(&self) -> TaskId {
        self.id
    }

    pub fn cancel(&self) {
        self.cancel_with_reason(CancelReason::UserRequest);
    }

    /// Raises the task's cancel flag, records `reason` as the abort code where the
    /// task is joinable and has none yet, and wakes the task. The flag and the code
    /// are shared with other threads, so their values are not stated.
    pub fn cancel_with_reason(&self, reason: CancelReason) {
        self.flag.store(true, Ordering::SeqCst);
        match &self.abort_reason {
            Some(ab) => {
                let cur = ab.load(Ordering::Relaxed);
                if cur == 0 {
                    ab.store(reason.as_u8(), Ordering::SeqCst);
                } else if cur == ABORT_PANICKED {
                    // a panicked task keeps its code
                }
            },
            None => {},
        }
        self.wake.send(WakeMsg { from: EXTERNAL_WAKE, to: self.id });
    }

    /// Reads the shared cancel flag; other threads may set it at any time.
    pub fn is_cancelled(&self) -> bool {
        self.flag.load(Ordering::Relaxed)
    }

    pub fn task_id(&self) -> (id: TaskId)
        ensures
            id == self.task_id_spec(),
    {
        self.id
    }
}

} // verus!
