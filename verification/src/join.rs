use vstd::prelude::*;
use crate::cancel_reason::{CancelReason, reason_of_code};
use crate::task::{JoinError, JoinPoll, TaskId};
use crate::wake::{RecvStatus, channel_new, receiver_recv, receiver_try_recv, sender_send};

verus! {

/// Abort code with which the scope marks a joinable task that panicked.
pub const PANICKED_ABORT_CODE: u8 = 255;

/// What one look at a join channel gives: a message is the task's result, an
/// empty channel means the task is not done, and a channel whose sender is gone
/// without a message means the task died (panicked).
pub open spec fn spec_join_poll_of<T>(s: RecvStatus<Result<T, JoinError>>) -> JoinPoll<T> {
    match s {
        RecvStatus::Msg(v) => JoinPoll::Ready(v),
        RecvStatus::Empty => JoinPoll::Pending,
        RecvStatus::Disconnected => JoinPoll::Ready(Err(JoinError::Panicked)),
    }
}

pub fn join_poll_of<T>(s: RecvStatus<Result<T, JoinError>>) -> (p: JoinPoll<T>)
    ensures
        p == spec_join_poll_of(s),
{
    match s {
        RecvStatus::Msg(v) => JoinPoll::Ready(v),
        RecvStatus::Empty => JoinPoll::Pending,
        RecvStatus::Disconnected => JoinPoll::Ready(Err(JoinError::Panicked)),
    }
}

/// What a blocking wait on a join channel gives: the message, or `Panicked`
/// when the sender is gone without one.
pub open spec fn spec_join_recv_of<T>(got: Option<Result<T, JoinError>>) -> Result<T, JoinError> {
    match got {
        Some(v) => v,
        None => Err(JoinError::Panicked),
    }
}

pub fn join_recv_of<T>(got: Option<Result<T, JoinError>>) -> (r: Result<T, JoinError>)
    ensures
        r == spec_join_recv_of(got),
{
    match got {
        Some(v) => v,
        None => Err(JoinError::Panicked),
    }
}

/// The reason a cancelled joinable task reports, from its abort code: an unset
/// code reads as `Unknown`.
pub open spec fn spec_reason_for_code(code: u8) -> CancelReason {
    if code == 0 { CancelReason::Unknown } else { reason_of_code(code) }
}

pub fn reason_for_code(code: u8) -> (r: CancelReason)
    ensures
        r == spec_reason_for_code(code),
{
    if code == 0 { CancelReason::Unknown } else { CancelReason::from_u8(code) }
}

/// The error that a joinable task reports when it is dropped without a result:
/// `Panicked` for the panicked marker, otherwise cancelled with the reason its
/// code gives.
pub open spec fn spec_drop_error_for_code(code: u8) -> JoinError {
    if code == PANICKED_ABORT_CODE {
        JoinError::Panicked
    } else {
        JoinError::Cancelled(spec_reason_for_code(code))
    }
}

pub fn drop_error_for_code(code: u8) -> (e: JoinError)
    ensures
        e == spec_drop_error_for_code(code),
{
    if code == PANICKED_ABORT_CODE {
        JoinError::Panicked
    } else {
        JoinError::Cancelled(reason_for_code(code))
    }
}

/// The sending side of a join channel.
#[verifier::reject_recursive_types(T)]
pub struct JoinSender<T> {
    tx: std::sync::mpsc::Sender<Result<T, JoinError>>,
}

impl<T> JoinSender<T> {
    pub fn send(&self, value: Result<T, JoinError>) {
        sender_send(&self.tx, value);
    }
}

/// Receives the result of a joinable task.
#[verifier::reject_recursive_types(T)]
pub struct JoinHandle<T> {
    pub task: TaskId,
    rx: std::sync::mpsc::Receiver<Result<T, JoinError>>,
    /// The last result a poll of this handle gave, if any.
    got: Ghost<Option<Result<T, JoinError>>>,
    /// How many times the handle was polled.
    polled: Ghost<nat>,
}

/// A join channel whose handle is to be bound to a task id once the task exists.
#[verifier::reject_recursive_types(T)]
pub struct JoinReceiver<T> {
    rx: std::sync::mpsc::Receiver<Result<T, JoinError>>,
}

pub fn join_channel<T>() -> (pair: (JoinSender<T>, JoinReceiver<T>)) {
    let (tx, rx) = channel_new::<Result<T, JoinError>>();
    (JoinSender { tx }, JoinReceiver { rx })
}

impl<T> JoinReceiver<T> {
    /// The handle for task `task`.
    pub fn bind(self, task: TaskId) -> (h: JoinHandle<T>)
        ensures
            h.producer() == task,
            h.delivered().is_none(),
            h.polls() == 0,
    {
        JoinHandle { task, rx: self.rx, got: Ghost(None), polled: Ghost(0) }
    }
}

impl<T> JoinHandle<T> {
    /// The task whose result this handle receives.
    pub closed spec fn producer(&self) -> TaskId {
        self.task
    }

    pub fn task_id(&self) -> (t: TaskId)
        ensures
            t == self.producer(),
    {
        self.task
    }

    /// The last result that a poll of this handle gave, if any.
    pub closed spec fn delivered(&self) -> Option<Result<T, JoinError>> {
        self.got@
    }

    /// How many times this handle was polled.
    pub closed spec fn polls(&self) -> nat {
        self.polled@
    }

    /// Looks once, without waiting: see `spec_join_poll_of`. Which outcome comes
    /// depends on the producing task; a result that comes is recorded as the
    /// handle's delivered result.
    pub fn poll(&mut self) -> (p: JoinPoll<T>)
        ensures
            final(self).producer() == old(self).producer(),
            final(self).polls() == old(self).polls() + 1,
            final(self).delivered() == match p {
                JoinPoll::Ready(v) => Some(v),
                JoinPoll::Pending => old(self).delivered(),
            },
    {
        let p = join_poll_of(receiver_try_recv(&self.rx));
        proof {
            self.polled@ = self.polled@ + 1;
            if p is Ready {
                self.got@ = Some(p->Ready_0);
            }
        }
        p
    }

    /// Waits for the result; a producer that is gone without one reads as
    /// panicked (see `spec_join_recv_of`). Which outcome comes depends on the
    /// producing task.
    pub fn recv(self) -> (r: Result<T, JoinError>) {
        join_recv_of(receiver_recv(&self.rx))
    }
}

/// The output side of a joinable task: it sends the task's result, or why there
/// is none, at most once.
#[verifier::reject_recursive_types(Out)]
pub struct JoinOutput<Out> {
    tx: Option<JoinSender<Out>>,
    sent: bool,
    log: Ghost<Seq<Result<Out, JoinError>>>,
}

impl<Out> JoinOutput<Out> {
    /// A result can still go out.
    pub closed spec fn is_open(&self) -> bool {
        self.tx.is_some()
    }

    /// The output side is done, whether or not a message went out.
    pub closed spec fn is_sent(&self) -> bool {
        self.sent
    }

    /// The messages sent so far.
    pub closed spec fn messages(&self) -> Seq<Result<Out, JoinError>> {
        self.log@
    }

    /// At most one message, and the channel is closed exactly once it went out.
    pub closed spec fn wf(&self) -> bool {
        &&& self.log@.len() <= 1
        &&& (self.tx.is_none() <==> self.log@.len() == 1)
    }

    pub fn new(tx: JoinSender<Out>) -> (o: JoinOutput<Out>)
        ensures
            o.wf(),
            o.is_open(),
            !o.is_sent(),
            o.messages() == Seq::<Result<Out, JoinError>>::empty(),
    {
        JoinOutput { tx: Some(tx), sent: false, log: Ghost(Seq::empty()) }
    }

    pub fn open(&self) -> (b: bool)
        ensures
            b == self.is_open(),
    {
        self.tx.is_some()
    }

    fn send_once(&mut self, msg: Result<Out, JoinError>)
        requires
            old(self).wf(),
        ensures
            final(self).wf(),
            !final(self).is_open(),
            final(self).is_sent() == old(self).is_sent(),
            final(self).messages() == if old(self).is_open() { old(self).messages().push(msg) } else { old(self).messages() },
    {
        let mut tx: Option<JoinSender<Out>> = None;
        std::mem::swap(&mut tx, &mut self.tx);
        match tx {
            Some(t) => {
                proof {
                    self.log = Ghost(self.log@.push(msg));
                }
                t.send(msg);
            },
            None => {},
        }
    }

    /// Cancellation dominates the output: where nothing went out yet, the task
    /// reports that it was cancelled, with the reason its abort code gives.
    pub fn report_cancelled(&mut self, code: u8)
        requires
            old(self).wf(),
        ensures
            final(self).wf(),
            final(self).is_sent(),
            final(self).messages() == if !old(self).is_sent() && old(self).is_open() {
                old(self).messages().push(Err(JoinError::Cancelled(spec_reason_for_code(code))))
            } else {
                old(self).messages()
            },
    {
        if !self.sent {
            self.send_once(Err(JoinError::Cancelled(reason_for_code(code))));
            self.sent = true;
        }
    }

    /// The task completed: its output, when there is one, goes out.
    pub fn report_output(&mut self, out: Option<Out>)
        requires
            old(self).wf(),
        ensures
            final(self).wf(),
            final(self).is_sent(),
            final(self).messages() == match out {
                Some(o) => if old(self).is_open() { old(self).messages().push(Ok(o)) } else { old(self).messages() },
                None => old(self).messages(),
            },
    {
        match out {
            Some(o) => self.send_once(Ok(o)),
            None => {},
        }
        self.sent = true;
    }

    /// The task is dropped: where nothing went out yet, the error its abort code
    /// gives goes out (see `spec_drop_error_for_code`).
    pub fn report_dropped(&mut self, code: u8)
        requires
            old(self).wf(),
        ensures
            final(self).wf(),
            final(self).messages() == if !old(self).is_sent() && old(self).is_open() {
                old(self).messages().push(Err(spec_drop_error_for_code(code)))
            } else {
                old(self).messages()
            },
    {
        if self.sent {
            return;
        }
        self.send_once(Err(drop_error_for_code(code)));
    }
}

/// A joinable task reports at most one message.
pub proof fn lemma_at_most_one_report<Out>(o: &JoinOutput<Out>)
    requires
        o.wf(),
    ensures
        o.messages().len() <= 1,
{
}

} // verus!
