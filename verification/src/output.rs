use vstd::prelude::*;
use crate::join::{JoinOutput, JoinSender, spec_reason_for_code, spec_drop_error_for_code};
use crate::scope::Cx;
use crate::task::{JoinError, TaskPoll};

verus! {

/// The task whose output a joinable task reports.
pub trait InnerTask<R, X, Tr>: Sized {
    fn poll_inner(&mut self, cx: &mut Cx<'_, R, X, Tr>) -> TaskPoll;
}

/// Makes the output of a finished task from the task and the poll context (its
/// shared resources).
pub trait Finisher<T, Out, R, X, Tr>: Sized {
    fn finish(self, inner: &mut T, cx: &mut Cx<'_, R, X, Tr>) -> Out;
}

/// A joinable task: it polls an inner task and reports, at most once, either
/// that it was cancelled or the output made from the finished inner task.
#[verifier::reject_recursive_types(Out)]
pub struct OutputTask<T, Out, F> {
    inner: T,
    finish: Option<F>,
    out: JoinOutput<Out>,
    produced: Ghost<Option<Out>>,
}

impl<T, Out, F> OutputTask<T, Out, F> {
    pub closed spec fn wf(&self) -> bool {
        self.out.wf()
    }

    /// The messages sent so far.
    pub closed spec fn messages(&self) -> Seq<Result<Out, JoinError>> {
        self.out.messages()
    }

    /// The task is done reporting.
    pub closed spec fn is_sent(&self) -> bool {
        self.out.is_sent()
    }

    /// A message can still go out.
    pub closed spec fn is_open(&self) -> bool {
        self.out.is_open()
    }

    /// The finisher has not been used yet.
    pub closed spec fn has_finisher(&self) -> bool {
        self.finish.is_some()
    }

    /// The output the finisher made, once it ran.
    pub closed spec fn produced(&self) -> Option<Out> {
        self.produced@
    }

    pub fn new(inner: T, finish: F, tx: JoinSender<Out>) -> (t: OutputTask<T, Out, F>)
        ensures
            t.wf(),
            t.is_open(),
            !t.is_sent(),
            t.has_finisher(),
            t.messages() == Seq::<Result<Out, JoinError>>::empty(),
    {
        OutputTask { inner, finish: Some(finish), out: JoinOutput::new(tx), produced: Ghost(None) }
    }

    /// One poll, the task's abort code being `code`. Cancellation dominates: a
    /// cancelled task reports that it was cancelled (with the reason `code` gives)
    /// and is ready without polling the inner task. Otherwise the inner task is
    /// polled; once it is ready, the finisher (where it is still there and a
    /// message can go out) makes the output, which is sent, and the task is ready.
    pub fn poll_with<R, X, Tr>(&mut self, cx: &mut Cx<'_, R, X, Tr>, code: u8) -> (p: TaskPoll)
        where T: InnerTask<R, X, Tr>, F: Finisher<T, Out, R, X, Tr>
        requires
            old(self).wf(),
        ensures
            final(self).wf(),
            old(cx).cancelled_now() ==> {
                &&& p == TaskPoll::Ready
                &&& final(self).is_sent()
                &&& final(self).messages() == if !old(self).is_sent() && old(self).is_open() {
                    old(self).messages().push(Err(JoinError::Cancelled(spec_reason_for_code(code))))
                } else {
                    old(self).messages()
                }
            },
            !old(cx).cancelled_now() && p == TaskPoll::Pending ==> {
                &&& final(self).messages() == old(self).messages()
                &&& final(self).is_sent() == old(self).is_sent()
                &&& final(self).is_open() == old(self).is_open()
                &&& final(self).has_finisher() == old(self).has_finisher()
            },
            !old(cx).cancelled_now() && p == TaskPoll::Ready ==> {
                &&& final(self).is_sent()
                &&& !final(self).has_finisher()
                &&& if old(self).has_finisher() && old(self).is_open() {
                    &&& final(self).produced() is Some
                    &&& final(self).messages() == old(self).messages().push(Ok(final(self).produced()->Some_0))
                } else {
                    final(self).messages() == old(self).messages()
                }
            },
    {
        if cx.is_cancelled() {
            self.out.report_cancelled(code);
            return TaskPoll::Ready;
        }
        match self.inner.poll_inner(cx) {
            TaskPoll::Pending => TaskPoll::Pending,
            TaskPoll::Ready => {
                let mut f: Option<F> = None;
                std::mem::swap(&mut f, &mut self.finish);
                let value = match f {
                    Some(f) => {
                        if self.out.open() {
                            let v = f.finish(&mut self.inner, cx);
                            proof {
                                self.produced@ = Some(v);
                            }
                            Some(v)
                        } else {
                            None
                        }
                    },
                    None => None,
                };
                self.out.report_output(value);
                TaskPoll::Ready
            },
        }
    }

    /// The task is dropped with abort code `code`: where nothing went out yet, the
    /// error that the code gives goes out (see `spec_drop_error_for_code`).
    pub fn report_dropped(&mut self, code: u8)
        requires
            old(self).wf(),
        ensures
            final(self).wf(),
            final(self).messages() == if !old(self).is_sent() && old(self).is_open() {
                old(self).messages().push(Err(spec_drop_error_for_code(code)))
            } else {
                old(self).messages()
            },
    {
        self.out.report_dropped(code);
    }
}

} // verus!
