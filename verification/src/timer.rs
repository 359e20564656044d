use vstd::prelude::*;
use crate::scope::{Cx, RequestView};
use crate::task::TaskPoll;
use crate::time::{Duration, Instant, saturating_add};

verus! {

/// What one poll of sleep task `s0` at clock reading `now` does, `s1` being the
/// task after it and `pend0`, `pend1` the poll's requests before and after: the
/// first poll fixes the deadline at `now + span`; the task is ready once `now`
/// reaches the deadline; otherwise, the first time it is pending, it asks to be
/// woken at the deadline.
pub open spec fn sleep_poll_effect(
    s0: SleepTask,
    s1: SleepTask,
    pend0: Seq<RequestView>,
    pend1: Seq<RequestView>,
    p: TaskPoll,
    now: u64,
) -> bool {
    let dl = match s0.deadline_spec() {
        Some(d) => d,
        None => Instant { nanos: saturating_add(now, s0.span().nanos) },
    };
    &&& s1.span() == s0.span()
    &&& s1.deadline_spec() == Some(dl)
    &&& (now >= dl.nanos ==> p == TaskPoll::Ready && pend1 == pend0 && s1.armed_spec() == s0.armed_spec())
    &&& (now < dl.nanos ==> p == TaskPoll::Pending && s1.armed_spec()
            && pend1 == if s0.armed_spec() { pend0 } else { pend0.push(RequestView::SleepUntil(dl.nanos)) })
}

/// A sleep task keeps the deadline that its first poll fixed: a later poll
/// leaves it as it is and is ready exactly when its reading is at or past it.
pub proof fn lemma_sleep_deadline_kept(
    s0: SleepTask,
    s1: SleepTask,
    pend0: Seq<RequestView>,
    pend1: Seq<RequestView>,
    p: TaskPoll,
    now: u64,
)
    requires
        s0.deadline_spec() is Some,
        sleep_poll_effect(s0, s1, pend0, pend1, p, now),
    ensures
        s1.deadline_spec() == s0.deadline_spec(),
        p == TaskPoll::Ready <==> now >= s0.deadline_spec()->Some_0.nanos,
{
}

/// Two polls of a fresh sleep task, at readings `r0` and then `r1`: the first
/// fixes the deadline at `r0` plus the span, and the second is ready exactly
/// when `r1` has reached it; a pending poll asks to be woken at the deadline
/// only the first time.
pub proof fn lemma_sleep_two_polls(
    s0: SleepTask,
    s1: SleepTask,
    s2: SleepTask,
    pend0: Seq<RequestView>,
    pend1: Seq<RequestView>,
    pend2: Seq<RequestView>,
    pend3: Seq<RequestView>,
    p1: TaskPoll,
    p2: TaskPoll,
    r0: u64,
    r1: u64,
)
    requires
        s0.deadline_spec() is None,
        !s0.armed_spec(),
        sleep_poll_effect(s0, s1, pend0, pend1, p1, r0),
        sleep_poll_effect(s1, s2, pend2, pend3, p2, r1),
    ensures
        ({
            let dl = saturating_add(r0, s0.span().nanos);
            &&& s1.deadline_spec() == Some(Instant { nanos: dl })
            &&& s2.deadline_spec() == Some(Instant { nanos: dl })
            &&& (p1 == TaskPoll::Ready <==> r0 >= dl)
            &&& (p2 == TaskPoll::Ready <==> r1 >= dl)
            &&& (p1 == TaskPoll::Pending ==> pend1 == pend0.push(RequestView::SleepUntil(dl)))
            &&& (p1 == TaskPoll::Pending && p2 == TaskPoll::Pending ==> pend3 == pend2)
        }),
{
}

/// A task that completes once a span of time has passed since its first poll.
pub struct SleepTask {
    dur: Duration,
    deadline: Option<Instant>,
    armed: bool,
}

impl SleepTask {
    pub fn new(dur: Duration) -> (t: SleepTask)
        ensures
            t.span() == dur,
            t.deadline_spec().is_none(),
            !t.armed_spec(),
    {
        SleepTask { dur, deadline: None, armed: false }
    }

    pub closed spec fn span(&self) -> Duration {
        self.dur
    }

    pub closed spec fn deadline_spec(&self) -> Option<Instant> {
        self.deadline
    }

    pub closed spec fn armed_spec(&self) -> bool {
        self.armed
    }

    /// One poll at clock reading `now`: see `sleep_poll_effect`.
    pub fn poll_at<R, T, Tr>(&mut self, cx: &mut Cx<'_, R, T, Tr>, now: Instant) -> (p: TaskPoll)
        ensures
            final(cx).same_base(old(cx)),
            sleep_poll_effect(*old(self), *final(self), old(cx).pending(), final(cx).pending(), p, now.nanos),
    {
        if self.deadline.is_none() {
            self.deadline = Some(now.plus(self.dur));
        }
        let dl = self.deadline.unwrap();
        if now.nanos >= dl.nanos {
            return TaskPoll::Ready;
        }
        if !self.armed {
            self.armed = true;
            cx.sleep_until(dl);
        }
        TaskPoll::Pending
    }

    /// One poll at the scope's current clock reading, whatever it is: see
    /// `sleep_poll_effect`.
    pub fn poll_with<R, T, Tr>(&mut self, cx: &mut Cx<'_, R, T, Tr>) -> (p: TaskPoll)
        ensures
            final(cx).same_base(old(cx)),
            exists|now: u64| #[trigger] sleep_poll_effect(*old(self), *final(self), old(cx).pending(), final(cx).pending(), p, now),
    {
        let now = cx.now();
        self.poll_at(cx, now)
    }
}

} // verus!
