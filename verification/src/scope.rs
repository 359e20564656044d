use vstd::prelude::*;
use std::collections::VecDeque;
use crate::cancel::AbortCell;
use crate::cancel_policy::{CancelBudgets, CancelEscalation, TickEscalation, TimeEscalation, resolve_cancel_budgets, spec_budgets};
use crate::cancel_reason::{CancelReason, reason_code, reason_of_code, reason_is_timeout};
use crate::deadline_queue::{DeadlineQueue, is_min_of, sorted_desc, sorted_insert, entry_le};
use crate::task::{TaskId, TaskState, TaskPoll, WakeMsg, EXTERNAL_WAKE};
use crate::time::{Clock, Duration, Instant, saturating_add};
use crate::trace::Tracer;
use crate::wake::{WakeTx, WakeRx, WakeSender, WakeRecvTimeout, wake_channel};

verus! {

/// Abort code with which the scope marks a joinable task that panicked.
pub const PANICKED_CODE: u8 = 255;

// ----------------------------- the model -----------------------------

/// What the scope knows of one task.
pub struct TaskView {
    pub name: Seq<char>,
    pub state: TaskState,
    /// The task sits in the ready queue.
    pub queued: bool,
    /// Tasks to wake when this one finishes.
    pub finish_waiters: Seq<TaskId>,
    /// Clock reading (in nanoseconds) at which a sleeping task is to be woken.
    pub sleeping_until: Option<u64>,
    pub cancel_flag: bool,
    /// Code of the current cancel reason (see `reason_code`).
    pub cancel_reason: u8,
    /// Abort code of a joinable task; `None` for a task that is not joinable.
    pub abort_code: Option<u8>,
    /// Tick at which a cancel request hard-stops the task.
    pub cancel_deadline: Option<u64>,
    /// Clock reading at which a cancel request hard-stops the task.
    pub cancel_time_deadline: Option<u64>,
    /// The scope still holds the task's body.
    pub has_body: bool,
    /// How many times the task's body was polled.
    pub polls: nat,
}

/// What the scope knows, apart from its tracer and the task bodies.
pub struct SchedView {
    pub tasks: Seq<TaskView>,
    /// Number of tasks that are alive.
    pub active: nat,
    pub ready: Seq<TaskId>,
    /// Wake messages sent from this thread and not yet taken in.
    pub wakes: Seq<WakeMsg>,
    /// Spawn requests (parent, name) not yet taken in.
    pub spawns: Seq<(TaskId, Seq<char>)>,
    pub io_waiters: Seq<Seq<TaskId>>,
    pub sleep_queue: Seq<(u64, usize)>,
    pub tick_count: u64,
    pub default_cancel_ticks: u64,
    pub cancel_queue: Seq<(u64, usize)>,
    pub default_cancel_time: Option<Duration>,
    pub cancel_time_queue: Seq<(u64, usize)>,
    pub poll_seq: u64,
    /// The latest clock reading the scope has taken; its readings never go below it.
    pub clock_floor: u64,
}

pub open spec fn is_alive(t: TaskView) -> bool {
    t.state == TaskState::Alive
}

/// Number of alive tasks in `s`.
pub open spec fn alive_count(s: Seq<TaskView>) -> nat
    decreases s.len(),
{
    if s.len() == 0 {
        0
    } else {
        alive_count(s.drop_last()) + if is_alive(s.last()) { 1nat } else { 0nat }
    }
}

/// `id` names a task of `v` that is alive.
pub open spec fn alive_in(v: SchedView, id: int) -> bool {
    0 <= id < v.tasks.len() && is_alive(v.tasks[id])
}

/// The scope's bookkeeping is consistent: `active` counts the alive tasks, the
/// ready queue holds each task at most once, and a task is marked queued exactly
/// when it is alive and in the ready queue.
pub open spec fn sched_wf(v: SchedView) -> bool {
    &&& v.active == alive_count(v.tasks)
    &&& forall|i: int, j: int| 0 <= i < j < v.ready.len() ==> v.ready[i] != v.ready[j]
    &&& forall|k: int| 0 <= k < v.ready.len() ==> v.ready[k] < v.tasks.len()
    &&& forall|i: TaskId| #![trigger v.tasks[i as int]] i < v.tasks.len() ==> (v.tasks[i as int].queued <==> (is_alive(v.tasks[i as int]) && v.ready.contains(i)))
    &&& forall|i: int| 0 <= i < v.tasks.len() ==> (v.tasks[i].has_body <==> is_alive(v.tasks[i]))
}

/// A freshly spawned task.
pub open spec fn new_task_view(name: Seq<char>) -> TaskView {
    TaskView {
        name,
        state: TaskState::Alive,
        queued: false,
        finish_waiters: Seq::empty(),
        sleeping_until: None,
        cancel_flag: false,
        cancel_reason: 0,
        abort_code: None,
        cancel_deadline: None,
        cancel_time_deadline: None,
        has_body: true,
        polls: 0,
    }
}

/// Puts task `id` at the back of the ready queue, unless it is not an alive task
/// or is queued already.
pub open spec fn spec_enqueue(v: SchedView, id: TaskId) -> SchedView {
    if id < v.tasks.len() && is_alive(v.tasks[id as int]) && !v.tasks[id as int].queued {
        SchedView {
            tasks: v.tasks.update(id as int, TaskView { queued: true, ..v.tasks[id as int] }),
            ready: v.ready.push(id),
            ..v
        }
    } else {
        v
    }
}

/// Adds a task at the end and queues it.
pub open spec fn spec_push_task(v: SchedView, name: Seq<char>) -> SchedView {
    spec_enqueue(
        SchedView { tasks: v.tasks.push(new_task_view(name)), active: v.active + 1, ..v },
        v.tasks.len() as TaskId,
    )
}

/// The wake messages that a finishing task sends to its waiters.
pub open spec fn waiter_wakes(id: TaskId, waiters: Seq<TaskId>) -> Seq<WakeMsg> {
    waiters.map_values(|w: TaskId| WakeMsg { from: id, to: w })
}

/// Task `id` ends in `state`: its body is dropped, its timers and cancel reason
/// are cleared, and each of its finish waiters gets a wake message.
pub open spec fn spec_finish(v: SchedView, id: TaskId, state: TaskState) -> SchedView {
    let t = v.tasks[id as int];
    SchedView {
        tasks: v.tasks.update(
            id as int,
            TaskView {
                state,
                queued: false,
                finish_waiters: Seq::empty(),
                sleeping_until: None,
                cancel_reason: 0,
                cancel_deadline: None,
                cancel_time_deadline: None,
                has_body: false,
                ..t
            },
        ),
        active: (v.active - 1) as nat,
        wakes: v.wakes + waiter_wakes(id, t.finish_waiters),
        ..v
    }
}

/// The scope's own rule for cancel reasons: the first real reason stays, except
/// that a timeout may replace it.
pub open spec fn scope_replaces(cur: CancelReason, new: CancelReason) -> bool {
    match cur {
        CancelReason::NoReason => true,
        CancelReason::Unknown => true,
        _ => reason_is_timeout(new),
    }
}

/// Records `reason` for a task under the scope's rule, in its cancel reason and,
/// for a joinable task that has not panicked, in its abort code.
pub open spec fn spec_set_reason_task(t: TaskView, reason: CancelReason) -> TaskView {
    if !scope_replaces(reason_of_code(t.cancel_reason), reason) {
        t
    } else {
        TaskView {
            cancel_reason: reason_code(reason),
            abort_code: match t.abort_code {
                Some(c) => if c == PANICKED_CODE || (c != 0 && !scope_replaces(reason_of_code(c), reason)) {
                    Some(c)
                } else {
                    Some(reason_code(reason))
                },
                None => None,
            },
            ..t
        }
    }
}

pub open spec fn spec_set_reason(v: SchedView, id: TaskId, reason: CancelReason) -> SchedView {
    if id < v.tasks.len() {
        SchedView { tasks: v.tasks.update(id as int, spec_set_reason_task(v.tasks[id as int], reason)), ..v }
    } else {
        v
    }
}

/// An abort code that is still unset takes `reason`'s code.
pub open spec fn fill_abort_code(a: Option<u8>, reason: CancelReason) -> Option<u8> {
    match a {
        Some(c) => if c != PANICKED_CODE && c == 0 { Some(reason_code(reason)) } else { Some(c) },
        None => None,
    }
}

/// Hard stop of task `id`: where it is alive, it records `reason`, raises its
/// cancel flag, clears its deadlines and ends `Cancelled`; otherwise nothing
/// changes.
pub open spec fn spec_cancel_now(v: SchedView, id: TaskId, reason: CancelReason) -> SchedView {
    if id < v.tasks.len() && is_alive(v.tasks[id as int]) {
        let v1 = spec_set_reason(v, id, reason);
        let t1 = v1.tasks[id as int];
        let t2 = TaskView {
            cancel_flag: true,
            cancel_deadline: None,
            cancel_time_deadline: None,
            abort_code: fill_abort_code(t1.abort_code, reason),
            ..t1
        };
        spec_finish(SchedView { tasks: v1.tasks.update(id as int, t2), ..v1 }, id, TaskState::Cancelled)
    } else {
        v
    }
}

/// Tasks never come back to life, and never disappear.
pub open spec fn finished_stay_finished(old: SchedView, new: SchedView) -> bool {
    &&& old.tasks.len() <= new.tasks.len()
    &&& forall|i: int| 0 <= i < old.tasks.len() && !is_alive(old.tasks[i]) ==> new.tasks[i].state == old.tasks[i].state
}

/// The wake messages that go out to the tasks woken by an I/O source.
pub open spec fn io_wakes(woken: Seq<TaskId>) -> Seq<WakeMsg> {
    woken.map_values(|t: TaskId| WakeMsg { from: EXTERNAL_WAKE, to: t })
}

/// Source `token` became readable: each task waiting on it is woken, and it has
/// no waiters left. A token that no task ever waited on changes nothing.
pub open spec fn spec_notify_readable(v: SchedView, token: usize) -> SchedView {
    if token < v.io_waiters.len() {
        SchedView {
            io_waiters: v.io_waiters.update(token as int, Seq::empty()),
            wakes: v.wakes + io_wakes(v.io_waiters[token as int]),
            ..v
        }
    } else {
        v
    }
}

/// `waiter` is to be woken when `target` finishes.
pub open spec fn spec_subscribe_finish(v: SchedView, waiter: TaskId, target: TaskId) -> SchedView {
    if target < v.tasks.len() {
        let t = v.tasks[target as int];
        SchedView {
            tasks: v.tasks.update(target as int, TaskView { finish_waiters: t.finish_waiters.push(waiter), ..t }),
            ..v
        }
    } else {
        v
    }
}

/// The waiter lists, grown so that `token` has one.
pub open spec fn io_grown(io: Seq<Seq<TaskId>>, token: usize) -> Seq<Seq<TaskId>> {
    if token < io.len() {
        io
    } else {
        io + Seq::new((token + 1 - io.len()) as nat, |i: int| Seq::<TaskId>::empty())
    }
}

/// `task` waits for source `token` to become readable.
pub open spec fn spec_subscribe_io(v: SchedView, task: TaskId, token: usize) -> SchedView {
    let io = io_grown(v.io_waiters, token);
    SchedView { io_waiters: io.update(token as int, io[token as int].push(task)), ..v }
}

/// `task` sleeps until clock reading `deadline`.
pub open spec fn spec_subscribe_sleep(v: SchedView, task: TaskId, deadline: u64) -> SchedView {
    if task < v.tasks.len() {
        let t = v.tasks[task as int];
        SchedView {
            tasks: v.tasks.update(task as int, TaskView { sleeping_until: Some(deadline), ..t }),
            sleep_queue: sorted_insert(v.sleep_queue, (deadline, task)),
            ..v
        }
    } else {
        v
    }
}

/// Sets the tick and time deadlines of task `id` from resolved budgets `b`, the
/// clock reading being `now`.
pub open spec fn spec_schedule_deadlines(v: SchedView, id: TaskId, b: CancelBudgets, now: u64) -> SchedView {
    let v1 = if b.tick_budget > 0 {
        let dl = saturating_add(v.tick_count, b.tick_budget);
        SchedView {
            tasks: v.tasks.update(id as int, TaskView { cancel_deadline: Some(dl), ..v.tasks[id as int] }),
            cancel_queue: sorted_insert(v.cancel_queue, (dl, id)),
            ..v
        }
    } else {
        SchedView { tasks: v.tasks.update(id as int, TaskView { cancel_deadline: None, ..v.tasks[id as int] }), ..v }
    };
    match b.time_budget {
        Some(d) => {
            let dl = saturating_add(now, d.nanos);
            SchedView {
                tasks: v1.tasks.update(id as int, TaskView { cancel_time_deadline: Some(dl), ..v1.tasks[id as int] }),
                cancel_time_queue: sorted_insert(v1.cancel_time_queue, (dl, id)),
                ..v1
            }
        },
        None => SchedView {
            tasks: v1.tasks.update(id as int, TaskView { cancel_time_deadline: None, ..v1.tasks[id as int] }),
            ..v1
        },
    }
}

/// A cancel request made from inside a poll, at clock reading `now`: where
/// `target` is alive, its reason and abort code are recorded, its flag is raised,
/// it is woken, and its hard stop is scheduled (an immediate one at `now`, since
/// no task can be ended while another is being polled).
pub open spec fn spec_hook_cancel(v: SchedView, target: TaskId, esc: CancelEscalation, reason: CancelReason, now: u64) -> SchedView {
    if target < v.tasks.len() && is_alive(v.tasks[target as int]) {
        let t = v.tasks[target as int];
        let t1 = if scope_replaces(reason_of_code(t.cancel_reason), reason) {
            TaskView { cancel_reason: reason_code(reason), ..t }
        } else {
            t
        };
        let t2 = TaskView { abort_code: fill_abort_code(t1.abort_code, reason), cancel_flag: true, ..t1 };
        let v2 = SchedView {
            tasks: v.tasks.update(target as int, t2),
            wakes: v.wakes.push(WakeMsg { from: EXTERNAL_WAKE, to: target }),
            ..v
        };
        let b = spec_budgets(v.default_cancel_ticks, v.default_cancel_time, esc);
        if b.immediate {
            SchedView {
                tasks: v2.tasks.update(target as int, TaskView { cancel_time_deadline: Some(now), ..t2 }),
                cancel_time_queue: sorted_insert(v2.cancel_time_queue, (now, target)),
                ..v2
            }
        } else {
            spec_schedule_deadlines(v2, target, b, now)
        }
    } else {
        v
    }
}

/// A cancel request made through the scope, at clock reading `now`: where `id` is
/// alive, its reason is recorded under the scope's rule, its flag is raised, it
/// is woken, and it is hard-stopped at once when the escalation resolves to
/// immediate, or has its deadlines scheduled otherwise.
pub open spec fn spec_request_cancel(v: SchedView, id: TaskId, esc: CancelEscalation, reason: CancelReason, now: u64) -> SchedView {
    if id < v.tasks.len() && is_alive(v.tasks[id as int]) {
        let v1 = spec_set_reason(v, id, reason);
        let v2 = SchedView {
            tasks: v1.tasks.update(id as int, TaskView { cancel_flag: true, ..v1.tasks[id as int] }),
            wakes: v1.wakes.push(WakeMsg { from: EXTERNAL_WAKE, to: id }),
            ..v1
        };
        let b = spec_budgets(v.default_cancel_ticks, v.default_cancel_time, esc);
        if b.immediate {
            spec_cancel_now(v2, id, reason)
        } else {
            spec_schedule_deadlines(v2, id, b, now)
        }
    } else {
        v
    }
}

/// Hard stop of task `id` for a tick deadline `dl` that has come: it happens only
/// where the task is alive, still has that deadline, and is still cancelled.
pub open spec fn spec_fire_cancel_entry(v: SchedView, dl: u64, id: usize) -> SchedView {
    if id < v.tasks.len() && is_alive(v.tasks[id as int]) && v.tasks[id as int].cancel_deadline == Some(dl)
        && v.tasks[id as int].cancel_flag {
        spec_cancel_now(v, id, CancelReason::TimeoutTicks)
    } else {
        v
    }
}

/// Takes every tick deadline that has come (key at most the tick count) out of
/// the queue, smallest first, hard-stopping the tasks still due.
pub open spec fn spec_fire_cancels(v: SchedView) -> SchedView
    decreases v.cancel_queue.len(),
{
    if v.cancel_queue.len() == 0 || v.cancel_queue.last().0 > v.tick_count {
        v
    } else {
        let (dl, id) = v.cancel_queue.last();
        let v1 = SchedView { cancel_queue: v.cancel_queue.drop_last(), ..v };
        spec_fire_cancels(spec_fire_cancel_entry(v1, dl, id))
    }
}

/// As `spec_fire_cancel_entry`, for a time deadline.
pub open spec fn spec_fire_cancel_time_entry(v: SchedView, dl: u64, id: usize) -> SchedView {
    if id < v.tasks.len() && is_alive(v.tasks[id as int]) && v.tasks[id as int].cancel_time_deadline == Some(dl)
        && v.tasks[id as int].cancel_flag {
        spec_cancel_now(v, id, CancelReason::TimeoutTime)
    } else {
        v
    }
}

/// Takes every time deadline at or before clock reading `now` out of the queue,
/// smallest first, hard-stopping the tasks still due.
pub open spec fn spec_fire_cancel_times(v: SchedView, now: u64) -> SchedView
    decreases v.cancel_time_queue.len(),
{
    if v.cancel_time_queue.len() == 0 || v.cancel_time_queue.last().0 > now {
        v
    } else {
        let (dl, id) = v.cancel_time_queue.last();
        let v1 = SchedView { cancel_time_queue: v.cancel_time_queue.drop_last(), ..v };
        spec_fire_cancel_times(spec_fire_cancel_time_entry(v1, dl, id), now)
    }
}

/// A sleep deadline `dl` of `task` has come: where the task is alive and still
/// sleeps until `dl`, it stops sleeping and is woken.
pub open spec fn spec_fire_timer_entry(v: SchedView, dl: u64, task: usize) -> SchedView {
    if task < v.tasks.len() && v.tasks[task as int].sleeping_until == Some(dl) && is_alive(v.tasks[task as int]) {
        SchedView {
            tasks: v.tasks.update(task as int, TaskView { sleeping_until: None, ..v.tasks[task as int] }),
            wakes: v.wakes.push(WakeMsg { from: EXTERNAL_WAKE, to: task }),
            ..v
        }
    } else {
        v
    }
}

/// Takes every sleep deadline at or before `now` out of the queue, smallest
/// first, waking the tasks still due.
pub open spec fn spec_fire_timers(v: SchedView, now: u64) -> SchedView
    decreases v.sleep_queue.len(),
{
    if v.sleep_queue.len() == 0 || v.sleep_queue.last().0 > now {
        v
    } else {
        let (dl, task) = v.sleep_queue.last();
        let v1 = SchedView { sleep_queue: v.sleep_queue.drop_last(), ..v };
        spec_fire_timers(spec_fire_timer_entry(v1, dl, task), now)
    }
}

/// Takes in wake messages in order: each queues its target.
pub open spec fn spec_enqueue_all(v: SchedView, msgs: Seq<WakeMsg>) -> SchedView
    decreases msgs.len(),
{
    if msgs.len() == 0 {
        v
    } else {
        spec_enqueue_all(spec_enqueue(v, msgs[0].to), msgs.drop_first())
    }
}

/// Takes in every wake message sent from this thread, oldest first.
pub open spec fn spec_drain_wakes(v: SchedView) -> SchedView {
    spec_enqueue_all(SchedView { wakes: Seq::empty(), ..v }, v.wakes)
}

/// Takes in every spawn request, oldest first (each task gets the next id).
pub open spec fn spec_drain_spawns(v: SchedView) -> SchedView
    decreases v.spawns.len(),
{
    if v.spawns.len() == 0 || v.tasks.len() >= usize::MAX {
        v
    } else {
        spec_drain_spawns(spec_push_task(SchedView { spawns: v.spawns.drop_first(), ..v }, v.spawns[0].1))
    }
}

/// A request that a task makes of its scope while it is polled, as the scope
/// sees it.
pub enum RequestView {
    Wake(TaskId),
    SubscribeFinish(TaskId),
    Spawn(Seq<char>),
    WaitReadable(usize),
    SleepUntil(u64),
    Cancel(TaskId, CancelEscalation, CancelReason),
}

/// What request `r` of task `id` does, the clock reading being `now`.
pub open spec fn spec_apply_request(v: SchedView, id: TaskId, r: RequestView, now: u64) -> SchedView {
    match r {
        RequestView::Wake(to) => SchedView { wakes: v.wakes.push(WakeMsg { from: id, to }), ..v },
        RequestView::SubscribeFinish(target) => spec_subscribe_finish(v, id, target),
        RequestView::Spawn(name) => SchedView { spawns: v.spawns.push((id, name)), ..v },
        RequestView::WaitReadable(token) => if token < usize::MAX { spec_subscribe_io(v, id, token) } else { v },
        RequestView::SleepUntil(deadline) => spec_subscribe_sleep(v, id, deadline),
        RequestView::Cancel(target, esc, reason) => spec_hook_cancel(v, target, esc, reason, now),
    }
}

/// The requests of task `id`, carried out in the order they were made.
pub open spec fn spec_apply_requests(v: SchedView, id: TaskId, rs: Seq<RequestView>, now: u64) -> SchedView
    decreases rs.len(),
{
    if rs.len() == 0 {
        v
    } else {
        spec_apply_requests(spec_apply_request(v, id, rs[0], now), id, rs.drop_first(), now)
    }
}

/// What one scheduling step did.
pub enum TickResult {
    Progress,
    Idle,
    Done,
}

/// What a run loop does after a scheduling step.
#[derive(Debug, Clone, Copy, PartialEq, Eq, Structural)]
pub enum RunStep {
    /// Step again at once.
    Continue,
    /// Stop; `true` when every task finished.
    Finish(bool),
    /// Wait for a wake message, at most the given time (or until one comes).
    Wait(Option<Duration>),
}

/// The shorter of two spans.
pub open spec fn min_duration(a: Duration, b: Duration) -> Duration {
    if a.nanos <= b.nanos { a } else { b }
}

/// The run loop's decision after a step that reported `r`, with `next` the time
/// to the scope's next deadline and `remain` the time left to the loop (`None`:
/// no limit): go on after progress; finish after done; when idle, wait until the
/// next deadline, and no longer than the time left, or give up once no time is
/// left.
pub open spec fn spec_run_step(r: TickResult, remain: Option<Duration>, next: Option<Duration>) -> RunStep {
    match r {
        TickResult::Progress => RunStep::Continue,
        TickResult::Done => RunStep::Finish(true),
        TickResult::Idle => match remain {
            None => RunStep::Wait(next),
            Some(left) => if left.nanos == 0 {
                RunStep::Finish(false)
            } else {
                RunStep::Wait(Some(match next {
                    Some(n) => min_duration(n, left),
                    None => left,
                }))
            },
        },
    }
}

pub fn run_step(r: TickResult, remain: Option<Duration>, next: Option<Duration>) -> (s: RunStep)
    ensures
        s == spec_run_step(r, remain, next),
{
    match r {
        TickResult::Progress => RunStep::Continue,
        TickResult::Done => RunStep::Finish(true),
        TickResult::Idle => match remain {
            None => RunStep::Wait(next),
            Some(left) => if left.nanos == 0 {
                RunStep::Finish(false)
            } else {
                RunStep::Wait(Some(match next {
                    Some(n) => if n.nanos <= left.nanos { n } else { left },
                    None => left,
                }))
            },
        },
    }
}

/// What one poll of a task can report.
#[derive(Debug, Clone, Copy, PartialEq, Eq, Structural)]
pub enum PollOutcome {
    Pending,
    Ready,
    Panicked,
}

/// A panicked joinable task gets the panicked marker as its abort code.
pub open spec fn spec_mark_panicked(v: SchedView, id: TaskId) -> SchedView {
    let t = v.tasks[id as int];
    SchedView {
        tasks: v.tasks.update(id as int, TaskView {
            abort_code: match t.abort_code { Some(c) => Some(PANICKED_CODE), None => None },
            ..t
        }),
        ..v
    }
}

/// The effect of one poll of alive task `id`, given what the poll reported, the
/// requests it made and the clock reading: the task's poll count goes up by one,
/// the requests take effect in order, then
/// the task stays alive, completes, or is marked panicked and ends `Panicked`.
pub open spec fn spec_after_poll(v: SchedView, id: TaskId, outcome: PollOutcome, rs: Seq<RequestView>, now: u64) -> SchedView {
    let v0 = SchedView {
        poll_seq: saturating_add(v.poll_seq, 1),
        tasks: v.tasks.update(id as int, TaskView { polls: v.tasks[id as int].polls + 1, ..v.tasks[id as int] }),
        clock_floor: now,
        ..v
    };
    let v1 = spec_apply_requests(v0, id, rs, now);
    match outcome {
        PollOutcome::Pending => v1,
        PollOutcome::Ready => spec_finish(v1, id, TaskState::Completed),
        PollOutcome::Panicked => spec_finish(spec_mark_panicked(v1, id), id, TaskState::Panicked),
    }
}

/// What a scheduling step does before it polls: it counts the tick, hard-stops
/// the tasks whose tick deadline has come, then those whose time deadline is at or
/// before clock reading `now1`, wakes the sleepers due at clock reading `now2` (each
/// reading becoming the latest one), takes
/// in the deferred spawns, the wakes sent from this thread, and last `msgs`, the
/// wakes that came through the channel.
pub open spec fn spec_tick_prepare(v: SchedView, now1: u64, now2: u64, msgs: Seq<WakeMsg>) -> SchedView {
    let counted = SchedView { tick_count: saturating_add(v.tick_count, 1), ..v };
    let ticked = SchedView { clock_floor: now1, ..spec_fire_cancels(counted) };
    let timed = SchedView { clock_floor: now2, ..spec_fire_cancel_times(ticked, now1) };
    let fired = spec_fire_timers(timed, now2);
    spec_enqueue_all(spec_drain_wakes(spec_drain_spawns(fired)), msgs)
}

/// One scheduling step. With no task alive it changes nothing and reports `Done`.
/// Otherwise it prepares (see `spec_tick_prepare`); with the ready queue then empty
/// it reports `Idle`; else it takes the task at the front of the queue, polls it if
/// it is alive (see `spec_after_poll`, with what the poll reported and asked and the
/// clock reading `now3`), and reports `Progress`.
pub open spec fn spec_tick(
    v: SchedView,
    now1: u64,
    now2: u64,
    msgs: Seq<WakeMsg>,
    outcome: PollOutcome,
    rs: Seq<RequestView>,
    now3: u64,
) -> (SchedView, TickResult) {
    if v.active == 0 {
        (v, TickResult::Done)
    } else {
        let p = spec_tick_prepare(v, now1, now2, msgs);
        if p.ready.len() == 0 {
            (p, TickResult::Idle)
        } else {
            let id = p.ready[0];
            let q = SchedView {
                tasks: p.tasks.update(id as int, TaskView { queued: false, ..p.tasks[id as int] }),
                ready: p.ready.drop_first(),
                ..p
            };
            if is_alive(q.tasks[id as int]) {
                (spec_after_poll(q, id, outcome, rs, now3), TickResult::Progress)
            } else {
                (q, TickResult::Progress)
            }
        }
    }
}

/// `w` and `r` are what one scheduling step can make of `v`, for some channel
/// wakes, poll, and clock readings that never go below the scope's latest one nor
/// below each other.
pub open spec fn is_tick(v: SchedView, w: SchedView, r: TickResult) -> bool {
    exists|now1: u64, now2: u64, msgs: Seq<WakeMsg>, outcome: PollOutcome, rs: Seq<RequestView>, now3: u64|
        #![trigger spec_tick(v, now1, now2, msgs, outcome, rs, now3)]
        v.clock_floor <= now1 <= now2 <= now3 && (w, r) == spec_tick(v, now1, now2, msgs, outcome, rs, now3)
}

/// `states` are the successive states of a run of scheduling steps that reported
/// `results`, each step but the last reporting `Progress`.
pub open spec fn is_tick_run(states: Seq<SchedView>, results: Seq<TickResult>) -> bool {
    &&& states.len() == results.len() + 1
    &&& forall|i: int| 0 <= i < results.len() ==> is_tick(states[i], states[i + 1], #[trigger] results[i])
    &&& forall|i: int| 0 <= i < results.len() - 1 ==> #[trigger] results[i] is Progress
}

/// What taking in the outcome `got` of a wait on the wake channel does, and
/// whether the channel is still connected: a message queues its target, a timeout
/// changes nothing, and a channel whose senders are all gone changes nothing and
/// reads as disconnected.
pub open spec fn spec_take_wake(v: SchedView, got: WakeRecvTimeout) -> (SchedView, bool) {
    match got {
        WakeRecvTimeout::Msg(m) => (spec_enqueue(v, m.to), true),
        WakeRecvTimeout::Timeout => (v, true),
        WakeRecvTimeout::Disconnected => (v, false),
    }
}

/// An event that the scope reports to its tracer.
pub enum TraceEvent {
    Spawn(TaskId, Seq<char>),
    Finish(TaskId, Seq<char>, TaskState),
    CancelHardStop(TaskId, CancelReason),
    /// A cancel request: the task, the reason, and the tick and time budgets
    /// where they are set.
    CancelRequest(TaskId, CancelReason, Option<u64>, Option<Duration>),
    IoNotifyReadable(usize, Seq<TaskId>),
    IoWaitReadable(TaskId, usize),
    SubscribeFinish(TaskId, TaskId),
    SleepUntil(TaskId, u64),
    Wake(TaskId, TaskId),
    DeferSpawn(TaskId, Seq<char>),
    PollSeq(u64, TaskId, Seq<char>),
    PollBegin(TaskId, Seq<char>),
    PollEnd(TaskId, Seq<char>),
}

/// The tick budget reported for budgets `b`: none when it is 0.
pub open spec fn reported_tick_budget(b: CancelBudgets) -> Option<u64> {
    if b.tick_budget > 0 { Some(b.tick_budget) } else { None }
}

/// The time budget reported for budgets `b`: none when it is unset or zero.
pub open spec fn reported_time_budget(b: CancelBudgets) -> Option<Duration> {
    match b.time_budget {
        Some(d) => if d.nanos == 0 { None } else { Some(d) },
        None => None,
    }
}

/// `v` once the clock reading `now` has been taken.
pub open spec fn at_reading(v: SchedView, now: u64) -> SchedView {
    SchedView { clock_floor: now, ..v }
}

/// Time from clock reading `now` to the next deadline, if any.
pub open spec fn spec_time_to_next(v: SchedView, now: u64) -> Option<Duration> {
    match spec_next_deadline(v) {
        None => None,
        Some(dl) => Some(Duration { nanos: crate::time::saturating_sub(dl, now) }),
    }
}

/// The earliest clock reading at which a sleep or a cancel time deadline is due.
pub open spec fn spec_next_deadline(v: SchedView) -> Option<u64> {
    let a = if v.sleep_queue.len() > 0 { Some(v.sleep_queue.last().0) } else { None::<u64> };
    let b = if v.cancel_time_queue.len() > 0 { Some(v.cancel_time_queue.last().0) } else { None::<u64> };
    match (a, b) {
        (None, None) => None,
        (Some(x), None) => Some(x),
        (None, Some(y)) => Some(y),
        (Some(x), Some(y)) => Some(if x <= y { x } else { y }),
    }
}

// ----------------------------- proofs about the model -----------------------------

pub proof fn lemma_alive_count_push(s: Seq<TaskView>, t: TaskView)
    ensures
        alive_count(s.push(t)) == alive_count(s) + if is_alive(t) { 1nat } else { 0nat },
{
    assert(s.push(t).drop_last() =~= s);
}

pub proof fn lemma_alive_count_update(s: Seq<TaskView>, i: int, t: TaskView)
    requires
        0 <= i < s.len(),
    ensures
        alive_count(s.update(i, t)) + (if is_alive(s[i]) { 1nat } else { 0nat })
            == alive_count(s) + (if is_alive(t) { 1nat } else { 0nat }),
    decreases s.len(),
{
    if i == s.len() - 1 {
        assert(s.update(i, t).drop_last() =~= s.drop_last());
    } else {
        lemma_alive_count_update(s.drop_last(), i, t);
        assert(s.update(i, t).drop_last() =~= s.drop_last().update(i, t));
    }
}

pub proof fn lemma_alive_count_pos(s: Seq<TaskView>, i: int)
    requires
        0 <= i < s.len(),
        is_alive(s[i]),
    ensures
        alive_count(s) >= 1,
    decreases s.len(),
{
    if i < s.len() - 1 {
        lemma_alive_count_pos(s.drop_last(), i);
    }
}

/// The number of alive tasks never exceeds the number of tasks.
pub proof fn lemma_alive_count_le(s: Seq<TaskView>)
    ensures
        alive_count(s) <= s.len(),
    decreases s.len(),
{
    if s.len() > 0 {
        lemma_alive_count_le(s.drop_last());
    }
}

/// `w` differs from `v` only in things that the bookkeeping invariant does not
/// look at.
pub open spec fn same_skeleton(v: SchedView, w: SchedView) -> bool {
    &&& w.tasks.len() == v.tasks.len()
    &&& w.ready == v.ready
    &&& w.active == v.active
    &&& forall|i: int| 0 <= i < v.tasks.len() ==> {
        &&& #[trigger] w.tasks[i].state == v.tasks[i].state
        &&& w.tasks[i].queued == v.tasks[i].queued
        &&& w.tasks[i].has_body == v.tasks[i].has_body
    }
}

proof fn lemma_alive_count_same(s1: Seq<TaskView>, s2: Seq<TaskView>)
    requires
        s1.len() == s2.len(),
        forall|i: int| 0 <= i < s1.len() ==> s1[i].state == s2[i].state,
    ensures
        alive_count(s1) == alive_count(s2),
    decreases s1.len(),
{
    if s1.len() > 0 {
        lemma_alive_count_same(s1.drop_last(), s2.drop_last());
    }
}

proof fn lemma_skeleton_wf(v: SchedView, w: SchedView)
    requires
        sched_wf(v),
        same_skeleton(v, w),
    ensures
        sched_wf(w),
        finished_stay_finished(v, w),
{
    assert forall|i: int| 0 <= i < v.tasks.len() implies w.tasks[i].state == v.tasks[i].state by {
        assert(w.tasks[i].state == v.tasks[i].state);
    }
    lemma_alive_count_same(v.tasks, w.tasks);
    assert forall|i: TaskId| i < w.tasks.len() implies (w.tasks[i as int].queued <==> (is_alive(w.tasks[i as int]) && w.ready.contains(i))) by {
        assert(v.tasks[i as int].queued <==> (is_alive(v.tasks[i as int]) && v.ready.contains(i)));
        assert(w.tasks[i as int].state == v.tasks[i as int].state);
    }
    assert forall|i: int| 0 <= i < w.tasks.len() implies (w.tasks[i].has_body <==> is_alive(w.tasks[i])) by {
        assert(w.tasks[i].state == v.tasks[i].state);
    }
}

proof fn lemma_schedule_skeleton(v: SchedView, id: TaskId, b: CancelBudgets, now: u64)
    requires
        id < v.tasks.len(),
    ensures
        same_skeleton(v, spec_schedule_deadlines(v, id, b, now)),
{
    let w = spec_schedule_deadlines(v, id, b, now);
    assert forall|i: int| 0 <= i < v.tasks.len() implies {
        &&& #[trigger] w.tasks[i].state == v.tasks[i].state
        &&& w.tasks[i].queued == v.tasks[i].queued
        &&& w.tasks[i].has_body == v.tasks[i].has_body
    } by {
    }
}

proof fn lemma_hook_cancel_skeleton(v: SchedView, target: TaskId, esc: CancelEscalation, reason: CancelReason, now: u64)
    ensures
        same_skeleton(v, spec_hook_cancel(v, target, esc, reason, now)),
{
    if target < v.tasks.len() && is_alive(v.tasks[target as int]) {
        let t = v.tasks[target as int];
        let t1 = if scope_replaces(reason_of_code(t.cancel_reason), reason) {
            TaskView { cancel_reason: reason_code(reason), ..t }
        } else {
            t
        };
        let t2 = TaskView { abort_code: fill_abort_code(t1.abort_code, reason), cancel_flag: true, ..t1 };
        let v2 = SchedView {
            tasks: v.tasks.update(target as int, t2),
            wakes: v.wakes.push(WakeMsg { from: EXTERNAL_WAKE, to: target }),
            ..v
        };
        let b = spec_budgets(v.default_cancel_ticks, v.default_cancel_time, esc);
        assert(same_skeleton(v, v2));
        if !b.immediate {
            lemma_schedule_skeleton(v2, target, b, now);
        }
        let w = spec_hook_cancel(v, target, esc, reason, now);
        assert forall|i: int| 0 <= i < v.tasks.len() implies {
            &&& #[trigger] w.tasks[i].state == v.tasks[i].state
            &&& w.tasks[i].queued == v.tasks[i].queued
            &&& w.tasks[i].has_body == v.tasks[i].has_body
        } by {
            assert(w.tasks[i].state == v2.tasks[i].state);
        }
    }
}

proof fn lemma_request_cancel_wf(v: SchedView, id: TaskId, esc: CancelEscalation, reason: CancelReason, now: u64)
    requires
        sched_wf(v),
    ensures
        sched_wf(spec_request_cancel(v, id, esc, reason, now)),
        finished_stay_finished(v, spec_request_cancel(v, id, esc, reason, now)),
        spec_request_cancel(v, id, esc, reason, now).tasks.len() == v.tasks.len(),
{
    if id < v.tasks.len() && is_alive(v.tasks[id as int]) {
        lemma_set_reason_wf(v, id, reason);
        let v1 = spec_set_reason(v, id, reason);
        let v2 = SchedView {
            tasks: v1.tasks.update(id as int, TaskView { cancel_flag: true, ..v1.tasks[id as int] }),
            wakes: v1.wakes.push(WakeMsg { from: EXTERNAL_WAKE, to: id }),
            ..v1
        };
        assert(same_skeleton(v1, v2));
        lemma_skeleton_wf(v1, v2);
        let b = spec_budgets(v.default_cancel_ticks, v.default_cancel_time, esc);
        if b.immediate {
            lemma_cancel_now_wf(v2, id, reason);
        } else {
            lemma_schedule_skeleton(v2, id, b, now);
            lemma_skeleton_wf(v2, spec_schedule_deadlines(v2, id, b, now));
        }
    }
}

proof fn lemma_fire_cancels_wf(v: SchedView)
    requires
        sched_wf(v),
    ensures
        sched_wf(spec_fire_cancels(v)),
        finished_stay_finished(v, spec_fire_cancels(v)),
        spec_fire_cancels(v).tasks.len() == v.tasks.len(),
        spec_fire_cancels(v).tick_count == v.tick_count,
    decreases v.cancel_queue.len(),
{
    if !(v.cancel_queue.len() == 0 || v.cancel_queue.last().0 > v.tick_count) {
        let (dl, id) = v.cancel_queue.last();
        let v1 = SchedView { cancel_queue: v.cancel_queue.drop_last(), ..v };
        assert(same_skeleton(v, v1));
        lemma_skeleton_wf(v, v1);
        let v2 = spec_fire_cancel_entry(v1, dl, id);
        if id < v1.tasks.len() && is_alive(v1.tasks[id as int]) && v1.tasks[id as int].cancel_deadline == Some(dl)
            && v1.tasks[id as int].cancel_flag {
            lemma_cancel_now_wf(v1, id, CancelReason::TimeoutTicks);
        }
        lemma_fire_cancels_wf(v2);
    }
}

proof fn lemma_fire_cancel_times_wf(v: SchedView, now: u64)
    requires
        sched_wf(v),
    ensures
        sched_wf(spec_fire_cancel_times(v, now)),
        finished_stay_finished(v, spec_fire_cancel_times(v, now)),
        spec_fire_cancel_times(v, now).tasks.len() == v.tasks.len(),
        spec_fire_cancel_times(v, now).tick_count == v.tick_count,
    decreases v.cancel_time_queue.len(),
{
    if !(v.cancel_time_queue.len() == 0 || v.cancel_time_queue.last().0 > now) {
        let (dl, id) = v.cancel_time_queue.last();
        let v1 = SchedView { cancel_time_queue: v.cancel_time_queue.drop_last(), ..v };
        assert(same_skeleton(v, v1));
        lemma_skeleton_wf(v, v1);
        let v2 = spec_fire_cancel_time_entry(v1, dl, id);
        if id < v1.tasks.len() && is_alive(v1.tasks[id as int]) && v1.tasks[id as int].cancel_time_deadline == Some(dl)
            && v1.tasks[id as int].cancel_flag {
            lemma_cancel_now_wf(v1, id, CancelReason::TimeoutTime);
        }
        lemma_fire_cancel_times_wf(v2, now);
    }
}

proof fn lemma_fire_timers_wf(v: SchedView, now: u64)
    requires
        sched_wf(v),
    ensures
        sched_wf(spec_fire_timers(v, now)),
        same_skeleton(v, spec_fire_timers(v, now)),
        finished_stay_finished(v, spec_fire_timers(v, now)),
        spec_fire_timers(v, now).tick_count == v.tick_count,
    decreases v.sleep_queue.len(),
{
    if !(v.sleep_queue.len() == 0 || v.sleep_queue.last().0 > now) {
        let (dl, task) = v.sleep_queue.last();
        let v1 = SchedView { sleep_queue: v.sleep_queue.drop_last(), ..v };
        let v2 = spec_fire_timer_entry(v1, dl, task);
        assert(same_skeleton(v, v1));
        assert(same_skeleton(v, v2));
        lemma_skeleton_wf(v, v2);
        lemma_fire_timers_wf(v2, now);
        let w = spec_fire_timers(v2, now);
        assert forall|i: int| 0 <= i < v.tasks.len() implies {
            &&& #[trigger] w.tasks[i].state == v.tasks[i].state
            &&& w.tasks[i].queued == v.tasks[i].queued
            &&& w.tasks[i].has_body == v.tasks[i].has_body
        } by {
            assert(w.tasks[i].state == v2.tasks[i].state);
            assert(v2.tasks[i].state == v.tasks[i].state);
        }
    } else {
        lemma_skeleton_wf(v, v);
    }
}

proof fn lemma_enqueue_all_wf(v: SchedView, msgs: Seq<WakeMsg>)
    requires
        sched_wf(v),
    ensures
        sched_wf(spec_enqueue_all(v, msgs)),
        finished_stay_finished(v, spec_enqueue_all(v, msgs)),
        spec_enqueue_all(v, msgs).tasks.len() == v.tasks.len(),
        spec_enqueue_all(v, msgs).wakes == v.wakes,
        spec_enqueue_all(v, msgs).tick_count == v.tick_count,
    decreases msgs.len(),
{
    if msgs.len() > 0 {
        lemma_enqueue_wf(v, msgs[0].to);
        lemma_enqueue_all_wf(spec_enqueue(v, msgs[0].to), msgs.drop_first());
    }
}

proof fn lemma_enqueue_all_push(v: SchedView, msgs: Seq<WakeMsg>, m: WakeMsg)
    ensures
        spec_enqueue_all(v, msgs.push(m)) == spec_enqueue(spec_enqueue_all(v, msgs), m.to),
    decreases msgs.len(),
{
    if msgs.len() == 0 {
        assert(msgs.push(m).drop_first() =~= Seq::<WakeMsg>::empty());
        assert(msgs.push(m)[0] == m);
        assert(spec_enqueue_all(spec_enqueue(v, m.to), Seq::<WakeMsg>::empty()) == spec_enqueue(v, m.to));
        assert(spec_enqueue_all(v, msgs) == v);
    } else {
        assert(msgs.push(m).drop_first() =~= msgs.drop_first().push(m));
        assert(msgs.push(m)[0] == msgs[0]);
        lemma_enqueue_all_push(spec_enqueue(v, msgs[0].to), msgs.drop_first(), m);
    }
}

proof fn lemma_drain_spawns_wf(v: SchedView)
    requires
        sched_wf(v),
    ensures
        sched_wf(spec_drain_spawns(v)),
        finished_stay_finished(v, spec_drain_spawns(v)),
        spec_drain_spawns(v).tick_count == v.tick_count,
    decreases v.spawns.len(),
{
    if !(v.spawns.len() == 0 || v.tasks.len() >= usize::MAX) {
        let v1 = SchedView { spawns: v.spawns.drop_first(), ..v };
        assert(same_skeleton(v, v1));
        lemma_skeleton_wf(v, v1);
        lemma_push_task_wf(v1, v.spawns[0].1);
        lemma_drain_spawns_wf(spec_push_task(v1, v.spawns[0].1));
    }
}

proof fn lemma_apply_request_skeleton(v: SchedView, id: TaskId, r: RequestView, now: u64)
    ensures
        same_skeleton(v, spec_apply_request(v, id, r, now)),
        spec_apply_request(v, id, r, now).tick_count == v.tick_count,
{
    let w = spec_apply_request(v, id, r, now);
    match r {
        RequestView::Cancel(target, esc, reason) => {
            lemma_hook_cancel_skeleton(v, target, esc, reason, now);
        },
        _ => {
            assert forall|i: int| 0 <= i < v.tasks.len() implies {
                &&& #[trigger] w.tasks[i].state == v.tasks[i].state
                &&& w.tasks[i].queued == v.tasks[i].queued
                &&& w.tasks[i].has_body == v.tasks[i].has_body
            } by {
            }
        },
    }
}

proof fn lemma_skeleton_trans(a: SchedView, b: SchedView, c: SchedView)
    requires
        same_skeleton(a, b),
        same_skeleton(b, c),
    ensures
        same_skeleton(a, c),
{
    assert forall|i: int| 0 <= i < a.tasks.len() implies {
        &&& #[trigger] c.tasks[i].state == a.tasks[i].state
        &&& c.tasks[i].queued == a.tasks[i].queued
        &&& c.tasks[i].has_body == a.tasks[i].has_body
    } by {
        assert(b.tasks[i].state == a.tasks[i].state);
        assert(c.tasks[i].state == b.tasks[i].state);
    }
}

proof fn lemma_apply_requests_skeleton(v: SchedView, id: TaskId, rs: Seq<RequestView>, now: u64)
    ensures
        same_skeleton(v, spec_apply_requests(v, id, rs, now)),
        spec_apply_requests(v, id, rs, now).tick_count == v.tick_count,
    decreases rs.len(),
{
    if rs.len() == 0 {
        assert forall|i: int| 0 <= i < v.tasks.len() implies {
            &&& #[trigger] v.tasks[i].state == v.tasks[i].state
            &&& v.tasks[i].queued == v.tasks[i].queued
            &&& v.tasks[i].has_body == v.tasks[i].has_body
        } by {
        }
    } else {
        let v1 = spec_apply_request(v, id, rs[0], now);
        lemma_apply_request_skeleton(v, id, rs[0], now);
        lemma_apply_requests_skeleton(v1, id, rs.drop_first(), now);
        lemma_skeleton_trans(v, v1, spec_apply_requests(v1, id, rs.drop_first(), now));
    }
}

proof fn lemma_after_poll_wf(v: SchedView, id: TaskId, outcome: PollOutcome, rs: Seq<RequestView>, now: u64)
    requires
        sched_wf(v),
        id < v.tasks.len(),
        is_alive(v.tasks[id as int]),
    ensures
        sched_wf(spec_after_poll(v, id, outcome, rs, now)),
        finished_stay_finished(v, spec_after_poll(v, id, outcome, rs, now)),
        spec_after_poll(v, id, outcome, rs, now).tasks.len() == v.tasks.len(),
        spec_after_poll(v, id, outcome, rs, now).tick_count == v.tick_count,
{
    let v0 = SchedView {
        poll_seq: saturating_add(v.poll_seq, 1),
        tasks: v.tasks.update(id as int, TaskView { polls: v.tasks[id as int].polls + 1, ..v.tasks[id as int] }),
        clock_floor: now,
        ..v
    };
    assert(same_skeleton(v, v0));
    lemma_update_benign(v, id as int, v0.tasks[id as int]);
    assert(v0 == SchedView { tasks: v.tasks.update(id as int, v0.tasks[id as int]), ..SchedView { poll_seq: saturating_add(v.poll_seq, 1), clock_floor: now, ..v } });
    lemma_skeleton_wf(v, v0);
    let v1 = spec_apply_requests(v0, id, rs, now);
    lemma_apply_requests_skeleton(v0, id, rs, now);
    lemma_skeleton_trans(v, v0, v1);
    lemma_skeleton_wf(v, v1);
    assert(v1.tasks[id as int].state == v.tasks[id as int].state);
    match outcome {
        PollOutcome::Pending => {},
        PollOutcome::Ready => {
            lemma_finish_wf(v1, id, TaskState::Completed);
        },
        PollOutcome::Panicked => {
            let v2 = spec_mark_panicked(v1, id);
            lemma_update_benign(v1, id as int, v2.tasks[id as int]);
            lemma_finish_wf(v2, id, TaskState::Panicked);
        },
    }
}

proof fn lemma_fire_cancels_floor(v: SchedView)
    ensures
        spec_fire_cancels(v).clock_floor == v.clock_floor,
    decreases v.cancel_queue.len(),
{
    if !(v.cancel_queue.len() == 0 || v.cancel_queue.last().0 > v.tick_count) {
        let (dl, id) = v.cancel_queue.last();
        let v1 = SchedView { cancel_queue: v.cancel_queue.drop_last(), ..v };
        lemma_fire_cancels_floor(spec_fire_cancel_entry(v1, dl, id));
    }
}

proof fn lemma_fire_cancel_times_floor(v: SchedView, now: u64)
    ensures
        spec_fire_cancel_times(v, now).clock_floor == v.clock_floor,
    decreases v.cancel_time_queue.len(),
{
    if !(v.cancel_time_queue.len() == 0 || v.cancel_time_queue.last().0 > now) {
        let (dl, id) = v.cancel_time_queue.last();
        let v1 = SchedView { cancel_time_queue: v.cancel_time_queue.drop_last(), ..v };
        lemma_fire_cancel_times_floor(spec_fire_cancel_time_entry(v1, dl, id), now);
    }
}

proof fn lemma_fire_timers_floor(v: SchedView, now: u64)
    ensures
        spec_fire_timers(v, now).clock_floor == v.clock_floor,
    decreases v.sleep_queue.len(),
{
    if !(v.sleep_queue.len() == 0 || v.sleep_queue.last().0 > now) {
        let (dl, task) = v.sleep_queue.last();
        let v1 = SchedView { sleep_queue: v.sleep_queue.drop_last(), ..v };
        lemma_fire_timers_floor(spec_fire_timer_entry(v1, dl, task), now);
    }
}

proof fn lemma_enqueue_all_floor(v: SchedView, msgs: Seq<WakeMsg>)
    ensures
        spec_enqueue_all(v, msgs).clock_floor == v.clock_floor,
    decreases msgs.len(),
{
    if msgs.len() > 0 {
        lemma_enqueue_all_floor(spec_enqueue(v, msgs[0].to), msgs.drop_first());
    }
}

proof fn lemma_drain_spawns_floor(v: SchedView)
    ensures
        spec_drain_spawns(v).clock_floor == v.clock_floor,
    decreases v.spawns.len(),
{
    if !(v.spawns.len() == 0 || v.tasks.len() >= usize::MAX) {
        lemma_drain_spawns_floor(spec_push_task(SchedView { spawns: v.spawns.drop_first(), ..v }, v.spawns[0].1));
    }
}

/// The readings a scheduling step takes never go below the scope's latest one,
/// and what it prepares has its last reading as the latest.
proof fn lemma_tick_prepare_floor(v: SchedView, now1: u64, now2: u64, msgs: Seq<WakeMsg>)
    ensures
        spec_tick_prepare(v, now1, now2, msgs).clock_floor == now2,
{
    let counted = SchedView { tick_count: saturating_add(v.tick_count, 1), ..v };
    let ticked = SchedView { clock_floor: now1, ..spec_fire_cancels(counted) };
    let timed = SchedView { clock_floor: now2, ..spec_fire_cancel_times(ticked, now1) };
    let fired = spec_fire_timers(timed, now2);
    lemma_fire_timers_floor(timed, now2);
    lemma_drain_spawns_floor(fired);
    let d = spec_drain_spawns(fired);
    lemma_enqueue_all_floor(SchedView { wakes: Seq::empty(), ..d }, d.wakes);
    lemma_enqueue_all_floor(spec_drain_wakes(d), msgs);
}

proof fn lemma_finished_trans(a: SchedView, b: SchedView, c: SchedView)
    requires
        finished_stay_finished(a, b),
        finished_stay_finished(b, c),
    ensures
        finished_stay_finished(a, c),
{
    assert forall|i: int| 0 <= i < a.tasks.len() && !is_alive(a.tasks[i]) implies c.tasks[i].state == a.tasks[i].state by {
        assert(b.tasks[i].state == a.tasks[i].state);
    }
}

/// Taking the front of the ready queue and clearing its mark keeps the
/// bookkeeping consistent.
proof fn lemma_pop_ready_wf(v: SchedView)
    requires
        sched_wf(v),
        v.ready.len() > 0,
    ensures
        ({
            let id = v.ready[0];
            let w = SchedView {
                tasks: v.tasks.update(id as int, TaskView { queued: false, ..v.tasks[id as int] }),
                ready: v.ready.drop_first(),
                ..v
            };
            &&& id < v.tasks.len()
            &&& sched_wf(w)
            &&& finished_stay_finished(v, w)
        }),
{
    let id = v.ready[0];
    let w = SchedView {
        tasks: v.tasks.update(id as int, TaskView { queued: false, ..v.tasks[id as int] }),
        ready: v.ready.drop_first(),
        ..v
    };
    lemma_alive_count_update(v.tasks, id as int, w.tasks[id as int]);
    assert(!w.ready.contains(id)) by {
        if w.ready.contains(id) {
            let k = choose|k: int| 0 <= k < w.ready.len() && w.ready[k] == id;
            assert(v.ready[k + 1] == v.ready[0]);
        }
    }
    assert forall|i: TaskId| i < w.tasks.len() implies (w.tasks[i as int].queued <==> (is_alive(w.tasks[i as int]) && w.ready.contains(i))) by {
        assert(v.tasks[i as int].queued <==> (is_alive(v.tasks[i as int]) && v.ready.contains(i)));
        if i != id {
            assert(w.tasks[i as int] == v.tasks[i as int]);
            if v.ready.contains(i) {
                let k = choose|k: int| 0 <= k < v.ready.len() && v.ready[k] == i;
                assert(k != 0);
                assert(w.ready[k - 1] == i);
            }
            if w.ready.contains(i) {
                let k = choose|k: int| 0 <= k < w.ready.len() && w.ready[k] == i;
                assert(v.ready[k + 1] == i);
            }
        }
    }
    assert forall|i: int, j: int| 0 <= i < j < w.ready.len() implies w.ready[i] != w.ready[j] by {
        assert(v.ready[i + 1] != v.ready[j + 1]);
    }
    assert forall|i: int| 0 <= i < w.tasks.len() implies (w.tasks[i].has_body <==> is_alive(w.tasks[i])) by {
        if i != id {
            assert(w.tasks[i] == v.tasks[i]);
        }
    }
}

proof fn lemma_contains_push(s: Seq<TaskId>, x: TaskId, i: TaskId)
    ensures
        s.push(x).contains(i) <==> (s.contains(i) || i == x),
{
    if s.push(x).contains(i) {
        let k = choose|k: int| 0 <= k < s.push(x).len() && s.push(x)[k] == i;
        if k < s.len() {
            assert(s[k] == i);
        }
    }
    if s.contains(i) {
        let k = choose|k: int| 0 <= k < s.len() && s[k] == i;
        assert(s.push(x)[k] == i);
    }
    if i == x {
        assert(s.push(x)[s.len() as int] == i);
    }
}

proof fn lemma_enqueue_wf(v: SchedView, id: TaskId)
    requires
        sched_wf(v),
    ensures
        sched_wf(spec_enqueue(v, id)),
        finished_stay_finished(v, spec_enqueue(v, id)),
{
    let w = spec_enqueue(v, id);
    if id < v.tasks.len() && is_alive(v.tasks[id as int]) && !v.tasks[id as int].queued {
        let t = TaskView { queued: true, ..v.tasks[id as int] };
        lemma_alive_count_update(v.tasks, id as int, t);
        assert(!v.ready.contains(id));
        assert forall|i: int, j: int| 0 <= i < j < w.ready.len() implies w.ready[i] != w.ready[j] by {
            if j == w.ready.len() - 1 {
                assert(w.ready[j] == id);
                assert(v.ready[i] == w.ready[i]);
            }
        }
        assert forall|i: TaskId| i < w.tasks.len() implies (w.tasks[i as int].queued <==> (is_alive(w.tasks[i as int]) && w.ready.contains(i))) by {
            lemma_contains_push(v.ready, id, i);
        }
        assert(w.active == alive_count(w.tasks));
        assert forall|k: int| 0 <= k < w.ready.len() implies w.ready[k] < w.tasks.len() by {
            if k < v.ready.len() {
                assert(w.ready[k] == v.ready[k]);
            }
        }
        assert forall|i: int| 0 <= i < w.tasks.len() implies (w.tasks[i].has_body <==> is_alive(w.tasks[i])) by {
            if i != id {
                assert(w.tasks[i] == v.tasks[i]);
            }
        }
    }
}

/// Changing a task in ways that leave its state, queued mark and body alone
/// keeps the bookkeeping consistent.
proof fn lemma_update_benign(v: SchedView, id: int, t: TaskView)
    requires
        sched_wf(v),
        0 <= id < v.tasks.len(),
        t.state == v.tasks[id].state,
        t.queued == v.tasks[id].queued,
        t.has_body == v.tasks[id].has_body,
    ensures
        sched_wf(SchedView { tasks: v.tasks.update(id, t), ..v }),
{
    let w = SchedView { tasks: v.tasks.update(id, t), ..v };
    lemma_alive_count_update(v.tasks, id, t);
    assert forall|i: TaskId| i < w.tasks.len() implies (w.tasks[i as int].queued <==> (is_alive(w.tasks[i as int]) && w.ready.contains(i))) by {
        assert(v.tasks[i as int].queued <==> (is_alive(v.tasks[i as int]) && v.ready.contains(i)));
        if i as int != id {
            assert(w.tasks[i as int] == v.tasks[i as int]);
        }
    }
    assert forall|i: int| 0 <= i < w.tasks.len() implies (w.tasks[i].has_body <==> is_alive(w.tasks[i])) by {
        if i != id {
            assert(w.tasks[i] == v.tasks[i]);
        }
    }
}

proof fn lemma_push_task_wf(v: SchedView, name: Seq<char>)
    requires
        sched_wf(v),
        v.tasks.len() < usize::MAX,
    ensures
        sched_wf(spec_push_task(v, name)),
        finished_stay_finished(v, spec_push_task(v, name)),
{
    let v1 = SchedView { tasks: v.tasks.push(new_task_view(name)), active: v.active + 1, ..v };
    lemma_alive_count_push(v.tasks, new_task_view(name));
    assert forall|i: TaskId| i < v1.tasks.len() implies (v1.tasks[i as int].queued <==> (is_alive(v1.tasks[i as int]) && v1.ready.contains(i))) by {
        if i == v.tasks.len() {
            if v1.ready.contains(i) {
                let k = choose|k: int| 0 <= k < v1.ready.len() && v1.ready[k] == i;
                assert(v.ready[k] < v.tasks.len());
            }
        } else {
            assert(v.tasks[i as int].queued <==> (is_alive(v.tasks[i as int]) && v.ready.contains(i)));
            assert(v1.tasks[i as int] == v.tasks[i as int]);
        }
    }
    assert forall|i: int| 0 <= i < v1.tasks.len() implies (v1.tasks[i].has_body <==> is_alive(v1.tasks[i])) by {
        if i < v.tasks.len() {
            assert(v1.tasks[i] == v.tasks[i]);
        }
    }
    assert(sched_wf(v1));
    lemma_enqueue_wf(v1, v.tasks.len() as TaskId);
}

proof fn lemma_finish_wf(v: SchedView, id: TaskId, state: TaskState)
    requires
        sched_wf(v),
        id < v.tasks.len(),
        is_alive(v.tasks[id as int]),
        state != TaskState::Alive,
    ensures
        sched_wf(spec_finish(v, id, state)),
        finished_stay_finished(v, spec_finish(v, id, state)),
        spec_finish(v, id, state).tasks.len() == v.tasks.len(),
{
    let w = spec_finish(v, id, state);
    lemma_alive_count_pos(v.tasks, id as int);
    lemma_alive_count_update(v.tasks, id as int, w.tasks[id as int]);
    assert forall|i: TaskId| i < w.tasks.len() implies (w.tasks[i as int].queued <==> (is_alive(w.tasks[i as int]) && w.ready.contains(i))) by {
        if i != id {
            assert(v.tasks[i as int].queued <==> (is_alive(v.tasks[i as int]) && v.ready.contains(i)));
            assert(w.tasks[i as int] == v.tasks[i as int]);
        }
    }
    assert forall|i: int| 0 <= i < w.tasks.len() implies (w.tasks[i].has_body <==> is_alive(w.tasks[i])) by {
        if i != id {
            assert(w.tasks[i] == v.tasks[i]);
        }
    }
}

proof fn lemma_set_reason_wf(v: SchedView, id: TaskId, reason: CancelReason)
    requires
        sched_wf(v),
    ensures
        sched_wf(spec_set_reason(v, id, reason)),
        spec_set_reason(v, id, reason).tasks.len() == v.tasks.len(),
        forall|i: int| 0 <= i < v.tasks.len() ==> spec_set_reason(v, id, reason).tasks[i].state == v.tasks[i].state,
{
    if id < v.tasks.len() {
        lemma_update_benign(v, id as int, spec_set_reason_task(v.tasks[id as int], reason));
    }
}

proof fn lemma_cancel_now_wf(v: SchedView, id: TaskId, reason: CancelReason)
    requires
        sched_wf(v),
    ensures
        sched_wf(spec_cancel_now(v, id, reason)),
        finished_stay_finished(v, spec_cancel_now(v, id, reason)),
        spec_cancel_now(v, id, reason).tasks.len() == v.tasks.len(),
{
    if id < v.tasks.len() && is_alive(v.tasks[id as int]) {
        lemma_set_reason_wf(v, id, reason);
        let v1 = spec_set_reason(v, id, reason);
        let t1 = v1.tasks[id as int];
        let t2 = TaskView {
            cancel_flag: true,
            cancel_deadline: None,
            cancel_time_deadline: None,
            abort_code: fill_abort_code(t1.abort_code, reason),
            ..t1
        };
        let v2 = SchedView { tasks: v1.tasks.update(id as int, t2), ..v1 };
        lemma_update_benign(v1, id as int, t2);
        lemma_finish_wf(v2, id, TaskState::Cancelled);
    }
}

// ----------------------------- laws -----------------------------

/// Asking to cancel a task that is not alive (or does not exist) changes
/// nothing, whether through the scope or from inside a poll.
pub proof fn lemma_cancel_of_finished_task_is_noop(
    v: SchedView,
    id: TaskId,
    esc: CancelEscalation,
    reason: CancelReason,
    now: u64,
)
    requires
        !alive_in(v, id as int),
    ensures
        spec_cancel_now(v, id, reason) == v,
        spec_request_cancel(v, id, esc, reason, now) == v,
        spec_hook_cancel(v, id, esc, reason, now) == v,
{
}

/// A hard stop ends an alive task `Cancelled`: its body is dropped, its flag is
/// up, the alive count drops by one, every finish waiter gets a wake message in
/// order, and no other task changes.
pub proof fn lemma_cancel_now_ends_task(v: SchedView, id: TaskId, reason: CancelReason)
    requires
        sched_wf(v),
        alive_in(v, id as int),
    ensures
        ({
            let w = spec_cancel_now(v, id, reason);
            &&& w.tasks.len() == v.tasks.len()
            &&& w.tasks[id as int].state == TaskState::Cancelled
            &&& !w.tasks[id as int].has_body
            &&& w.tasks[id as int].cancel_flag
            &&& w.active + 1 == v.active
            &&& w.wakes == v.wakes + waiter_wakes(id, v.tasks[id as int].finish_waiters)
            &&& forall|i: int| 0 <= i < v.tasks.len() && i != id ==> w.tasks[i] == v.tasks[i]
        }),
{
    lemma_alive_count_pos(v.tasks, id as int);
}

/// A cancel request whose escalation resolves to immediate hard-stops an alive
/// task at once.
pub proof fn lemma_immediate_request_hard_stops(v: SchedView, id: TaskId, esc: CancelEscalation, reason: CancelReason, now: u64)
    requires
        sched_wf(v),
        alive_in(v, id as int),
        spec_budgets(v.default_cancel_ticks, v.default_cancel_time, esc).immediate,
    ensures
        spec_request_cancel(v, id, esc, reason, now).tasks[id as int].state == TaskState::Cancelled,
{
}

/// A request from inside a poll never ends a task: even an immediate one only
/// schedules the hard stop at the current clock reading, and the target's flag is
/// up and it is woken.
pub proof fn lemma_hook_request_schedules(v: SchedView, id: TaskId, esc: CancelEscalation, reason: CancelReason, now: u64)
    requires
        alive_in(v, id as int),
    ensures
        ({
            let w = spec_hook_cancel(v, id, esc, reason, now);
            &&& w.tasks[id as int].state == TaskState::Alive
            &&& w.tasks[id as int].cancel_flag
            &&& w.wakes == v.wakes.push(WakeMsg { from: EXTERNAL_WAKE, to: id })
            &&& spec_budgets(v.default_cancel_ticks, v.default_cancel_time, esc).immediate
                ==> w.tasks[id as int].cancel_time_deadline == Some(now)
        }),
{
}

/// A tick escalation of zero ticks schedules no tick deadline.
pub proof fn lemma_zero_ticks_no_deadline(v: SchedView, id: TaskId, b: CancelBudgets, now: u64)
    requires
        id < v.tasks.len(),
        b.tick_budget == 0,
    ensures
        spec_schedule_deadlines(v, id, b, now).tasks[id as int].cancel_deadline.is_none(),
        spec_schedule_deadlines(v, id, b, now).cancel_queue == v.cancel_queue,
{
}

/// The panicked marker in an abort code is never overwritten by a cancel.
pub proof fn lemma_panicked_code_sticks(v: SchedView, id: TaskId, esc: CancelEscalation, reason: CancelReason, now: u64)
    requires
        id < v.tasks.len(),
        v.tasks[id as int].abort_code == Some(PANICKED_CODE),
    ensures
        spec_set_reason(v, id, reason).tasks[id as int].abort_code == Some(PANICKED_CODE),
        spec_cancel_now(v, id, reason).tasks[id as int].abort_code == Some(PANICKED_CODE),
        spec_request_cancel(v, id, esc, reason, now).tasks[id as int].abort_code == Some(PANICKED_CODE),
        spec_hook_cancel(v, id, esc, reason, now).tasks[id as int].abort_code == Some(PANICKED_CODE),
{
}

/// Under the scope's rule the first real reason stays: only a timeout replaces it.
pub proof fn lemma_first_real_reason_stays(t: TaskView, reason: CancelReason)
    requires
        reason_of_code(t.cancel_reason) != CancelReason::NoReason,
        reason_of_code(t.cancel_reason) != CancelReason::Unknown,
        !reason_is_timeout(reason),
    ensures
        spec_set_reason_task(t, reason) == t,
{
}

/// Queueing a task twice is queueing it once, and a task that is not alive is
/// never queued.
pub proof fn lemma_enqueue_idempotent(v: SchedView, id: TaskId)
    ensures
        spec_enqueue(spec_enqueue(v, id), id) == spec_enqueue(v, id),
        !alive_in(v, id as int) ==> spec_enqueue(v, id) == v,
{
}

/// A spawned task gets the next id, is alive with its body, and waits at the back
/// of the ready queue.
pub proof fn lemma_spawn_queues_new_task(v: SchedView, name: Seq<char>)
    requires
        sched_wf(v),
        v.tasks.len() < usize::MAX,
    ensures
        ({
            let w = spec_push_task(v, name);
            let id = v.tasks.len() as TaskId;
            &&& w.tasks.len() == v.tasks.len() + 1
            &&& w.tasks[id as int].state == TaskState::Alive
            &&& w.tasks[id as int].has_body
            &&& w.tasks[id as int].name == name
            &&& w.ready == v.ready.push(id)
            &&& w.active == v.active + 1
        }),
{
    assert(!v.ready.contains(v.tasks.len() as TaskId)) by {
        if v.ready.contains(v.tasks.len() as TaskId) {
            let k = choose|k: int| 0 <= k < v.ready.len() && v.ready[k] == v.tasks.len() as TaskId;
        }
    }
}

/// After the due sleep deadlines are fired, none is left due.
pub proof fn lemma_fire_timers_leaves_none_due(v: SchedView, now: u64)
    ensures
        ({
            let w = spec_fire_timers(v, now);
            w.sleep_queue.len() == 0 || w.sleep_queue.last().0 > now
        }),
    decreases v.sleep_queue.len(),
{
    if !(v.sleep_queue.len() == 0 || v.sleep_queue.last().0 > now) {
        let (dl, task) = v.sleep_queue.last();
        let v1 = SchedView { sleep_queue: v.sleep_queue.drop_last(), ..v };
        lemma_fire_timers_leaves_none_due(spec_fire_timer_entry(v1, dl, task), now);
    }
}

/// After the due tick deadlines are fired, none is left due.
pub proof fn lemma_fire_cancels_leaves_none_due(v: SchedView)
    ensures
        ({
            let w = spec_fire_cancels(v);
            w.cancel_queue.len() == 0 || w.cancel_queue.last().0 > w.tick_count
        }),
    decreases v.cancel_queue.len(),
{
    if !(v.cancel_queue.len() == 0 || v.cancel_queue.last().0 > v.tick_count) {
        let (dl, id) = v.cancel_queue.last();
        let v1 = SchedView { cancel_queue: v.cancel_queue.drop_last(), ..v };
        lemma_fire_cancels_leaves_none_due(spec_fire_cancel_entry(v1, dl, id));
    }
}

/// Task `t` is alive with its cancel flag up and a time deadline at or before
/// clock reading `now` that is still queued: its hard stop is due.
pub open spec fn time_stop_due(v: SchedView, t: TaskId, now: u64) -> bool {
    &&& t < v.tasks.len()
    &&& is_alive(v.tasks[t as int])
    &&& v.tasks[t as int].cancel_flag
    &&& v.tasks[t as int].cancel_time_deadline is Some
    &&& v.tasks[t as int].cancel_time_deadline->Some_0 <= now
    &&& v.cancel_time_queue.contains((v.tasks[t as int].cancel_time_deadline->Some_0, t))
}

proof fn lemma_cancel_now_other(v: SchedView, id: TaskId, reason: CancelReason, t: TaskId)
    requires
        t < v.tasks.len(),
        t != id,
    ensures
        spec_cancel_now(v, id, reason).tasks[t as int] == v.tasks[t as int],
        spec_cancel_now(v, id, reason).cancel_time_queue == v.cancel_time_queue,
        spec_cancel_now(v, id, reason).tasks.len() == v.tasks.len(),
{
}

/// Firing the time deadlines at `now` ends every task whose time stop is due.
proof fn lemma_fire_cancel_times_stops(v: SchedView, t: TaskId, now: u64)
    requires
        sched_wf(v),
        sorted_desc(v.cancel_time_queue),
        time_stop_due(v, t, now),
    ensures
        !is_alive(spec_fire_cancel_times(v, now).tasks[t as int]),
    decreases v.cancel_time_queue.len(),
{
    let q = v.cancel_time_queue;
    let d = v.tasks[t as int].cancel_time_deadline->Some_0;
    let k = choose|k: int| 0 <= k < q.len() && q[k] == (d, t);
    assert(entry_le(q.last(), q[k])) by {
        if k < q.len() - 1 {
            assert(entry_le(q[q.len() - 1], q[k]));
        }
    }
    let (dl, id) = q.last();
    let v1 = SchedView { cancel_time_queue: q.drop_last(), ..v };
    assert(same_skeleton(v, v1));
    lemma_skeleton_wf(v, v1);
    let v2 = spec_fire_cancel_time_entry(v1, dl, id);
    if dl == d && id == t {
        lemma_cancel_now_wf(v1, id, CancelReason::TimeoutTime);
        lemma_fire_cancel_times_wf(v2, now);
    } else {
        assert(k < q.len() - 1);
        assert(q.drop_last()[k] == (d, t));
        if id < v1.tasks.len() && is_alive(v1.tasks[id as int]) && v1.tasks[id as int].cancel_time_deadline == Some(dl)
            && v1.tasks[id as int].cancel_flag {
            lemma_cancel_now_wf(v1, id, CancelReason::TimeoutTime);
            if id != t {
                lemma_cancel_now_other(v1, id, CancelReason::TimeoutTime, t);
            }
        }
        assert(sorted_desc(v2.cancel_time_queue));
        assert(v2.cancel_time_queue.contains((d, t)));
        lemma_fire_cancel_times_stops(v2, t, now);
    }
}

/// Firing the tick deadlines leaves a due time stop due, or ends the task.
proof fn lemma_fire_cancels_keeps_due(v: SchedView, t: TaskId, now: u64)
    requires
        sched_wf(v),
        t < v.tasks.len(),
        !is_alive(v.tasks[t as int]) || time_stop_due(v, t, now),
    ensures
        ({
            let w = spec_fire_cancels(v);
            &&& w.cancel_time_queue == v.cancel_time_queue
            &&& t < w.tasks.len()
            &&& (!is_alive(w.tasks[t as int]) || time_stop_due(w, t, now))
        }),
    decreases v.cancel_queue.len(),
{
    if !(v.cancel_queue.len() == 0 || v.cancel_queue.last().0 > v.tick_count) {
        let (dl, id) = v.cancel_queue.last();
        let v1 = SchedView { cancel_queue: v.cancel_queue.drop_last(), ..v };
        assert(same_skeleton(v, v1));
        lemma_skeleton_wf(v, v1);
        let v2 = spec_fire_cancel_entry(v1, dl, id);
        if id < v1.tasks.len() && is_alive(v1.tasks[id as int]) && v1.tasks[id as int].cancel_deadline == Some(dl)
            && v1.tasks[id as int].cancel_flag {
            lemma_cancel_now_wf(v1, id, CancelReason::TimeoutTicks);
            if id != t {
                lemma_cancel_now_other(v1, id, CancelReason::TimeoutTicks, t);
            }
        }
        lemma_fire_cancels_keeps_due(v2, t, now);
    }
}

/// A cancel request made from inside a poll with an immediate time escalation
/// makes the target's hard stop due at the reading it was made at.
pub proof fn lemma_hook_immediate_stop_due(v: SchedView, target: TaskId, esc: CancelEscalation, reason: CancelReason, now: u64)
    requires
        alive_in(v, target as int),
        spec_budgets(v.default_cancel_ticks, v.default_cancel_time, esc).immediate,
    ensures
        time_stop_due(spec_hook_cancel(v, target, esc, reason, now), target, now),
{
    let w = spec_hook_cancel(v, target, esc, reason, now);
    let q = w.cancel_time_queue;
    let t2 = v.tasks[target as int];
    let v2q = v.cancel_time_queue;
    let pos = crate::deadline_queue::count_greater(v2q, (now, target));
    crate::deadline_queue::lemma_count_greater_le(v2q, (now, target));
    assert(q[pos as int] == (now, target));
}

/// What a scheduling step prepares keeps the bookkeeping consistent, and no
/// task that had finished comes back.
proof fn lemma_tick_prepare_wf(v: SchedView, now1: u64, now2: u64, msgs: Seq<WakeMsg>)
    requires
        sched_wf(v),
    ensures
        sched_wf(spec_tick_prepare(v, now1, now2, msgs)),
        finished_stay_finished(v, spec_tick_prepare(v, now1, now2, msgs)),
{
    let counted = SchedView { tick_count: saturating_add(v.tick_count, 1), ..v };
    assert(same_skeleton(v, counted));
    lemma_skeleton_wf(v, counted);
    lemma_fire_cancels_wf(counted);
    let a = spec_fire_cancels(counted);
    let ticked = SchedView { clock_floor: now1, ..a };
    assert(same_skeleton(a, ticked));
    lemma_skeleton_wf(a, ticked);
    lemma_fire_cancel_times_wf(ticked, now1);
    let b = spec_fire_cancel_times(ticked, now1);
    let timed = SchedView { clock_floor: now2, ..b };
    assert(same_skeleton(b, timed));
    lemma_skeleton_wf(b, timed);
    lemma_fire_timers_wf(timed, now2);
    let c = spec_fire_timers(timed, now2);
    lemma_drain_spawns_wf(c);
    let d = spec_drain_spawns(c);
    let e0 = SchedView { wakes: Seq::empty(), ..d };
    assert(same_skeleton(d, e0));
    lemma_skeleton_wf(d, e0);
    lemma_enqueue_all_wf(e0, d.wakes);
    let e = spec_drain_wakes(d);
    lemma_enqueue_all_wf(e, msgs);
    lemma_finished_trans(v, counted, a);
    lemma_finished_trans(v, a, ticked);
    lemma_finished_trans(v, ticked, b);
    lemma_finished_trans(v, b, timed);
    lemma_finished_trans(v, timed, c);
    lemma_finished_trans(v, c, d);
    lemma_finished_trans(v, d, e0);
    lemma_finished_trans(v, e0, e);
    lemma_finished_trans(v, e, spec_enqueue_all(e, msgs));
}

/// Task states only move forward: across any scheduling step the bookkeeping
/// stays consistent, no task is removed, and a task that is no longer alive
/// keeps its final state.
pub proof fn lemma_tick_keeps_final_states(v: SchedView, w: SchedView, r: TickResult)
    requires
        sched_wf(v),
        is_tick(v, w, r),
    ensures
        sched_wf(w),
        finished_stay_finished(v, w),
{
    let (now1, now2, msgs, outcome, rs, now3) = choose|now1: u64, now2: u64, msgs: Seq<WakeMsg>, outcome: PollOutcome, rs: Seq<RequestView>, now3: u64|
        #![trigger spec_tick(v, now1, now2, msgs, outcome, rs, now3)]
        v.clock_floor <= now1 <= now2 <= now3 && (w, r) == spec_tick(v, now1, now2, msgs, outcome, rs, now3);
    if v.active == 0 {
        lemma_finished_trans(v, v, v);
    } else {
        lemma_tick_prepare_wf(v, now1, now2, msgs);
        let p = spec_tick_prepare(v, now1, now2, msgs);
        if p.ready.len() > 0 {
            let id = p.ready[0];
            let q = SchedView {
                tasks: p.tasks.update(id as int, TaskView { queued: false, ..p.tasks[id as int] }),
                ready: p.ready.drop_first(),
                ..p
            };
            lemma_pop_ready_wf(p);
            lemma_finished_trans(v, p, q);
            if is_alive(q.tasks[id as int]) {
                lemma_after_poll_wf(q, id, outcome, rs, now3);
                lemma_finished_trans(v, q, w);
            }
        }
    }
}

/// A task whose time stop is due at the scope's latest reading is ended by the
/// next scheduling step, whatever that step reads, receives and polls.
pub proof fn lemma_due_stop_at_next_tick(v: SchedView, t: TaskId, w: SchedView, r: TickResult)
    requires
        sched_wf(v),
        sorted_desc(v.cancel_time_queue),
        time_stop_due(v, t, v.clock_floor),
        is_tick(v, w, r),
    ensures
        !(r is Done),
        t < w.tasks.len(),
        !is_alive(w.tasks[t as int]),
{
    let (now1, now2, msgs, outcome, rs, now3) = choose|now1: u64, now2: u64, msgs: Seq<WakeMsg>, outcome: PollOutcome, rs: Seq<RequestView>, now3: u64|
        #![trigger spec_tick(v, now1, now2, msgs, outcome, rs, now3)]
        v.clock_floor <= now1 <= now2 <= now3 && (w, r) == spec_tick(v, now1, now2, msgs, outcome, rs, now3);
    lemma_alive_count_pos(v.tasks, t as int);
    let counted = SchedView { tick_count: saturating_add(v.tick_count, 1), ..v };
    assert(same_skeleton(v, counted));
    lemma_skeleton_wf(v, counted);
    assert(time_stop_due(counted, t, now1));
    lemma_fire_cancels_keeps_due(counted, t, now1);
    lemma_fire_cancels_wf(counted);
    let a = spec_fire_cancels(counted);
    let ticked = SchedView { clock_floor: now1, ..a };
    assert(same_skeleton(a, ticked));
    lemma_skeleton_wf(a, ticked);
    lemma_fire_cancel_times_wf(ticked, now1);
    let b = spec_fire_cancel_times(ticked, now1);
    if is_alive(a.tasks[t as int]) {
        assert(time_stop_due(ticked, t, now1));
        lemma_fire_cancel_times_stops(ticked, t, now1);
    }
    assert(!is_alive(b.tasks[t as int]));
    let timed = SchedView { clock_floor: now2, ..b };
    assert(same_skeleton(b, timed));
    lemma_skeleton_wf(b, timed);
    lemma_fire_timers_wf(timed, now2);
    let c = spec_fire_timers(timed, now2);
    lemma_drain_spawns_wf(c);
    let d = spec_drain_spawns(c);
    let e0 = SchedView { wakes: Seq::empty(), ..d };
    assert(same_skeleton(d, e0));
    lemma_skeleton_wf(d, e0);
    lemma_enqueue_all_wf(e0, d.wakes);
    let e = spec_drain_wakes(d);
    lemma_enqueue_all_wf(e, msgs);
    let p = spec_tick_prepare(v, now1, now2, msgs);
    assert(!is_alive(p.tasks[t as int]));
    if p.ready.len() > 0 {
        let id = p.ready[0];
        let q = SchedView {
            tasks: p.tasks.update(id as int, TaskView { queued: false, ..p.tasks[id as int] }),
            ready: p.ready.drop_first(),
            ..p
        };
        lemma_pop_ready_wf(p);
        if is_alive(q.tasks[id as int]) {
            lemma_after_poll_wf(q, id, outcome, rs, now3);
        }
    }
}

/// The time to the next deadline covers every sleep and every cancel time
/// deadline: it is absent exactly when both queues are empty, it is never longer
/// than the time to any queued deadline, and it is the time to one of them.
pub proof fn lemma_time_to_next_covers_queues(v: SchedView, now: u64)
    requires
        sorted_desc(v.sleep_queue),
        sorted_desc(v.cancel_time_queue),
    ensures
        spec_time_to_next(v, now) is None <==> (v.sleep_queue.len() == 0 && v.cancel_time_queue.len() == 0),
        forall|k: int| 0 <= k < v.sleep_queue.len() ==> {
            &&& spec_time_to_next(v, now) is Some
            &&& spec_time_to_next(v, now)->Some_0.nanos <= crate::time::saturating_sub(#[trigger] v.sleep_queue[k].0, now)
        },
        forall|k: int| 0 <= k < v.cancel_time_queue.len() ==> {
            &&& spec_time_to_next(v, now) is Some
            &&& spec_time_to_next(v, now)->Some_0.nanos <= crate::time::saturating_sub(#[trigger] v.cancel_time_queue[k].0, now)
        },
        spec_time_to_next(v, now) is Some ==> {
            ||| exists|k: int| 0 <= k < v.sleep_queue.len()
                && spec_time_to_next(v, now)->Some_0.nanos == crate::time::saturating_sub(#[trigger] v.sleep_queue[k].0, now)
            ||| exists|k: int| 0 <= k < v.cancel_time_queue.len()
                && spec_time_to_next(v, now)->Some_0.nanos == crate::time::saturating_sub(#[trigger] v.cancel_time_queue[k].0, now)
        },
{
    let sq = v.sleep_queue;
    let cq = v.cancel_time_queue;
    assert forall|k: int| 0 <= k < sq.len() implies sq.last().0 <= (#[trigger] sq[k]).0 by {
        if k < sq.len() - 1 {
            assert(entry_le(sq[sq.len() - 1], sq[k]));
        }
    }
    assert forall|k: int| 0 <= k < cq.len() implies cq.last().0 <= (#[trigger] cq[k]).0 by {
        if k < cq.len() - 1 {
            assert(entry_le(cq[cq.len() - 1], cq[k]));
        }
    }
    if spec_time_to_next(v, now) is Some {
        if sq.len() > 0 && (cq.len() == 0 || sq.last().0 <= cq.last().0) {
            assert(sq[sq.len() - 1] == sq.last());
        } else {
            assert(cq[cq.len() - 1] == cq.last());
        }
    }
}

/// A cancel request with a tick budget `t` that is not immediate leaves the task
/// alive and sets its tick hard stop `t` ticks after the current tick count,
/// queued under that key.
pub proof fn lemma_tick_escalation_deadline(v: SchedView, id: TaskId, esc: CancelEscalation, reason: CancelReason, now: u64, t: u64)
    requires
        alive_in(v, id as int),
        !spec_budgets(v.default_cancel_ticks, v.default_cancel_time, esc).immediate,
        spec_budgets(v.default_cancel_ticks, v.default_cancel_time, esc).tick_budget == t,
        t > 0,
    ensures
        ({
            let w = spec_request_cancel(v, id, esc, reason, now);
            let dl = crate::time::saturating_add(v.tick_count, t);
            &&& is_alive(w.tasks[id as int])
            &&& w.tasks[id as int].cancel_deadline == Some(dl)
            &&& w.cancel_queue.contains((dl, id))
            &&& (v.tick_count < u64::MAX ==> dl > v.tick_count)
        }),
        ({
            let w = spec_hook_cancel(v, id, esc, reason, now);
            let dl = crate::time::saturating_add(v.tick_count, t);
            &&& is_alive(w.tasks[id as int])
            &&& w.tasks[id as int].cancel_deadline == Some(dl)
            &&& w.cancel_queue.contains((dl, id))
        }),
{
    let dl = crate::time::saturating_add(v.tick_count, t);
    crate::deadline_queue::lemma_sorted_insert_contains(v.cancel_queue, (dl, id));
}

/// A cancel request with a time escalation that is not immediate leaves the
/// task alive and sets its hard stop to the request's clock reading plus the span,
/// queued under that key; the stop is not due at any earlier reading.
pub proof fn lemma_time_escalation_deadline(v: SchedView, id: TaskId, esc: CancelEscalation, reason: CancelReason, now: u64, d: Duration)
    requires
        alive_in(v, id as int),
        !spec_budgets(v.default_cancel_ticks, v.default_cancel_time, esc).immediate,
        spec_budgets(v.default_cancel_ticks, v.default_cancel_time, esc).time_budget == Some(d),
    ensures
        ({
            let w = spec_request_cancel(v, id, esc, reason, now);
            let dl = crate::time::saturating_add(now, d.nanos);
            &&& is_alive(w.tasks[id as int])
            &&& w.tasks[id as int].cancel_time_deadline == Some(dl)
            &&& w.cancel_time_queue.contains((dl, id))
            &&& (now < u64::MAX ==> dl > now)
            &&& forall|r: u64| r < dl ==> !time_stop_due(w, id, r)
        }),
        ({
            let w = spec_hook_cancel(v, id, esc, reason, now);
            let dl = crate::time::saturating_add(now, d.nanos);
            &&& is_alive(w.tasks[id as int])
            &&& w.tasks[id as int].cancel_time_deadline == Some(dl)
            &&& w.cancel_time_queue.contains((dl, id))
            &&& forall|r: u64| r < dl ==> !time_stop_due(w, id, r)
        }),
{
    let dl = crate::time::saturating_add(now, d.nanos);
    crate::deadline_queue::lemma_sorted_insert_contains(v.cancel_time_queue, (dl, id));
}

// ----------------------------- the scope -----------------------------

fn scope_should_replace(cur: CancelReason, new: CancelReason) -> (b: bool)
    ensures
        b == scope_replaces(cur, new),
{
    match cur {
        CancelReason::NoReason => true,
        CancelReason::Unknown => true,
        _ => new.is_timeout(),
    }
}

/// Bookkeeping of one task.
pub struct TaskSlot {
    name: String,
    state: TaskState,
    queued: bool,
    finish_waiters: Vec<TaskId>,
    sleeping_until: Option<u64>,
    cancel_flag: bool,
    cancel_reason: u8,
    abort: Option<AbortCell>,
    cancel_deadline: Option<u64>,
    cancel_time_deadline: Option<u64>,
    /// How many times the task's body was polled.
    polled: Ghost<nat>,
}

pub open spec fn opt_code(a: Option<AbortCell>) -> Option<u8> {
    match a {
        Some(c) => Some(c.code()),
        None => None,
    }
}

impl TaskSlot {
    pub closed spec fn view_with(&self, has_body: bool) -> TaskView {
        TaskView {
            name: self.name@,
            state: self.state,
            queued: self.queued,
            finish_waiters: self.finish_waiters@,
            sleeping_until: self.sleeping_until,
            cancel_flag: self.cancel_flag,
            cancel_reason: self.cancel_reason,
            abort_code: opt_code(self.abort),
            cancel_deadline: self.cancel_deadline,
            cancel_time_deadline: self.cancel_time_deadline,
            has_body,
            polls: self.polled@,
        }
    }
}

struct SpawnReq<T> {
    parent: TaskId,
    name: String,
    task: T,
}

/// The scheduler state that a polled task may look at.
pub struct Core<T, Tr> {
    slots: Vec<TaskSlot>,
    active: usize,
    ready: VecDeque<TaskId>,
    wakes: VecDeque<WakeMsg>,
    spawns: VecDeque<SpawnReq<T>>,
    io_read_waiters: Vec<Vec<TaskId>>,
    sleep_queue: DeadlineQueue,
    tick_count: u64,
    cancel_budget_default: u64,
    cancel_queue: DeadlineQueue,
    cancel_time_default: Option<Duration>,
    cancel_time_queue: DeadlineQueue,
    poll_seq: u64,
    /// The latest clock reading taken.
    last_now: u64,
    tracer: Option<Tr>,
    /// The events reported to the tracer, oldest first.
    trace_log: Ghost<Seq<TraceEvent>>,
}

/// A scope that owns a set of tasks, borrows the resources `R` that they share,
/// and schedules them one poll at a time.
///
/// `T` is the type of a task's body: the scope stores bodies and hands them to
/// `PollTask::poll_task`, and never looks inside them. `Tr` is the tracer type.
pub struct Scope<'env, R, T, Tr> {
    resources: &'env mut R,
    tasks: Vec<Option<T>>,
    core: Core<T, Tr>,
    wake_tx: WakeTx,
    wake_rx: WakeRx,
    clock: Clock,
}

/// A request that a task makes of its scope while it is polled.
pub enum CxRequest<T> {
    Wake(TaskId),
    SubscribeFinish(TaskId),
    Spawn(String, T),
    WaitReadable(usize),
    SleepUntil(Instant),
    Cancel(TaskId, CancelEscalation, CancelReason),
}

pub open spec fn request_view<T>(r: CxRequest<T>) -> RequestView {
    match r {
        CxRequest::Wake(to) => RequestView::Wake(to),
        CxRequest::SubscribeFinish(t) => RequestView::SubscribeFinish(t),
        CxRequest::Spawn(name, _task) => RequestView::Spawn(name@),
        CxRequest::WaitReadable(token) => RequestView::WaitReadable(token),
        CxRequest::SleepUntil(d) => RequestView::SleepUntil(d.nanos),
        CxRequest::Cancel(t, e, r) => RequestView::Cancel(t, e, r),
    }
}

/// A task body that its scope can poll.
///
/// The scope hands the body a context through which it reads the scope and asks
/// for things; whatever it asks takes effect, in order, right after the poll.
pub trait PollTask<R, Tr>: Sized {
    fn poll_task(&mut self, cx: &mut Cx<'_, R, Self, Tr>) -> PollOutcome
        requires
            old(cx).pending() == Seq::<RequestView>::empty(),
    ;
}

/// The context of one poll of one task.
pub struct Cx<'p, R, T, Tr> {
    /// The resources that the scope's tasks share.
    pub resources: &'p mut R,
    core: &'p Core<T, Tr>,
    clock: &'p Clock,
    id: TaskId,
    wake_tx: WakeTx,
    requests: VecDeque<CxRequest<T>>,
}

impl<'env, R, T, Tr: Tracer> View for Scope<'env, R, T, Tr> {
    type V = SchedView;

    closed spec fn view(&self) -> SchedView {
        SchedView {
            tasks: Seq::new(
                self.core.slots@.len(),
                |i: int| self.core.slots@[i].view_with(self.tasks@[i].is_some()),
            ),
            active: self.core.active as nat,
            ready: self.core.ready@,
            wakes: self.core.wakes@,
            spawns: self.core.spawns@.map_values(|s: SpawnReq<T>| (s.parent, s.name@)),
            io_waiters: self.core.io_read_waiters@.map_values(|w: Vec<TaskId>| w@),
            sleep_queue: self.core.sleep_queue@,
            tick_count: self.core.tick_count,
            default_cancel_ticks: self.core.cancel_budget_default,
            cancel_queue: self.core.cancel_queue@,
            default_cancel_time: self.core.cancel_time_default,
            cancel_time_queue: self.core.cancel_time_queue@,
            poll_seq: self.core.poll_seq,
            clock_floor: self.core.last_now,
        }
    }
}

impl<'env, R, T, Tr: Tracer> Scope<'env, R, T, Tr> {
    /// The scope's invariant.
    pub closed spec fn wf(&self) -> bool {
        &&& self.tasks@.len() == self.core.slots@.len()
        &&& self.core.sleep_queue.wf()
        &&& self.core.cancel_queue.wf()
        &&& self.core.cancel_time_queue.wf()
        &&& sched_wf(self@)
    }

    /// The bookkeeping of a well-formed scope is consistent (see `sched_wf`).
    pub proof fn lemma_bookkeeping(&self)
        requires
            self.wf(),
        ensures
            sched_wf(self@),
            sorted_desc(self@.sleep_queue),
            sorted_desc(self@.cancel_queue),
            sorted_desc(self@.cancel_time_queue),
    {
        self.core.sleep_queue.lemma_sorted();
        self.core.cancel_queue.lemma_sorted();
        self.core.cancel_time_queue.lemma_sorted();
    }

    /// The tracer, if one is set.
    pub closed spec fn tracer(&self) -> Option<Tr> {
        self.core.tracer
    }

    /// The events that the scope has reported to its tracer, oldest first.
    pub closed spec fn trace_events(&self) -> Seq<TraceEvent> {
        self.core.trace_log@
    }

    pub fn new(resources: &'env mut R) -> (s: Self)
        ensures
            s.wf(),
            s@.tasks.len() == 0,
            s@.active == 0,
            s@.ready.len() == 0,
            s@.wakes.len() == 0,
            s@.spawns.len() == 0,
            s@.io_waiters.len() == 0,
            s@.sleep_queue.len() == 0,
            s@.cancel_queue.len() == 0,
            s@.cancel_time_queue.len() == 0,
            s@.tick_count == 0,
            s@.default_cancel_ticks == 0,
            s@.default_cancel_time.is_none(),
            s@.poll_seq == 0,
    {
        let (wake_tx, wake_rx) = wake_channel();
        let s = Scope {
            resources,
            tasks: Vec::new(),
            core: Core {
                slots: Vec::new(),
                active: 0,
                ready: VecDeque::new(),
                wakes: VecDeque::new(),
                spawns: VecDeque::new(),
                io_read_waiters: Vec::new(),
                sleep_queue: DeadlineQueue::new(),
                tick_count: 0,
                cancel_budget_default: 0,
                cancel_queue: DeadlineQueue::new(),
                cancel_time_default: None,
                cancel_time_queue: DeadlineQueue::new(),
                poll_seq: 0,
                last_now: 0,
                tracer: None,
                trace_log: Ghost(Seq::empty()),
            },
            wake_tx,
            wake_rx,
            clock: Clock::start(),
        };
        proof {
            assert(s@.tasks =~= Seq::<TaskView>::empty());
        }
        s
    }

    fn enqueue_ready(&mut self, id: TaskId)
        requires
            old(self).wf(),
        ensures
            final(self).wf(),
            final(self)@ == spec_enqueue(old(self)@, id),
            final(self).tasks@ == old(self).tasks@,
            final(self).tracer() == old(self).tracer(),
            final(self).trace_events() == old(self).trace_events(),
    {
        if id >= self.core.slots.len() {
            return;
        }
        match self.core.slots[id].state {
            TaskState::Alive => {},
            _ => { return; },
        }
        if self.core.slots[id].queued {
            return;
        }
        self.core.slots[id].queued = true;
        self.core.ready.push_back(id);
        proof {
            lemma_enqueue_wf(old(self)@, id);
            assert(self@.tasks =~= spec_enqueue(old(self)@, id).tasks);
        }
    }

    /// Adds a task body under `name` and queues it; its id is the number of
    /// tasks before it.
    fn push_task(&mut self, name: String, task: T) -> (id: TaskId)
        requires
            old(self).wf(),
            old(self)@.tasks.len() < usize::MAX,
        ensures
            final(self).wf(),
            id == old(self)@.tasks.len(),
            final(self)@ == spec_push_task(old(self)@, name@),
            final(self).tracer() is Some <==> old(self).tracer() is Some,
            final(self).trace_events() == if old(self).tracer() is Some {
                old(self).trace_events().push(TraceEvent::Spawn(id, name@))
            } else {
                old(self).trace_events()
            },
    {
        let id = self.tasks.len();
        proof {
            lemma_alive_count_le(self@.tasks);
        }
        self.core.slots.push(TaskSlot {
            name,
            state: TaskState::Alive,
            queued: false,
            finish_waiters: Vec::new(),
            sleeping_until: None,
            cancel_flag: false,
            cancel_reason: 0,
            abort: None,
            cancel_deadline: None,
            cancel_time_deadline: None,
            polled: Ghost(0),
        });
        self.tasks.push(Some(task));
        self.core.active = self.core.active + 1;
        match &mut self.core.tracer {
            Some(t) => {
                t.on_spawn(id, self.core.slots[id].name.as_str());
                proof {
                    self.core.trace_log@ = self.core.trace_log@.push(TraceEvent::Spawn(id, self.core.slots@[id as int].name@));
                }
            },
            None => {},
        }
        proof {
            let v1 = SchedView { tasks: old(self)@.tasks.push(new_task_view(name@)), active: old(self)@.active + 1, ..old(self)@ };
            assert(self@.tasks =~= v1.tasks);
            assert(self@ == v1);
            lemma_push_task_wf(old(self)@, name@);
            lemma_alive_count_push(old(self)@.tasks, new_task_view(name@));
            assert(sched_wf(v1));
        }
        self.enqueue_ready(id);
        id
    }

    /// Adds a task body under `name` and queues it; its id is the number of tasks
    /// spawned before it.
    pub fn spawn_named(&mut self, name: String, task: T) -> (id: TaskId)
        requires
            old(self).wf(),
            old(self)@.tasks.len() < usize::MAX,
        ensures
            final(self).wf(),
            id == old(self)@.tasks.len(),
            final(self)@ == spec_push_task(old(self)@, name@),
            final(self).tracer() is Some <==> old(self).tracer() is Some,
            final(self).trace_events() == if old(self).tracer() is Some {
                old(self).trace_events().push(TraceEvent::Spawn(id, name@))
            } else {
                old(self).trace_events()
            },
    {
        self.push_task(name, task)
    }

    /// Ends alive task `id` in `state`: see `spec_finish`.
    fn finish_task(&mut self, id: TaskId, state: TaskState)
        requires
            old(self).wf(),
            id < old(self)@.tasks.len(),
            is_alive(old(self)@.tasks[id as int]),
            state != TaskState::Alive,
        ensures
            final(self).wf(),
            final(self)@ == spec_finish(old(self)@, id, state),
            final(self).tracer() is Some <==> old(self).tracer() is Some,
            final(self).trace_events() == if old(self).tracer() is Some {
                old(self).trace_events().push(TraceEvent::Finish(id, old(self)@.tasks[id as int].name, state))
            } else {
                old(self).trace_events()
            },
    {
        proof {
            lemma_alive_count_pos(self@.tasks, id as int);
            lemma_finish_wf(self@, id, state);
        }
        let name = self.core.slots[id].name.clone();
        self.core.slots[id].state = state;
        self.tasks.set(id, None);
        self.core.slots[id].sleeping_until = None;
        self.core.slots[id].cancel_deadline = None;
        self.core.slots[id].cancel_time_deadline = None;
        self.core.slots[id].cancel_reason = 0;
        self.core.active = self.core.active - 1;
        self.core.slots[id].queued = false;
        match &mut self.core.tracer {
            Some(t) => {
                t.on_finish(id, name.as_str(), state);
                proof {
                    self.core.trace_log@ = self.core.trace_log@.push(TraceEvent::Finish(id, name@, state));
                }
            },
            None => {},
        }
        let mut waiters: Vec<TaskId> = Vec::new();
        std::mem::swap(&mut waiters, &mut self.core.slots[id].finish_waiters);
        let mut extra: VecDeque<WakeMsg> = VecDeque::new();
        let mut k: usize = 0;
        while k < waiters.len()
            invariant
                k <= waiters.len(),
                extra@ == waiter_wakes(id, waiters@.take(k as int)),
            decreases waiters.len() - k,
        {
            extra.push_back(WakeMsg { from: id, to: waiters[k] });
            k = k + 1;
            proof {
                let k = (k - 1) as usize;
                assert(waiters@.take(k as int + 1) =~= waiters@.take(k as int).push(waiters@[k as int]));
                assert(waiter_wakes(id, waiters@.take(k as int + 1)) =~= waiter_wakes(id, waiters@.take(k as int)).push(WakeMsg { from: id, to: waiters@[k as int] }));
            }
        }
        self.core.wakes.append(&mut extra);
        proof {
            assert(waiters@.take(waiters@.len() as int) =~= waiters@);
            let w = spec_finish(old(self)@, id, state);
            assert(self.core.slots@.len() == old(self).core.slots@.len());
            assert(self.tasks@.len() == old(self).tasks@.len());
            assert(self.tasks@[id as int].is_none());
            assert(self.core.slots@[id as int].finish_waiters@ == Seq::<TaskId>::empty());
            assert(self.core.slots@[id as int].view_with(false) == w.tasks[id as int]);
            assert forall|i: int| 0 <= i < w.tasks.len() && i != id implies self@.tasks[i] == w.tasks[i] by {
                assert(self.core.slots@[i] == old(self).core.slots@[i]);
                assert(self.tasks@[i] == old(self).tasks@[i]);
            }
            assert(self@.tasks =~= w.tasks);
            assert(self@.wakes =~= w.wakes);
        }
    }

    /// Records `reason` for task `id` under the scope's rule: see `spec_set_reason`.
    fn set_cancel_reason(&mut self, id: TaskId, reason: CancelReason)
        requires
            old(self).wf(),
        ensures
            final(self).wf(),
            final(self)@ == spec_set_reason(old(self)@, id, reason),
            final(self).tracer() is Some <==> old(self).tracer() is Some,
            final(self).trace_events() == old(self).trace_events(),
    {
        proof {
            lemma_set_reason_wf(self@, id, reason);
        }
        if id >= self.core.slots.len() {
            return;
        }
        let cur = CancelReason::from_u8(self.core.slots[id].cancel_reason);
        if !scope_should_replace(cur, reason) {
            proof {
                assert(self@.tasks =~= spec_set_reason(old(self)@, id, reason).tasks);
            }
            return;
        }
        self.core.slots[id].cancel_reason = reason.as_u8();
        match &mut self.core.slots[id].abort {
            Some(ab) => {
                let c = ab.get();
                if c == PANICKED_CODE {
                } else if c != 0 && !scope_should_replace(CancelReason::from_u8(c), reason) {
                } else {
                    ab.set(reason.as_u8());
                }
            },
            None => {},
        }
        proof {
            assert(self@.tasks =~= spec_set_reason(old(self)@, id, reason).tasks);
        }
    }

    /// Hard-stops task `id` with `reason`, where it is alive: see `spec_cancel_now`.
    pub fn cancel_now_with_reason(&mut self, id: TaskId, reason: CancelReason)
        requires
            old(self).wf(),
        ensures
            final(self).wf(),
            final(self)@ == spec_cancel_now(old(self)@, id, reason),
            final(self).tracer() is Some <==> old(self).tracer() is Some,
            final(self).trace_events() == if alive_in(old(self)@, id as int) && old(self).tracer() is Some {
                old(self).trace_events().push(TraceEvent::CancelHardStop(id, reason))
                    .push(TraceEvent::Finish(id, old(self)@.tasks[id as int].name, TaskState::Cancelled))
            } else {
                old(self).trace_events()
            },
    {
        if id >= self.core.slots.len() {
            return;
        }
        match self.core.slots[id].state {
            TaskState::Alive => {},
            _ => { return; },
        }
        proof {
            lemma_cancel_now_wf(self@, id, reason);
            lemma_set_reason_wf(self@, id, reason);
        }
        self.set_cancel_reason(id, reason);
        match &mut self.core.tracer {
            Some(t) => {
                t.on_cancel_hard_stop(id, reason);
                proof {
                    self.core.trace_log@ = self.core.trace_log@.push(TraceEvent::CancelHardStop(id, reason));
                }
            },
            None => {},
        }
        self.core.slots[id].cancel_flag = true;
        self.core.slots[id].cancel_deadline = None;
        self.core.slots[id].cancel_time_deadline = None;
        match &mut self.core.slots[id].abort {
            Some(ab) => {
                let cur = ab.get();
                if cur != PANICKED_CODE && cur == 0 {
                    ab.set(reason.as_u8());
                }
            },
            None => {},
        }
        proof {
            let v1 = spec_set_reason(old(self)@, id, reason);
            let t1 = v1.tasks[id as int];
            let t2 = TaskView {
                cancel_flag: true,
                cancel_deadline: None,
                cancel_time_deadline: None,
                abort_code: fill_abort_code(t1.abort_code, reason),
                ..t1
            };
            let v2 = SchedView { tasks: v1.tasks.update(id as int, t2), ..v1 };
            assert(self@.tasks =~= v2.tasks);
            assert(self@ == v2);
            lemma_update_benign(v1, id as int, t2);
        }
        self.finish_task(id, TaskState::Cancelled);
    }

    /// Hard-stops task `id` as a user request.
    pub fn cancel_now(&mut self, id: TaskId)
        requires
            old(self).wf(),
        ensures
            final(self).wf(),
            final(self)@ == spec_cancel_now(old(self)@, id, CancelReason::UserRequest),
            final(self).tracer() is Some <==> old(self).tracer() is Some,
            final(self).trace_events() == if alive_in(old(self)@, id as int) && old(self).tracer() is Some {
                old(self).trace_events().push(TraceEvent::CancelHardStop(id, CancelReason::UserRequest))
                    .push(TraceEvent::Finish(id, old(self)@.tasks[id as int].name, TaskState::Cancelled))
            } else {
                old(self).trace_events()
            },
    {
        self.cancel_now_with_reason(id, CancelReason::UserRequest);
    }

    pub fn set_default_cancel_after_ticks(&mut self, ticks: usize)
        requires
            old(self).wf(),
        ensures
            final(self).wf(),
            final(self)@ == (SchedView { default_cancel_ticks: ticks as u64, ..old(self)@ }),
    {
        self.core.cancel_budget_default = ticks as u64;
        proof {
            assert(self@.tasks =~= old(self)@.tasks);
        }
    }

    pub fn set_default_cancel_after_duration(&mut self, dur: Option<Duration>)
        requires
            old(self).wf(),
        ensures
            final(self).wf(),
            final(self)@ == (SchedView { default_cancel_time: dur, ..old(self)@ }),
    {
        self.core.cancel_time_default = dur;
        proof {
            assert(self@.tasks =~= old(self)@.tasks);
        }
    }

    /// Wakes every task waiting for source `token` to become readable.
    pub fn notify_readable(&mut self, token: usize)
        requires
            old(self).wf(),
        ensures
            final(self).wf(),
            final(self)@ == spec_notify_readable(old(self)@, token),
    {
        if token >= self.core.io_read_waiters.len() {
            return;
        }
        let mut woken: Vec<TaskId> = Vec::new();
        std::mem::swap(&mut woken, &mut self.core.io_read_waiters[token]);
        match &mut self.core.tracer {
            Some(t) => {
                t.on_io_notify_readable(token, woken.as_slice());
                proof {
                    self.core.trace_log@ = self.core.trace_log@.push(TraceEvent::IoNotifyReadable(token, woken@));
                }
            },
            None => {},
        }
        let mut extra: VecDeque<WakeMsg> = VecDeque::new();
        let mut k: usize = 0;
        while k < woken.len()
            invariant
                k <= woken.len(),
                extra@ == io_wakes(woken@.take(k as int)),
            decreases woken.len() - k,
        {
            extra.push_back(WakeMsg { from: EXTERNAL_WAKE, to: woken[k] });
            k = k + 1;
            proof {
                let k = (k - 1) as usize;
                assert(woken@.take(k as int + 1) =~= woken@.take(k as int).push(woken@[k as int]));
                assert(io_wakes(woken@.take(k as int + 1)) =~= io_wakes(woken@.take(k as int)).push(WakeMsg { from: EXTERNAL_WAKE, to: woken@[k as int] }));
            }
        }
        self.core.wakes.append(&mut extra);
        proof {
            assert(woken@.take(woken@.len() as int) =~= woken@);
            let w = spec_notify_readable(old(self)@, token);
            assert(self@.tasks =~= w.tasks);
            assert(self@.io_waiters =~= w.io_waiters);
            assert(self@.wakes =~= w.wakes);
            assert(same_skeleton(old(self)@, w));
            lemma_skeleton_wf(old(self)@, w);
        }
    }

    /// `waiter` is to be woken when `target` finishes.
    fn subscribe_finish(&mut self, waiter: TaskId, target: TaskId)
        requires
            old(self).wf(),
        ensures
            final(self).wf(),
            final(self)@ == spec_subscribe_finish(old(self)@, waiter, target),
    {
        match &mut self.core.tracer {
            Some(t) => {
                t.on_subscribe_finish(waiter, target);
                proof {
                    self.core.trace_log@ = self.core.trace_log@.push(TraceEvent::SubscribeFinish(waiter, target));
                }
            },
            None => {},
        }
        if target < self.core.slots.len() {
            self.core.slots[target].finish_waiters.push(waiter);
        }
        proof {
            let w = spec_subscribe_finish(old(self)@, waiter, target);
            assert(self@.tasks =~= w.tasks);
            assert(same_skeleton(old(self)@, w));
            lemma_skeleton_wf(old(self)@, w);
        }
    }

    /// `task` waits for source `token` to become readable.
    fn subscribe_io_readable(&mut self, task: TaskId, token: usize)
        requires
            old(self).wf(),
            token < usize::MAX,
        ensures
            final(self).wf(),
            final(self)@ == spec_subscribe_io(old(self)@, task, token),
    {
        let ghost io0 = self@.io_waiters;
        let mut io: Vec<Vec<TaskId>> = Vec::new();
        std::mem::swap(&mut io, &mut self.core.io_read_waiters);
        if token >= io.len() {
            while io.len() < token + 1
                invariant
                    token < usize::MAX,
                    io0.len() <= io@.len() <= token + 1,
                    io@.map_values(|w: Vec<TaskId>| w@)
                        == io0 + Seq::new((io@.len() - io0.len()) as nat, |i: int| Seq::<TaskId>::empty()),
                decreases token + 1 - io@.len(),
            {
                let ghost before = io@.map_values(|w: Vec<TaskId>| w@);
                io.push(Vec::new());
                proof {
                    assert(io@.map_values(|w: Vec<TaskId>| w@) =~= before.push(Seq::<TaskId>::empty()));
                    assert(io0 + Seq::new((io@.len() - io0.len()) as nat, |i: int| Seq::<TaskId>::empty())
                        =~= (io0 + Seq::new((io@.len() - 1 - io0.len()) as nat, |i: int| Seq::<TaskId>::empty())).push(Seq::<TaskId>::empty()));
                }
            }
        } else {
            proof {
                assert(io@.map_values(|w: Vec<TaskId>| w@) =~= io0);
            }
        }
        std::mem::swap(&mut io, &mut self.core.io_read_waiters);
        self.core.io_read_waiters[token].push(task);
        match &mut self.core.tracer {
            Some(t) => {
                t.on_io_wait_readable(task, token);
                proof {
                    self.core.trace_log@ = self.core.trace_log@.push(TraceEvent::IoWaitReadable(task, token));
                }
            },
            None => {},
        }
        proof {
            let w = spec_subscribe_io(old(self)@, task, token);
            assert(io_grown(io0, token) =~= io0 + Seq::new((token + 1 - io0.len()) as nat, |i: int| Seq::<TaskId>::empty()) || token < io0.len());
            assert(self@.io_waiters =~= w.io_waiters);
            assert(self@.tasks =~= w.tasks);
            assert(same_skeleton(old(self)@, w));
            lemma_skeleton_wf(old(self)@, w);
        }
    }

    /// `task` sleeps until clock reading `deadline`; `now` is the current reading.
    fn subscribe_sleep_until(&mut self, task: TaskId, deadline: Instant, now: Instant)
        requires
            old(self).wf(),
        ensures
            final(self).wf(),
            final(self)@ == spec_subscribe_sleep(old(self)@, task, deadline.nanos),
    {
        if task >= self.core.slots.len() {
            return;
        }
        self.core.slots[task].sleeping_until = Some(deadline.nanos);
        self.core.sleep_queue.push(deadline.nanos, task);
        let micros = deadline.saturating_duration_since(now).as_micros();
        match &mut self.core.tracer {
            Some(t) => {
                t.on_sleep_until(task, micros);
                proof {
                    self.core.trace_log@ = self.core.trace_log@.push(TraceEvent::SleepUntil(task, micros));
                }
            },
            None => {},
        }
        proof {
            let w = spec_subscribe_sleep(old(self)@, task, deadline.nanos);
            assert(self@.tasks =~= w.tasks);
            assert(same_skeleton(old(self)@, w));
            lemma_skeleton_wf(old(self)@, w);
        }
    }

    fn trace_cancel_request(&mut self, id: TaskId, reason: CancelReason, b: CancelBudgets)
        ensures
            final(self).core.slots == old(self).core.slots,
            final(self).tasks == old(self).tasks,
            final(self)@ == old(self)@,
            final(self).wf() == old(self).wf(),
            final(self).tracer() is Some <==> old(self).tracer() is Some,
            final(self).trace_events() == if old(self).tracer() is Some {
                old(self).trace_events().push(TraceEvent::CancelRequest(id, reason, reported_tick_budget(b), reported_time_budget(b)))
            } else {
                old(self).trace_events()
            },
    {
        let tick = if b.tick_budget > 0 { Some(b.tick_budget) } else { None };
        let time = match b.time_budget {
            Some(d) => if d.is_zero() { None } else { Some(d) },
            None => None,
        };
        match &mut self.core.tracer {
            Some(t) => {
                t.on_cancel_request(id, reason, tick, time);
                proof {
                    self.core.trace_log@ = self.core.trace_log@.push(TraceEvent::CancelRequest(id, reason, tick, time));
                }
            },
            None => {},
        }
        proof {
            assert(self@.tasks =~= old(self)@.tasks);
        }
    }

    /// Sets the deadlines of task `id` from budgets `b` at clock reading `now`.
    fn schedule_cancel_deadlines(&mut self, id: TaskId, b: CancelBudgets, now: Instant)
        requires
            old(self).wf(),
            id < old(self)@.tasks.len(),
        ensures
            final(self).wf(),
            final(self)@ == spec_schedule_deadlines(old(self)@, id, b, now.nanos),
    {
        proof {
            lemma_schedule_skeleton(self@, id, b, now.nanos);
            lemma_skeleton_wf(self@, spec_schedule_deadlines(self@, id, b, now.nanos));
        }
        if b.tick_budget > 0 {
            let dl = self.core.tick_count.saturating_add(b.tick_budget);
            self.core.slots[id].cancel_deadline = Some(dl);
            self.core.cancel_queue.push(dl, id);
        } else {
            self.core.slots[id].cancel_deadline = None;
        }
        match b.time_budget {
            Some(d) => {
                let dl = now.plus(d).nanos;
                self.core.slots[id].cancel_time_deadline = Some(dl);
                self.core.cancel_time_queue.push(dl, id);
            },
            None => {
                self.core.slots[id].cancel_time_deadline = None;
            },
        }
        proof {
            let w = spec_schedule_deadlines(old(self)@, id, b, now.nanos);
            assert(self@.tasks =~= w.tasks);
        }
    }

    /// A cancel request made from inside a poll: see `spec_hook_cancel`.
    fn hook_request_cancel_escalate(&mut self, target: TaskId, esc: CancelEscalation, reason: CancelReason, now: Instant)
        requires
            old(self).wf(),
        ensures
            final(self).wf(),
            final(self)@ == spec_hook_cancel(old(self)@, target, esc, reason, now.nanos),
    {
        proof {
            lemma_hook_cancel_skeleton(self@, target, esc, reason, now.nanos);
            lemma_skeleton_wf(self@, spec_hook_cancel(self@, target, esc, reason, now.nanos));
        }
        if target >= self.core.slots.len() {
            return;
        }
        match self.core.slots[target].state {
            TaskState::Alive => {},
            _ => { return; },
        }
        let cur = CancelReason::from_u8(self.core.slots[target].cancel_reason);
        if scope_should_replace(cur, reason) {
            self.core.slots[target].cancel_reason = reason.as_u8();
        }
        match &mut self.core.slots[target].abort {
            Some(ab) => {
                let c = ab.get();
                if c != PANICKED_CODE && c == 0 {
                    ab.set(reason.as_u8());
                }
            },
            None => {},
        }
        self.core.slots[target].cancel_flag = true;
        self.core.wakes.push_back(WakeMsg { from: EXTERNAL_WAKE, to: target });
        let b = resolve_cancel_budgets(self.core.cancel_budget_default, self.core.cancel_time_default, esc);
        let ghost mid = self@;
        proof {
            let v = old(self)@;
            let t = v.tasks[target as int];
            let t1 = if scope_replaces(reason_of_code(t.cancel_reason), reason) {
                TaskView { cancel_reason: reason_code(reason), ..t }
            } else {
                t
            };
            let t2 = TaskView { abort_code: fill_abort_code(t1.abort_code, reason), cancel_flag: true, ..t1 };
            let v2 = SchedView {
                tasks: v.tasks.update(target as int, t2),
                wakes: v.wakes.push(WakeMsg { from: EXTERNAL_WAKE, to: target }),
                ..v
            };
            assert(self@.tasks =~= v2.tasks);
            assert(self@ == v2);
            assert(same_skeleton(v, v2));
            lemma_skeleton_wf(v, v2);
        }
        self.trace_cancel_request(target, reason, b);
        if b.immediate {
            self.core.slots[target].cancel_time_deadline = Some(now.nanos);
            self.core.cancel_time_queue.push(now.nanos, target);
            proof {
                let w = spec_hook_cancel(old(self)@, target, esc, reason, now.nanos);
                assert(self@.tasks =~= w.tasks);
            }
            return;
        }
        self.schedule_cancel_deadlines(target, b, now);
    }

    /// A cancel request at clock reading `now`: see `spec_request_cancel`.
    pub fn request_cancel_escalate_with_reason_at(&mut self, id: TaskId, esc: CancelEscalation, reason: CancelReason, now: Instant)
        requires
            old(self).wf(),
        ensures
            final(self).wf(),
            final(self)@ == spec_request_cancel(old(self)@, id, esc, reason, now.nanos),
    {
        proof {
            lemma_request_cancel_wf(self@, id, esc, reason, now.nanos);
        }
        if id >= self.core.slots.len() {
            return;
        }
        match self.core.slots[id].state {
            TaskState::Alive => {},
            _ => { return; },
        }
        proof {
            lemma_set_reason_wf(self@, id, reason);
        }
        self.set_cancel_reason(id, reason);
        self.core.slots[id].cancel_flag = true;
        self.core.wakes.push_back(WakeMsg { from: EXTERNAL_WAKE, to: id });
        let b = resolve_cancel_budgets(self.core.cancel_budget_default, self.core.cancel_time_default, esc);
        proof {
            let v1 = spec_set_reason(old(self)@, id, reason);
            let v2 = SchedView {
                tasks: v1.tasks.update(id as int, TaskView { cancel_flag: true, ..v1.tasks[id as int] }),
                wakes: v1.wakes.push(WakeMsg { from: EXTERNAL_WAKE, to: id }),
                ..v1
            };
            assert(self@.tasks =~= v2.tasks);
            assert(self@ == v2);
            assert(same_skeleton(v1, v2));
            lemma_skeleton_wf(v1, v2);
        }
        self.trace_cancel_request(id, reason, b);
        if b.immediate {
            self.cancel_now_with_reason(id, reason);
            return;
        }
        self.schedule_cancel_deadlines(id, b, now);
    }

    /// Best-effort cancel of task `id` with an explicit escalation and reason.
    pub fn request_cancel_escalate_with_reason(&mut self, id: TaskId, esc: CancelEscalation, reason: CancelReason)
        requires
            old(self).wf(),
        ensures
            final(self).wf(),
            exists|now: u64| now >= old(self)@.clock_floor
                && final(self)@ == spec_request_cancel(#[trigger] at_reading(old(self)@, now), id, esc, reason, now),
    {
        let now = self.read_clock();
        proof {
            assert(self@ == at_reading(old(self)@, now.nanos));
        }
        self.request_cancel_escalate_with_reason_at(id, esc, reason, now);
    }

    /// Cancel of task `id` under the scope's default escalation, as a user request.
    pub fn request_cancel_escalate(&mut self, id: TaskId)
        requires
            old(self).wf(),
        ensures
            final(self).wf(),
            exists|now: u64| now >= old(self)@.clock_floor
                && final(self)@ == spec_request_cancel(#[trigger] at_reading(old(self)@, now), id, CancelEscalation { tick: TickEscalation::Default, time: TimeEscalation::Default }, CancelReason::UserRequest, now),
    {
        let esc = CancelEscalation::use_defaults();
        self.request_cancel_escalate_with_reason(id, esc, CancelReason::UserRequest);
    }

    /// Reads the clock, never below the latest reading taken, and records the
    /// reading as the latest.
    fn read_clock(&mut self) -> (i: Instant)
        requires
            old(self).wf(),
        ensures
            final(self).wf(),
            i.nanos >= old(self)@.clock_floor,
            final(self)@ == (SchedView { clock_floor: i.nanos, ..old(self)@ }),
    {
        let raw = self.clock.now();
        let n = if raw.nanos < self.core.last_now { self.core.last_now } else { raw.nanos };
        self.core.last_now = n;
        proof {
            assert(self@.tasks =~= old(self)@.tasks);
            lemma_skeleton_wf(old(self)@, self@);
        }
        Instant { nanos: n }
    }

    /// Hard-stops every task whose tick deadline has come: see `spec_fire_cancels`.
    fn fire_expired_cancels(&mut self)
        requires
            old(self).wf(),
        ensures
            final(self).wf(),
            final(self)@ == spec_fire_cancels(old(self)@),
    {
        loop
            invariant
                self.wf(),
                spec_fire_cancels(self@) == spec_fire_cancels(old(self)@),
            ensures
                self.wf(),
                self@ == spec_fire_cancels(old(self)@),
            decreases self@.cancel_queue.len(),
        {
            let top = self.core.cancel_queue.peek_min();
            match top {
                None => { break; },
                Some(e) => {
                    let (dl, id) = e;
                    if dl > self.core.tick_count {
                        break;
                    }
                    let ghost v0 = self@;
                    self.core.cancel_queue.pop_min();
                    proof {
                        let v1 = SchedView { cancel_queue: v0.cancel_queue.drop_last(), ..v0 };
                        assert(self@.tasks =~= v1.tasks);
                        assert(self@ == v1);
                        assert(same_skeleton(v0, v1));
                        lemma_skeleton_wf(v0, v1);
                    }
                    if id < self.core.slots.len() {
                        let due = match self.core.slots[id].state {
                            TaskState::Alive => self.core.slots[id].cancel_flag && match self.core.slots[id].cancel_deadline {
                                Some(d) => d == dl,
                                None => false,
                            },
                            _ => false,
                        };
                        if due {
                            self.cancel_now_with_reason(id, CancelReason::TimeoutTicks);
                        }
                    }
                },
            }
        }
    }

    /// Hard-stops every task whose time deadline is at or before `now`: see
    /// `spec_fire_cancel_times`.
    fn fire_expired_cancel_times(&mut self, now: Instant)
        requires
            old(self).wf(),
        ensures
            final(self).wf(),
            final(self)@ == spec_fire_cancel_times(old(self)@, now.nanos),
    {
        loop
            invariant
                self.wf(),
                spec_fire_cancel_times(self@, now.nanos) == spec_fire_cancel_times(old(self)@, now.nanos),
            ensures
                self.wf(),
                self@ == spec_fire_cancel_times(old(self)@, now.nanos),
            decreases self@.cancel_time_queue.len(),
        {
            let top = self.core.cancel_time_queue.peek_min();
            match top {
                None => { break; },
                Some(e) => {
                    let (dl, id) = e;
                    if dl > now.nanos {
                        break;
                    }
                    let ghost v0 = self@;
                    self.core.cancel_time_queue.pop_min();
                    proof {
                        let v1 = SchedView { cancel_time_queue: v0.cancel_time_queue.drop_last(), ..v0 };
                        assert(self@.tasks =~= v1.tasks);
                        assert(self@ == v1);
                        assert(same_skeleton(v0, v1));
                        lemma_skeleton_wf(v0, v1);
                    }
                    if id < self.core.slots.len() {
                        let due = match self.core.slots[id].state {
                            TaskState::Alive => self.core.slots[id].cancel_flag && match self.core.slots[id].cancel_time_deadline {
                                Some(d) => d == dl,
                                None => false,
                            },
                            _ => false,
                        };
                        if due {
                            self.cancel_now_with_reason(id, CancelReason::TimeoutTime);
                        }
                    }
                },
            }
        }
    }

    /// Wakes every task whose sleep deadline is at or before `now`: see
    /// `spec_fire_timers`.
    fn fire_expired_timers(&mut self, now: Instant)
        requires
            old(self).wf(),
        ensures
            final(self).wf(),
            final(self)@ == spec_fire_timers(old(self)@, now.nanos),
    {
        loop
            invariant
                self.wf(),
                spec_fire_timers(self@, now.nanos) == spec_fire_timers(old(self)@, now.nanos),
            ensures
                self.wf(),
                self@ == spec_fire_timers(old(self)@, now.nanos),
            decreases self@.sleep_queue.len(),
        {
            let top = self.core.sleep_queue.peek_min();
            match top {
                None => { break; },
                Some(e) => {
                    let (dl, task) = e;
                    if dl > now.nanos {
                        break;
                    }
                    let ghost v0 = self@;
                    self.core.sleep_queue.pop_min();
                    let ghost v1 = SchedView { sleep_queue: v0.sleep_queue.drop_last(), ..v0 };
                    proof {
                        assert(self@.tasks =~= v1.tasks);
                        assert(self@ == v1);
                    }
                    if task < self.core.slots.len() {
                        let due = match self.core.slots[task].sleeping_until {
                            Some(d) => d == dl,
                            None => false,
                        } && match self.core.slots[task].state {
                            TaskState::Alive => true,
                            _ => false,
                        };
                        if due {
                            self.core.slots[task].sleeping_until = None;
                            self.core.wakes.push_back(WakeMsg { from: EXTERNAL_WAKE, to: task });
                        }
                    }
                    proof {
                        let v2 = spec_fire_timer_entry(v1, dl, task);
                        assert(self@.tasks =~= v2.tasks);
                        assert(self@ == v2);
                        assert(same_skeleton(v0, v2));
                        lemma_skeleton_wf(v0, v2);
                    }
                },
            }
        }
    }

    fn on_wake_msg(&mut self, msg: WakeMsg)
        requires
            old(self).wf(),
        ensures
            final(self).wf(),
            final(self)@ == spec_enqueue(old(self)@, msg.to),
    {
        match &mut self.core.tracer {
            Some(t) => {
                t.on_wake(msg.from, msg.to);
                proof {
                    self.core.trace_log@ = self.core.trace_log@.push(TraceEvent::Wake(msg.from, msg.to));
                }
            },
            None => {},
        }
        proof {
            assert(self@.tasks =~= old(self)@.tasks);
        }
        self.enqueue_ready(msg.to);
    }

    /// Takes in the wake messages sent from this thread: see `spec_drain_wakes`.
    fn drain_local_wakes(&mut self)
        requires
            old(self).wf(),
        ensures
            final(self).wf(),
            final(self)@ == spec_drain_wakes(old(self)@),
    {
        loop
            invariant
                self.wf(),
                spec_drain_wakes(self@) == spec_drain_wakes(old(self)@),
            ensures
                self.wf(),
                self@ == spec_drain_wakes(old(self)@),
            decreases self@.wakes.len(),
        {
            let ghost v0 = self@;
            match self.core.wakes.pop_front() {
                None => {
                    proof {
                        assert(v0.wakes =~= Seq::<WakeMsg>::empty());
                        assert(v0 == SchedView { wakes: Seq::empty(), ..v0 });
                    }
                    break;
                },
                Some(m) => {
                    let ghost v1 = SchedView { wakes: v0.wakes.drop_first(), ..v0 };
                    proof {
                        assert(self@.tasks =~= v1.tasks);
                        assert(self@.wakes =~= v1.wakes);
                        assert(self@ == v1);
                        assert(same_skeleton(v0, v1));
                        lemma_skeleton_wf(v0, v1);
                    }
                    self.on_wake_msg(m);
                    proof {
                        let e0 = SchedView { wakes: Seq::empty(), ..v0 };
                        assert(SchedView { wakes: Seq::empty(), ..spec_enqueue(v1, m.to) } == spec_enqueue(e0, m.to));
                    }
                },
            }
        }
    }

    /// Takes in the wake messages that other handles sent through the channel.
    fn drain_channel_wakes(&mut self)
        requires
            old(self).wf(),
        ensures
            final(self).wf(),
            exists|msgs: Seq<WakeMsg>| final(self)@ == spec_enqueue_all(old(self)@, msgs),
    {
        let ghost mut got: Seq<WakeMsg> = Seq::empty();
        let mut budget: u64 = u64::MAX;
        while budget > 0
            invariant
                self.wf(),
                self@ == spec_enqueue_all(old(self)@, got),
            decreases budget,
        {
            match self.wake_rx.try_recv() {
                Some(m) => {
                    proof {
                        lemma_enqueue_all_push(old(self)@, got, m);
                        got = got.push(m);
                    }
                    self.on_wake_msg(m);
                },
                None => {
                    budget = 0;
                },
            }
            if budget > 0 {
                budget = budget - 1;
            }
        }
    }

    /// Takes in the deferred spawns: see `spec_drain_spawns`.
    fn drain_spawns(&mut self)
        requires
            old(self).wf(),
        ensures
            final(self).wf(),
            final(self)@ == spec_drain_spawns(old(self)@),
    {
        loop
            invariant
                self.wf(),
                spec_drain_spawns(self@) == spec_drain_spawns(old(self)@),
            ensures
                self.wf(),
                self@ == spec_drain_spawns(old(self)@),
            decreases self@.spawns.len(),
        {
            if self.tasks.len() == usize::MAX {
                break;
            }
            let ghost v0 = self@;
            match self.core.spawns.pop_front() {
                None => { break; },
                Some(req) => {
                    let ghost v1 = SchedView { spawns: v0.spawns.drop_first(), ..v0 };
                    proof {
                        assert(self@.tasks =~= v1.tasks);
                        assert(self@.spawns =~= v1.spawns);
                        assert(self@ == v1);
                        assert(same_skeleton(v0, v1));
                        lemma_skeleton_wf(v0, v1);
                        assert(req.name@ == v0.spawns[0].1);
                    }
                    let SpawnReq { parent, name, task } = req;
                    match &mut self.core.tracer {
                        Some(t) => {
                            t.on_defer_spawn(parent, name.as_str());
                            proof {
                                self.core.trace_log@ = self.core.trace_log@.push(TraceEvent::DeferSpawn(parent, name@));
                            }
                        },
                        None => {},
                    }
                    proof {
                        assert(self@.tasks =~= v1.tasks);
                    }
                    self.push_task(name, task);
                },
            }
        }
    }

    /// Carries out the requests that task `id` made in one poll, in order, at
    /// clock reading `now`: see `spec_apply_requests`.
    fn apply_requests(&mut self, id: TaskId, requests: VecDeque<CxRequest<T>>, now: Instant)
        requires
            old(self).wf(),
        ensures
            final(self).wf(),
            final(self)@ == spec_apply_requests(old(self)@, id, requests@.map_values(|r: CxRequest<T>| request_view(r)), now.nanos),
    {
        let mut requests = requests;
        let ghost target = spec_apply_requests(old(self)@, id, requests@.map_values(|r: CxRequest<T>| request_view(r)), now.nanos);
        loop
            invariant
                self.wf(),
                spec_apply_requests(self@, id, requests@.map_values(|r: CxRequest<T>| request_view(r)), now.nanos) == target,
            ensures
                self.wf(),
                self@ == target,
            decreases requests@.len(),
        {
            let ghost rs0 = requests@.map_values(|r: CxRequest<T>| request_view(r));
            let ghost v0 = self@;
            match requests.pop_front() {
                None => {
                    proof {
                        assert(rs0.len() == 0);
                    }
                    break;
                },
                Some(r) => {
                    proof {
                        assert(requests@.map_values(|r: CxRequest<T>| request_view(r)) =~= rs0.drop_first());
                        assert(rs0[0] == request_view(r));
                        lemma_apply_request_skeleton(v0, id, rs0[0], now.nanos);
                    }
                    match r {
                        CxRequest::Wake(to) => {
                            self.core.wakes.push_back(WakeMsg { from: id, to });
                            proof {
                                assert(self@.tasks =~= v0.tasks);
                                lemma_skeleton_wf(v0, self@);
                            }
                        },
                        CxRequest::SubscribeFinish(t) => {
                            self.subscribe_finish(id, t);
                        },
                        CxRequest::Spawn(name, task) => {
                            let ghost nm = name@;
                            self.core.spawns.push_back(SpawnReq { parent: id, name, task });
                            proof {
                                assert(self@.tasks =~= v0.tasks);
                                assert(self@.spawns =~= v0.spawns.push((id, nm)));
                                lemma_skeleton_wf(v0, self@);
                            }
                        },
                        CxRequest::WaitReadable(token) => {
                            if token < usize::MAX {
                                self.subscribe_io_readable(id, token);
                            }
                        },
                        CxRequest::SleepUntil(d) => {
                            self.subscribe_sleep_until(id, d, now);
                        },
                        CxRequest::Cancel(t, e, reason) => {
                            self.hook_request_cancel_escalate(t, e, reason, now);
                        },
                    }
                },
            }
        }
    }

    /// Polls alive task `id` once and carries out what the poll asked and
    /// reported: see `spec_after_poll`.
    fn poll_one(&mut self, id: TaskId)
        where T: PollTask<R, Tr>
        requires
            old(self).wf(),
            id < old(self)@.tasks.len(),
            is_alive(old(self)@.tasks[id as int]),
        ensures
            final(self).wf(),
            exists|outcome: PollOutcome, rs: Seq<RequestView>, now: u64|
                now >= old(self)@.clock_floor && final(self)@ == spec_after_poll(old(self)@, id, outcome, rs, now),
    {
        self.core.poll_seq = self.core.poll_seq.saturating_add(1);
        let seq = self.core.poll_seq;
        let ghost vp = self@;
        proof {
            let w = SchedView { poll_seq: saturating_add(old(self)@.poll_seq, 1), ..old(self)@ };
            assert(self@.tasks =~= w.tasks);
            assert(vp == w);
            assert(self.tasks@[id as int].is_some());
        }
        let name = self.core.slots[id].name.clone();
        let mut body: Option<T> = None;
        std::mem::swap(&mut body, &mut self.tasks[id]);
        let mut task = body.unwrap();
        match &mut self.core.tracer {
            Some(t) => {
                t.on_poll_seq(seq, id, name.as_str());
                t.on_poll_begin(id, name.as_str());
                proof {
                    self.core.trace_log@ = self.core.trace_log@.push(TraceEvent::PollSeq(seq, id, name@)).push(TraceEvent::PollBegin(id, name@));
                }
            },
            None => {},
        }
        let ghost slots_before = self.core.slots@;
        let (outcome, requests) = {
            let mut cx = Cx {
                resources: &mut *self.resources,
                core: &self.core,
                clock: &self.clock,
                id,
                wake_tx: self.wake_tx.clone(),
                requests: VecDeque::new(),
            };
            proof {
                assert(cx.pending() =~= Seq::<RequestView>::empty());
            }
            let o = task.poll_task(&mut cx);
            let Cx { resources: _, core: _, clock: _, id: _, wake_tx: _, requests } = cx;
            (o, requests)
        };
        let polls_now = Ghost((self.core.slots@[id as int].polled@ + 1) as nat);
        self.core.slots[id].polled = polls_now;
        self.tasks.set(id, Some(task));
        let ghost v0 = SchedView {
            tasks: vp.tasks.update(id as int, TaskView { polls: vp.tasks[id as int].polls + 1, ..vp.tasks[id as int] }),
            ..vp
        };
        proof {
            assert(self@.tasks =~= v0.tasks);
            assert(self@ == v0);
            lemma_update_benign(vp, id as int, v0.tasks[id as int]);
        }
        let now = self.read_clock();
        let ghost vc = self@;
        self.apply_requests(id, requests, now);
        let ghost v1 = self@;
        match &mut self.core.tracer {
            Some(t) => {
                t.on_poll_end(id, name.as_str());
                proof {
                    self.core.trace_log@ = self.core.trace_log@.push(TraceEvent::PollEnd(id, name@));
                }
            },
            None => {},
        }
        proof {
            assert(self@.tasks =~= v1.tasks);
            assert(self@ == v1);
            lemma_apply_requests_skeleton(vc, id, requests@.map_values(|r: CxRequest<T>| request_view(r)), now.nanos);
            assert(v1.tasks[id as int].state == vc.tasks[id as int].state);
        }
        match outcome {
            PollOutcome::Pending => {},
            PollOutcome::Ready => {
                self.finish_task(id, TaskState::Completed);
            },
            PollOutcome::Panicked => {
                match &mut self.core.slots[id].abort {
                    Some(ab) => ab.set(PANICKED_CODE),
                    None => {},
                }
                proof {
                    let w = spec_mark_panicked(v1, id);
                    assert(self@.tasks =~= w.tasks);
                    assert(self@ == w);
                    lemma_update_benign(v1, id as int, w.tasks[id as int]);
                }
                self.finish_task(id, TaskState::Panicked);
            },
        }
        proof {
            let rs = requests@.map_values(|r: CxRequest<T>| request_view(r));
            assert(self@ == spec_after_poll(old(self)@, id, outcome, rs, now.nanos));
        }
    }

    /// Runs one scheduling step: fires due deadlines, takes in deferred spawns and
    /// wake messages, then polls the task at the front of the ready queue.
    ///
    /// `Done` exactly when no task is alive (and then nothing changes); `Idle` when
    /// no task was ready; `Progress` otherwise.
    pub fn tick(&mut self) -> (r: TickResult)
        where T: PollTask<R, Tr>
        requires
            old(self).wf(),
        ensures
            final(self).wf(),
            (r is Done) <==> old(self)@.active == 0,
            r is Done ==> final(self)@ == old(self)@,
            !(r is Done) ==> final(self)@.tick_count == saturating_add(old(self)@.tick_count, 1),
            finished_stay_finished(old(self)@, final(self)@),
            is_tick(old(self)@, final(self)@, r),
    {
        if self.core.active == 0 {
            proof {
                lemma_skeleton_wf(self@, self@);
                let f = old(self)@.clock_floor;
                assert((self@, TickResult::Done) == spec_tick(old(self)@, f, f, Seq::empty(), PollOutcome::Pending, Seq::empty(), f));
            }
            return TickResult::Done;
        }
        self.core.tick_count = self.core.tick_count.saturating_add(1);
        let ghost v0 = self@;
        proof {
            let w = SchedView { tick_count: saturating_add(old(self)@.tick_count, 1), ..old(self)@ };
            assert(self@.tasks =~= w.tasks);
            assert(same_skeleton(old(self)@, v0));
            lemma_skeleton_wf(old(self)@, v0);
        }
        proof { lemma_fire_cancels_wf(self@); }
        proof { lemma_fire_cancels_floor(self@); }
        self.fire_expired_cancels();
        let ghost va = self@;
        let now = self.read_clock();
        proof {
            lemma_finished_trans(old(self)@, v0, va);
            assert(finished_stay_finished(va, self@));
            lemma_fire_cancel_times_wf(self@, now.nanos);
        }
        proof { lemma_fire_cancel_times_floor(self@, now.nanos); }
        self.fire_expired_cancel_times(now);
        let ghost vb = self@;
        let now2 = self.read_clock();
        proof {
            assert(finished_stay_finished(vb, self@));
            lemma_fire_timers_wf(self@, now2.nanos);
        }
        self.fire_expired_timers(now2);
        proof { lemma_drain_spawns_wf(self@); }
        self.drain_spawns();
        let ghost v1 = self@;
        proof {
            lemma_finished_trans(old(self)@, v0, spec_fire_cancels(v0));
            assert(finished_stay_finished(old(self)@, v1)) by {
                let a = SchedView { clock_floor: now.nanos, ..spec_fire_cancels(v0) };
                let b = SchedView { clock_floor: now2.nanos, ..spec_fire_cancel_times(a, now.nanos) };
                let c = spec_fire_timers(b, now2.nanos);
                lemma_finished_trans(old(self)@, va, a);
                lemma_finished_trans(old(self)@, a, vb);
                lemma_finished_trans(old(self)@, vb, b);
                lemma_finished_trans(old(self)@, b, c);
                lemma_finished_trans(old(self)@, c, v1);
            }
            lemma_enqueue_all_wf(SchedView { wakes: Seq::empty(), ..v1 }, v1.wakes);
            assert(same_skeleton(v1, SchedView { wakes: Seq::empty(), ..v1 }));
            lemma_finished_trans(old(self)@, v1, SchedView { wakes: Seq::empty(), ..v1 });
        }
        self.drain_local_wakes();
        let ghost v2 = self@;
        self.drain_channel_wakes();
        let ghost msgs = choose|msgs: Seq<WakeMsg>| self@ == spec_enqueue_all(v2, msgs);
        proof {
            lemma_enqueue_all_wf(v2, msgs);
            lemma_finished_trans(old(self)@, v2, self@);
        }
        let ghost v3 = self@;
        assert(v3 == spec_tick_prepare(old(self)@, now.nanos, now2.nanos, msgs));
        proof { lemma_tick_prepare_floor(old(self)@, now.nanos, now2.nanos, msgs); }
        match self.core.ready.pop_front() {
            None => {
                proof {
                    assert(self@.ready =~= v3.ready);
                    assert(self@.tasks =~= v3.tasks);
                    assert(self@ == v3);
                    assert((self@, TickResult::Idle) == spec_tick(old(self)@, now.nanos, now2.nanos, msgs, PollOutcome::Pending, Seq::empty(), now2.nanos));
                }
                TickResult::Idle
            },
            Some(id) => {
                proof {
                    lemma_pop_ready_wf(v3);
                }
                self.core.slots[id].queued = false;
                proof {
                    let w = SchedView {
                        tasks: v3.tasks.update(id as int, TaskView { queued: false, ..v3.tasks[id as int] }),
                        ready: v3.ready.drop_first(),
                        ..v3
                    };
                    assert(self@.tasks =~= w.tasks);
                    assert(self@.ready =~= w.ready);
                    assert(self@ == w);
                    lemma_finished_trans(old(self)@, v3, w);
                }
                let ghost v4 = self@;
                let ghost mut polled: (PollOutcome, Seq<RequestView>, u64) = (PollOutcome::Pending, Seq::empty(), now2.nanos);
                let alive = match self.core.slots[id].state {
                    TaskState::Alive => true,
                    _ => false,
                };
                if alive {
                    self.poll_one(id);
                    proof {
                        polled = choose|outcome: PollOutcome, rs: Seq<RequestView>, now3: u64|
                            now3 >= v4.clock_floor && self@ == spec_after_poll(v4, id, outcome, rs, now3);
                        lemma_after_poll_wf(v4, id, polled.0, polled.1, polled.2);
                        lemma_finished_trans(old(self)@, v4, self@);
                    }
                }
                proof {
                    assert((self@, TickResult::Progress) == spec_tick(old(self)@, now.nanos, now2.nanos, msgs, polled.0, polled.1, polled.2));
                }
                TickResult::Progress
            },
        }
    }

    /// Runs up to `n` ticks, stopping early when the scope goes idle or done.
    /// Returns how many ticks made progress, and `Done` when no task is left
    /// alive, `Idle` when a tick found nothing ready, `Progress` otherwise.
    pub fn tick_n(&mut self, n: usize) -> (res: (usize, TickResult))
        where T: PollTask<R, Tr>
        requires
            old(self).wf(),
        ensures
            final(self).wf(),
            finished_stay_finished(old(self)@, final(self)@),
            res.0 <= n,
            res.1 is Done ==> final(self)@.active == 0,
            res.1 is Idle ==> res.0 < n,
            res.1 is Progress ==> res.0 == n && final(self)@.active > 0,
            exists|states: Seq<SchedView>, results: Seq<TickResult>|
                #![trigger is_tick_run(states, results)]
                {
                    &&& is_tick_run(states, results)
                    &&& states[0] == old(self)@
                    &&& states.last() == final(self)@
                    &&& results.len() <= n
                    &&& if results.len() > 0 && !(results.last() is Progress) {
                        &&& res.0 == results.len() - 1
                        &&& res.1 == results.last()
                    } else {
                        &&& results.len() == n
                        &&& res.0 == n
                        &&& res.1 == if final(self)@.active == 0 { TickResult::Done } else { TickResult::Progress }
                    }
                },
    {
        let mut progressed: usize = 0;
        let mut i: usize = 0;
        let ghost mut states: Seq<SchedView> = seq![self@];
        let ghost mut results: Seq<TickResult> = Seq::empty();
        while i < n
            invariant
                self.wf(),
                finished_stay_finished(old(self)@, self@),
                progressed == i,
                i <= n,
                is_tick_run(states, results),
                states[0] == old(self)@,
                states.last() == self@,
                results.len() == i,
                forall|k: int| 0 <= k < results.len() ==> #[trigger] results[k] is Progress,
            decreases n - i,
        {
            let ghost before = self@;
            let r = self.tick();
            proof {
                lemma_finished_trans(old(self)@, before, self@);
                let s0 = states;
                let r0 = results;
                states = states.push(self@);
                results = results.push(r);
                assert forall|k: int| 0 <= k < results.len() implies is_tick(states[k], states[k + 1], #[trigger] results[k]) by {
                    if k < r0.len() {
                        assert(results[k] == r0[k]);
                        assert(states[k] == s0[k]);
                        assert(states[k + 1] == s0[k + 1]);
                    } else {
                        assert(states[k] == before);
                    }
                }
                assert forall|k: int| 0 <= k < results.len() - 1 implies #[trigger] results[k] is Progress by {
                    assert(results[k] == r0[k]);
                }
                assert(is_tick_run(states, results));
            }
            match r {
                TickResult::Progress => {
                    progressed = progressed + 1;
                },
                TickResult::Idle => {
                    return (progressed, TickResult::Idle);
                },
                TickResult::Done => {
                    return (progressed, TickResult::Done);
                },
            }
            i = i + 1;
        }
        proof {
            assert(is_tick_run(states, results));
        }
        if self.core.active == 0 {
            (progressed, TickResult::Done)
        } else {
            (progressed, TickResult::Progress)
        }
    }

    /// Number of alive tasks.
    pub fn active(&self) -> (n: usize)
        ensures
            n == self@.active,
    {
        self.core.active
    }

    /// Number of tasks spawned so far.
    pub fn num_tasks(&self) -> (n: usize)
        requires
            self.wf(),
        ensures
            n == self@.tasks.len(),
    {
        self.core.slots.len()
    }

    /// State of task `id`, if there is such a task.
    pub fn state_of(&self, id: TaskId) -> (st: Option<TaskState>)
        requires
            self.wf(),
        ensures
            st == if id < self@.tasks.len() { Some(self@.tasks[id as int].state) } else { None },
    {
        if id < self.core.slots.len() {
            Some(self.core.slots[id].state)
        } else {
            None
        }
    }

    /// Gives joinable task `id` the abort cell that its output side reads.
    pub fn attach_abort_cell(&mut self, id: TaskId, cell: AbortCell)
        requires
            old(self).wf(),
        ensures
            final(self).wf(),
            final(self)@ == if id < old(self)@.tasks.len() {
                SchedView {
                    tasks: old(self)@.tasks.update(id as int, TaskView { abort_code: Some(cell.code()), ..old(self)@.tasks[id as int] }),
                    ..old(self)@
                }
            } else {
                old(self)@
            },
    {
        if id < self.core.slots.len() {
            let ghost c = cell.code();
            self.core.slots[id].abort = Some(cell);
            proof {
                let t = TaskView { abort_code: Some(c), ..old(self)@.tasks[id as int] };
                assert(self@.tasks =~= old(self)@.tasks.update(id as int, t));
                lemma_update_benign(old(self)@, id as int, t);
            }
        }
    }

    /// Time from clock reading `now` to the earliest sleep or cancel time deadline,
    /// or `None` when there is none.
    pub fn time_to_next_deadline_at(&self, now: Instant) -> (d: Option<Duration>)
        requires
            self.wf(),
        ensures
            d == spec_time_to_next(self@, now.nanos),
    {
        let a = match self.core.sleep_queue.peek_min() {
            Some(e) => Some(e.0),
            None => None,
        };
        let b = match self.core.cancel_time_queue.peek_min() {
            Some(e) => Some(e.0),
            None => None,
        };
        let next = match (a, b) {
            (None, None) => { return None; },
            (Some(x), None) => x,
            (None, Some(y)) => y,
            (Some(x), Some(y)) => if x <= y { x } else { y },
        };
        Some(Instant { nanos: next }.saturating_duration_since(now))
    }

    pub fn time_to_next_deadline(&self) -> (d: Option<Duration>)
        requires
            self.wf(),
        ensures
            exists|now: u64| now >= self@.clock_floor && d == #[trigger] spec_time_to_next(self@, now),
    {
        let raw = self.clock.now();
        let now = if raw.nanos < self.core.last_now { Instant { nanos: self.core.last_now } } else { raw };
        self.time_to_next_deadline_at(now)
    }

    /// Takes in what a wait on the wake channel gave: a message queues its target
    /// (see `spec_take_wake`). Returns false when every sender is gone.
    pub fn take_wake(&mut self, got: WakeRecvTimeout) -> (connected: bool)
        requires
            old(self).wf(),
        ensures
            final(self).wf(),
            (final(self)@, connected) == spec_take_wake(old(self)@, got),
    {
        match got {
            WakeRecvTimeout::Msg(m) => {
                proof { lemma_enqueue_wf(self@, m.to); }
                self.on_wake_msg(m);
                true
            },
            WakeRecvTimeout::Timeout => {
                proof { lemma_skeleton_wf(self@, self@); }
                true
            },
            WakeRecvTimeout::Disconnected => {
                proof { lemma_skeleton_wf(self@, self@); }
                false
            },
        }
    }

    /// Waits for one wake message from the channel (at most `timeout`, or until one
    /// comes when `timeout` is `None`) and takes it in (see `spec_take_wake`).
    /// Returns false when every sender is gone. What the wait gives depends on the
    /// other handles of the channel; without a timeout it never times out.
    pub fn wait_for_wake(&mut self, timeout: Option<Duration>) -> (connected: bool)
        requires
            old(self).wf(),
        ensures
            final(self).wf(),
            exists|got: WakeRecvTimeout| {
                &&& timeout is None ==> !(got is Timeout)
                &&& (final(self)@, connected) == #[trigger] spec_take_wake(old(self)@, got)
            },
    {
        let got = match timeout {
            Some(d) => self.wake_rx.recv_timeout(d),
            None => match self.wake_rx.recv() {
                Some(m) => WakeRecvTimeout::Msg(m),
                None => WakeRecvTimeout::Disconnected,
            },
        };
        let ghost g = got;
        let connected = self.take_wake(got);
        proof {
            assert(timeout is None ==> !(g is Timeout));
        }
        connected
    }

    pub fn set_tracer(&mut self, tracer: Tr)
        requires
            old(self).wf(),
        ensures
            final(self).wf(),
            final(self)@ == old(self)@,
            final(self).tracer() == Some(tracer),
            final(self).trace_events() == old(self).trace_events(),
    {
        self.core.tracer = Some(tracer);
        proof {
            assert(self@.tasks =~= old(self)@.tasks);
        }
    }
}


impl<'p, R, T, Tr> Cx<'p, R, T, Tr> {
    /// The polled task.
    pub closed spec fn task(&self) -> TaskId {
        self.id
    }

    /// States of the scope's tasks as the poll began.
    pub closed spec fn task_states(&self) -> Seq<TaskState> {
        self.core.slots@.map_values(|t: TaskSlot| t.state)
    }

    /// The polled task's cancel flag as the poll began.
    pub closed spec fn flag_at_start(&self) -> bool {
        self.id < self.core.slots@.len() && self.core.slots@[self.id as int].cancel_flag
    }

    /// The requests made so far in this poll, oldest first.
    pub closed spec fn pending(&self) -> Seq<RequestView> {
        self.requests@.map_values(|r: CxRequest<T>| request_view(r))
    }

    /// The parts of a context that no request changes.
    pub open spec fn same_base(&self, other: &Self) -> bool {
        &&& self.task() == other.task()
        &&& self.task_states() == other.task_states()
        &&& self.flag_at_start() == other.flag_at_start()
        &&& self.clock_floor() == other.clock_floor()
    }

    fn push_request(&mut self, r: CxRequest<T>)
        ensures
            final(self).same_base(old(self)),
            final(self).pending() == old(self).pending().push(request_view(r)),
    {
        let ghost r0 = r;
        self.requests.push_back(r);
        proof {
            assert(self.pending() =~= old(self).pending().push(request_view(r0)));
        }
    }

    pub fn id(&self) -> (id: TaskId)
        ensures
            id == self.task(),
    {
        self.id
    }

    /// Asks the scope to schedule task `id`.
    pub fn wake(&mut self, id: TaskId)
        ensures
            final(self).same_base(old(self)),
            final(self).pending() == old(self).pending().push(RequestView::Wake(id)),
    {
        self.push_request(CxRequest::Wake(id));
    }

    pub fn wake_self(&mut self)
        ensures
            final(self).same_base(old(self)),
            final(self).pending() == old(self).pending().push(RequestView::Wake(old(self).task())),
    {
        let id = self.id;
        self.wake(id);
    }

    /// Yields to the scheduler and reschedules the polled task.
    pub fn yield_now(&mut self) -> (p: TaskPoll)
        ensures
            p == TaskPoll::Pending,
            final(self).same_base(old(self)),
            final(self).pending() == old(self).pending().push(RequestView::Wake(old(self).task())),
    {
        self.wake_self();
        TaskPoll::Pending
    }

    /// A handle that wakes tasks of this scope from anywhere, on behalf of the polled task.
    pub fn wake_sender(&self) -> (w: WakeSender)
        ensures
            w.from() == self.task(),
    {
        WakeSender::new(self.id, self.wake_tx.clone())
    }

    /// The polled task is to be woken when `target_task` finishes.
    pub fn subscribe_to_finish(&mut self, target_task: TaskId)
        ensures
            final(self).same_base(old(self)),
            final(self).pending() == old(self).pending().push(RequestView::SubscribeFinish(target_task)),
    {
        self.push_request(CxRequest::SubscribeFinish(target_task));
    }

    /// Spawns `task` under `name` once this poll is over.
    pub fn spawn_later_named(&mut self, name: String, task: T)
        ensures
            final(self).same_base(old(self)),
            final(self).pending() == old(self).pending().push(RequestView::Spawn(name@)),
    {
        self.push_request(CxRequest::Spawn(name, task));
    }

    /// State of task `id`; an id that names no task reads as completed.
    pub fn task_state(&self, id: TaskId) -> (st: TaskState)
        ensures
            st == if id < self.task_states().len() { self.task_states()[id as int] } else { TaskState::Completed },
    {
        if id < self.core.slots.len() {
            self.core.slots[id].state
        } else {
            TaskState::Completed
        }
    }

    /// The polled task waits for source `token` to become readable.
    pub fn wait_readable(&mut self, token: usize)
        requires
            token < usize::MAX,
        ensures
            final(self).same_base(old(self)),
            final(self).pending() == old(self).pending().push(RequestView::WaitReadable(token)),
    {
        self.push_request(CxRequest::WaitReadable(token));
    }

    /// The polled task sleeps until clock reading `deadline`.
    pub fn sleep_until(&mut self, deadline: Instant)
        ensures
            final(self).same_base(old(self)),
            final(self).pending() == old(self).pending().push(RequestView::SleepUntil(deadline.nanos)),
    {
        self.push_request(CxRequest::SleepUntil(deadline));
    }

    /// The latest clock reading the scope had taken when the poll began.
    pub closed spec fn clock_floor(&self) -> u64 {
        self.core.last_now
    }

    /// The scope's clock reading, never below the latest one the scope had taken
    /// when the poll began.
    pub fn now(&self) -> (i: Instant)
        ensures
            i.nanos >= self.clock_floor(),
    {
        let raw = self.clock.now();
        if raw.nanos < self.core.last_now { Instant { nanos: self.core.last_now } } else { raw }
    }

    /// The polled task sleeps for `dur` from now.
    pub fn sleep_for(&mut self, dur: Duration)
        ensures
            final(self).same_base(old(self)),
            exists|now: u64| now >= old(self).clock_floor()
                && final(self).pending() == old(self).pending().push(RequestView::SleepUntil(saturating_add(now, dur.nanos))),
    {
        let now = self.now();
        let dl = now.plus(dur);
        self.sleep_until(dl);
        proof {
            assert(dl.nanos == saturating_add(now.nanos, dur.nanos));
            assert(now.nanos >= old(self).clock_floor());
            assert(self.pending() == old(self).pending().push(RequestView::SleepUntil(saturating_add(now.nanos, dur.nanos))));
        }
    }

    /// The polled task is cancelled: its flag was raised before the poll, or it
    /// asked in this poll to cancel itself.
    pub open spec fn cancelled_now(&self) -> bool {
        self.flag_at_start() || exists|k: int| 0 <= k < self.pending().len()
            && (#[trigger] self.pending()[k]) is Cancel && self.pending()[k]->Cancel_0 == self.task()
    }

    /// Whether the polled task is cancelled: its flag was raised before the poll, or it
    /// asked in this poll to cancel itself.
    pub fn is_cancelled(&self) -> (b: bool)
        ensures
            b == self.cancelled_now(),
            b == (self.flag_at_start() || exists|k: int| 0 <= k < self.pending().len()
                && (#[trigger] self.pending()[k]) is Cancel && self.pending()[k]->Cancel_0 == self.task()),
    {
        if self.id < self.core.slots.len() && self.core.slots[self.id].cancel_flag {
            return true;
        }
        let n = self.requests.len();
        let mut k: usize = 0;
        while k < n
            invariant
                n == self.requests@.len(),
                k <= n,
                forall|j: int| 0 <= j < k ==> !((#[trigger] self.pending()[j]) is Cancel && self.pending()[j]->Cancel_0 == self.task()),
            decreases n - k,
        {
            match &self.requests[k] {
                CxRequest::Cancel(t, _, _) => {
                    if *t == self.id {
                        proof {
                            assert(self.pending()[k as int] is Cancel && self.pending()[k as int]->Cancel_0 == self.task());
                        }
                        return true;
                    }
                },
                _ => {},
            }
            k = k + 1;
        }
        false
    }

    /// Best-effort cancel of `task` under the scope's default escalation.
    pub fn cancel(&mut self, task: TaskId)
        ensures
            final(self).same_base(old(self)),
            final(self).pending() == old(self).pending().push(RequestView::Cancel(task, CancelEscalation { tick: TickEscalation::Default, time: TimeEscalation::Default }, CancelReason::UserRequest)),
    {
        self.push_request(CxRequest::Cancel(task, CancelEscalation::use_defaults(), CancelReason::UserRequest));
    }

    pub fn cancel_with_reason(&mut self, task: TaskId, reason: CancelReason)
        ensures
            final(self).same_base(old(self)),
            final(self).pending() == old(self).pending().push(RequestView::Cancel(task, CancelEscalation { tick: TickEscalation::Default, time: TimeEscalation::Default }, reason)),
    {
        self.push_request(CxRequest::Cancel(task, CancelEscalation::use_defaults(), reason));
    }

    pub fn cancel_escalate_with(&mut self, task: TaskId, esc: CancelEscalation)
        ensures
            final(self).same_base(old(self)),
            final(self).pending() == old(self).pending().push(RequestView::Cancel(task, esc, CancelReason::UserRequest)),
    {
        self.push_request(CxRequest::Cancel(task, esc, CancelReason::UserRequest));
    }

    pub fn cancel_escalate_with_reason(&mut self, task: TaskId, esc: CancelEscalation, reason: CancelReason)
        ensures
            final(self).same_base(old(self)),
            final(self).pending() == old(self).pending().push(RequestView::Cancel(task, esc, reason)),
    {
        self.push_request(CxRequest::Cancel(task, esc, reason));
    }
}

} // verus!
