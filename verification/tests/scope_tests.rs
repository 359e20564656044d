use lib::scope::{run_step, RunStep};
use lib::stream::{stream_step, StreamPoll};
use lib::task::TaskPoll;
use lib::cancel_policy::{CancelEscalation, TimeEscalation, TickEscalation};
use lib::cancel_reason::CancelReason;
use lib::scope::{Cx, PollOutcome, PollTask, Scope, TickResult};
use lib::task::{TaskState, WakeMsg};
use lib::wake::WakeRecvTimeout;
use lib::time::Duration;
use lib::trace::{BufferTracer, NoTracer};

/// A test task with a fixed script.
enum Job {
    /// Becomes ready after this many polls, rescheduling itself until then.
    Count(u32),
    /// Panics at its first poll.
    Boom,
    /// Waits for the finish of another task, then completes.
    Await(usize, bool),
    /// Stays pending without asking to be woken.
    Park,
    /// Spawns a child at its first poll, then completes.
    Parent,
    /// Waits once for an I/O source, then completes.
    WaitIo(usize, bool),
    /// Wakes a task through a wake sender, then completes.
    WakeVia(usize),
    /// Sleeps once for the given nanoseconds, then completes when woken.
    Nap(u64, bool),
    /// Asks to cancel a task from inside its poll, then completes.
    CancelFromInside(usize),
}

impl<Tr: lib::trace::Tracer> PollTask<u32, Tr> for Job {
    fn poll_task(&mut self, cx: &mut Cx<'_, u32, Job, Tr>) -> PollOutcome {
        *cx.resources += 1;
        match self {
            Job::Count(n) => {
                if *n <= 1 {
                    PollOutcome::Ready
                } else {
                    *n -= 1;
                    cx.wake_self();
                    PollOutcome::Pending
                }
            }
            Job::Boom => PollOutcome::Panicked,
            Job::Await(target, subscribed) => {
                if *subscribed {
                    PollOutcome::Ready
                } else {
                    *subscribed = true;
                    cx.subscribe_to_finish(*target);
                    PollOutcome::Pending
                }
            }
            Job::Park => PollOutcome::Pending,
            Job::Parent => {
                cx.spawn_later_named("child".to_string(), Job::Count(1));
                PollOutcome::Ready
            }
            Job::WaitIo(token, waited) => {
                if *waited {
                    PollOutcome::Ready
                } else {
                    *waited = true;
                    cx.wait_readable(*token);
                    PollOutcome::Pending
                }
            }
            Job::WakeVia(target) => {
                cx.wake_sender().wake(*target);
                PollOutcome::Ready
            }
            Job::Nap(nanos, slept) => {
                if *slept {
                    PollOutcome::Ready
                } else {
                    *slept = true;
                    cx.sleep_for(Duration::from_nanos(*nanos));
                    PollOutcome::Pending
                }
            }
            Job::CancelFromInside(target) => {
                cx.cancel_escalate_with_reason(
                    *target,
                    CancelEscalation { tick: TickEscalation::Disabled, time: TimeEscalation::Immediate },
                    CancelReason::ShortCircuit,
                );
                assert!(cx.task_state(*target) == TaskState::Alive);
                PollOutcome::Ready
            }
        }
    }
}

fn run_all(s: &mut Scope<'_, u32, Job, NoTracer>) -> usize {
    let mut n = 0;
    loop {
        match s.tick() {
            TickResult::Done => return n,
            TickResult::Idle => return n,
            TickResult::Progress => n += 1,
        }
    }
}

#[test]
fn empty_scope_is_done() {
    let mut r = 0u32;
    let mut s: Scope<'_, u32, Job, NoTracer> = Scope::new(&mut r);
    assert!(matches!(s.tick(), TickResult::Done));
    assert_eq!(s.active(), 0);
}

#[test]
fn tasks_run_to_completion() {
    let mut r = 0u32;
    {
        let mut s: Scope<'_, u32, Job, NoTracer> = Scope::new(&mut r);
        assert_eq!(s.spawn_named("a".to_string(), Job::Count(3)), 0);
        assert_eq!(s.spawn_named("b".to_string(), Job::Count(1)), 1);
        assert_eq!(s.active(), 2);
        run_all(&mut s);
        assert_eq!(s.state_of(0), Some(TaskState::Completed));
        assert_eq!(s.state_of(1), Some(TaskState::Completed));
        assert_eq!(s.state_of(2), None);
        assert_eq!(s.active(), 0);
        assert!(matches!(s.tick(), TickResult::Done));
    }
    assert_eq!(r, 4);
}

#[test]
fn panicking_task_ends_panicked() {
    let mut r = 0u32;
    let mut s: Scope<'_, u32, Job, NoTracer> = Scope::new(&mut r);
    s.spawn_named("boom".to_string(), Job::Boom);
    assert!(matches!(s.tick(), TickResult::Progress));
    assert_eq!(s.state_of(0), Some(TaskState::Panicked));
    assert!(matches!(s.tick(), TickResult::Done));
}

#[test]
fn cancel_now_ends_task_and_is_final() {
    let mut r = 0u32;
    let mut s: Scope<'_, u32, Job, NoTracer> = Scope::new(&mut r);
    s.spawn_named("p".to_string(), Job::Park);
    s.cancel_now(0);
    assert_eq!(s.state_of(0), Some(TaskState::Cancelled));
    assert_eq!(s.active(), 0);
    // a second cancel changes nothing
    s.cancel_now_with_reason(0, CancelReason::ShortCircuit);
    assert_eq!(s.state_of(0), Some(TaskState::Cancelled));
    s.cancel_now(99);
    assert!(matches!(s.tick(), TickResult::Done));
}

#[test]
fn immediate_request_hard_stops() {
    let mut r = 0u32;
    let mut s: Scope<'_, u32, Job, NoTracer> = Scope::new(&mut r);
    s.spawn_named("p".to_string(), Job::Park);
    s.request_cancel_escalate_with_reason(
        0,
        CancelEscalation { tick: TickEscalation::Disabled, time: TimeEscalation::Immediate },
        CancelReason::UserRequest,
    );
    assert_eq!(s.state_of(0), Some(TaskState::Cancelled));
}

#[test]
fn tick_budget_hard_stops_after_ticks() {
    let mut r = 0u32;
    let mut s: Scope<'_, u32, Job, NoTracer> = Scope::new(&mut r);
    s.spawn_named("p".to_string(), Job::Park);
    assert!(matches!(s.tick(), TickResult::Progress)); // first poll; parks
    s.request_cancel_escalate_with_reason(0, CancelEscalation::ticks(2), CancelReason::UserRequest);
    assert_eq!(s.state_of(0), Some(TaskState::Alive));
    assert!(matches!(s.tick(), TickResult::Progress)); // woken by the request; parks again
    assert_eq!(s.state_of(0), Some(TaskState::Alive));
    assert!(matches!(s.tick(), TickResult::Idle)); // deadline reached: hard stop
    assert_eq!(s.state_of(0), Some(TaskState::Cancelled));
    assert!(matches!(s.tick(), TickResult::Done));
}

#[test]
fn default_tick_budget_applies() {
    let mut r = 0u32;
    let mut s: Scope<'_, u32, Job, NoTracer> = Scope::new(&mut r);
    s.set_default_cancel_after_ticks(1);
    s.spawn_named("p".to_string(), Job::Park);
    s.request_cancel_escalate(0);
    assert!(matches!(s.tick(), TickResult::Progress));
    assert_eq!(s.state_of(0), Some(TaskState::Cancelled));
}

#[test]
fn default_zero_time_is_immediate() {
    let mut r = 0u32;
    let mut s: Scope<'_, u32, Job, NoTracer> = Scope::new(&mut r);
    s.set_default_cancel_after_duration(Some(Duration::zero()));
    s.spawn_named("p".to_string(), Job::Park);
    s.request_cancel_escalate(0);
    assert_eq!(s.state_of(0), Some(TaskState::Cancelled));
}

#[test]
fn finish_wakes_waiters() {
    let mut r = 0u32;
    {
        let mut s: Scope<'_, u32, Job, NoTracer> = Scope::new(&mut r);
        s.spawn_named("target".to_string(), Job::Park);
        s.spawn_named("waiter".to_string(), Job::Await(0, false));
        assert!(matches!(s.tick(), TickResult::Progress)); // target parks
        assert!(matches!(s.tick(), TickResult::Progress)); // waiter subscribes
        assert!(matches!(s.tick(), TickResult::Idle));
        s.cancel_now(0);
        assert!(matches!(s.tick(), TickResult::Progress)); // waiter woken, completes
        assert_eq!(s.state_of(1), Some(TaskState::Completed));
        assert!(matches!(s.tick(), TickResult::Done));
    }
    assert_eq!(r, 3);
}

#[test]
fn deferred_spawn_runs_next_tick() {
    let mut r = 0u32;
    let mut s: Scope<'_, u32, Job, NoTracer> = Scope::new(&mut r);
    s.spawn_named("parent".to_string(), Job::Parent);
    assert!(matches!(s.tick(), TickResult::Progress));
    assert_eq!(s.num_tasks(), 1);
    // the parent is done, but the child spawns at the next tick
    assert!(matches!(s.tick(), TickResult::Done));
    assert_eq!(s.num_tasks(), 1);
}

#[test]
fn tick_n_counts_progress() {
    let mut r = 0u32;
    let mut s: Scope<'_, u32, Job, NoTracer> = Scope::new(&mut r);
    s.spawn_named("a".to_string(), Job::Count(5));
    let (n, res) = s.tick_n(3);
    assert_eq!(n, 3);
    assert!(matches!(res, TickResult::Progress));
    let (n, res) = s.tick_n(10);
    assert_eq!(n, 2);
    assert!(matches!(res, TickResult::Done));
}

#[test]
fn tick_n_reports_idle() {
    let mut r = 0u32;
    let mut s: Scope<'_, u32, Job, NoTracer> = Scope::new(&mut r);
    s.spawn_named("p".to_string(), Job::Park);
    let (n, res) = s.tick_n(5);
    assert_eq!(n, 1);
    assert!(matches!(res, TickResult::Idle));
}

#[test]
fn notify_readable_without_waiters_is_noop() {
    let mut r = 0u32;
    let mut s: Scope<'_, u32, Job, NoTracer> = Scope::new(&mut r);
    s.notify_readable(3);
    assert!(matches!(s.tick(), TickResult::Done));
}

#[test]
fn no_deadline_without_timers() {
    let mut r = 0u32;
    let s: Scope<'_, u32, Job, NoTracer> = Scope::new(&mut r);
    assert_eq!(s.time_to_next_deadline(), None);
}

#[test]
fn buffer_tracer_records_scheduling() {
    let mut r = 0u32;
    let mut s: Scope<'_, u32, Job, BufferTracer> = Scope::new(&mut r);
    s.set_tracer(BufferTracer::new());
    s.spawn_named("a".to_string(), Job::Count(1));
    s.cancel_now(7);
    assert!(matches!(s.tick(), TickResult::Progress));
    assert!(matches!(s.tick(), TickResult::Done));
}

#[test]
fn readable_source_wakes_waiter() {
    let mut r = 0u32;
    let mut s: Scope<'_, u32, Job, NoTracer> = Scope::new(&mut r);
    s.spawn_named("io".to_string(), Job::WaitIo(2, false));
    assert!(matches!(s.tick(), TickResult::Progress));
    assert!(matches!(s.tick(), TickResult::Idle));
    s.notify_readable(1);
    assert!(matches!(s.tick(), TickResult::Idle));
    s.notify_readable(2);
    assert!(matches!(s.tick(), TickResult::Progress));
    assert_eq!(s.state_of(0), Some(TaskState::Completed));
}

#[test]
fn wake_sender_reaches_scope() {
    let mut r = 0u32;
    let mut s: Scope<'_, u32, Job, NoTracer> = Scope::new(&mut r);
    s.spawn_named("parked".to_string(), Job::Await(5, false));
    assert!(matches!(s.tick(), TickResult::Progress)); // subscribes to a task that does not exist
    s.spawn_named("waker".to_string(), Job::WakeVia(0));
    assert!(matches!(s.tick(), TickResult::Progress)); // the waker runs
    assert!(matches!(s.tick(), TickResult::Progress)); // the woken task completes
    assert_eq!(s.state_of(0), Some(TaskState::Completed));
}

#[test]
fn sleeping_task_wakes_after_deadline() {
    let mut r = 0u32;
    let mut s: Scope<'_, u32, Job, NoTracer> = Scope::new(&mut r);
    s.spawn_named("nap".to_string(), Job::Nap(0, false));
    assert!(matches!(s.tick(), TickResult::Progress));
    assert!(s.time_to_next_deadline().is_some());
    assert!(matches!(s.tick(), TickResult::Progress));
    assert_eq!(s.state_of(0), Some(TaskState::Completed));
    assert_eq!(s.time_to_next_deadline(), None);
}

#[test]
fn cancel_from_inside_schedules_stop() {
    let mut r = 0u32;
    let mut s: Scope<'_, u32, Job, NoTracer> = Scope::new(&mut r);
    s.spawn_named("victim".to_string(), Job::Park);
    s.spawn_named("killer".to_string(), Job::CancelFromInside(0));
    assert!(matches!(s.tick(), TickResult::Progress)); // victim parks
    assert!(matches!(s.tick(), TickResult::Progress)); // killer asks; victim still alive
    assert_eq!(s.state_of(0), Some(TaskState::Alive));
    // the time deadline "now" fires at the next tick
    s.tick();
    assert_eq!(s.state_of(0), Some(TaskState::Cancelled));
}

#[test]
fn take_wake_queues_target_of_message_only() {
    let mut r = 0u32;
    let mut s: Scope<'_, u32, Job, NoTracer> = Scope::new(&mut r);
    s.spawn_named("p".to_string(), Job::Park);
    assert!(matches!(s.tick(), TickResult::Progress));
    assert!(matches!(s.tick(), TickResult::Idle));
    assert!(s.take_wake(WakeRecvTimeout::Timeout));
    assert!(matches!(s.tick(), TickResult::Idle));
    assert!(!s.take_wake(WakeRecvTimeout::Disconnected));
    assert!(matches!(s.tick(), TickResult::Idle));
    assert!(s.take_wake(WakeRecvTimeout::Msg(WakeMsg { from: 7, to: 0 })));
    assert!(matches!(s.tick(), TickResult::Progress));
}

#[test]
fn wait_for_wake_times_out_while_connected() {
    let mut r = 0u32;
    let mut s: Scope<'_, u32, Job, NoTracer> = Scope::new(&mut r);
    s.spawn_named("p".to_string(), Job::Park);
    assert!(matches!(s.tick(), TickResult::Progress));
    assert!(s.wait_for_wake(Some(Duration::from_millis(1))));
    assert!(matches!(s.tick(), TickResult::Idle));
}


#[test]
fn run_step_decisions() {
    assert_eq!(run_step(TickResult::Progress, None, None), RunStep::Continue);
    assert_eq!(run_step(TickResult::Done, Some(Duration::from_millis(5)), None), RunStep::Finish(true));
    assert_eq!(run_step(TickResult::Idle, None, Some(Duration::from_millis(3))), RunStep::Wait(Some(Duration::from_millis(3))));
    assert_eq!(run_step(TickResult::Idle, None, None), RunStep::Wait(None));
    assert_eq!(run_step(TickResult::Idle, Some(Duration::from_millis(2)), Some(Duration::from_millis(3))), RunStep::Wait(Some(Duration::from_millis(2))));
    assert_eq!(run_step(TickResult::Idle, Some(Duration::from_millis(2)), None), RunStep::Wait(Some(Duration::from_millis(2))));
    assert_eq!(run_step(TickResult::Idle, Some(Duration::zero()), None), RunStep::Finish(false));
}

#[test]
fn stream_step_hands_on_at_most_one_item() {
    assert_eq!(stream_step(StreamPoll::Item(4u8)), (Some(4u8), TaskPoll::Pending));
    assert_eq!(stream_step::<u8>(StreamPoll::End), (None, TaskPoll::Ready));
    assert_eq!(stream_step::<u8>(StreamPoll::NotYet), (None, TaskPoll::Pending));
}
