use lib::cancel_reason::CancelReason;
use lib::join::join_channel;
use lib::ops::{JoinAllOkError, JoinAllOkTask, JoinAllTask, JoinMapper, MapJoinTask, Select2Task, SelectNTask};
use lib::scope::{Cx, PollOutcome, PollTask, Scope, TickResult};
use lib::select::Either;
use lib::output::{Finisher, InnerTask, OutputTask};
use lib::cancel_policy::CancelEscalation;
use lib::task::{JoinError, TaskPoll, TaskState};
use lib::trace::NoTracer;

struct Doubler;

impl JoinMapper<u32, u32, (), Node, NoTracer> for Doubler {
    fn map(self, res: Result<u32, JoinError>, _cx: &mut Cx<'_, (), Node, NoTracer>) -> u32 {
        match res {
            Ok(v) => v * 2,
            Err(_) => 0,
        }
    }
}

struct TwoPolls(u32);

impl InnerTask<(), Node, NoTracer> for TwoPolls {
    fn poll_inner(&mut self, cx: &mut Cx<'_, (), Node, NoTracer>) -> TaskPoll {
        self.0 += 1;
        if self.0 >= 2 {
            TaskPoll::Ready
        } else {
            cx.wake_self();
            TaskPoll::Pending
        }
    }
}

struct Answer;

impl Finisher<TwoPolls, u32, (), Node, NoTracer> for Answer {
    fn finish(self, inner: &mut TwoPolls, _cx: &mut Cx<'_, (), Node, NoTracer>) -> u32 {
        40 + inner.0
    }
}

enum Node {
    Out(OutputTask<TwoPolls, u32, Answer>),
    All(JoinAllTask<u32>),
    AllOk(JoinAllOkTask<u32, String>),
    Sel(SelectNTask<u32>),
    Two(Select2Task<u32, u32>),
    Mapped(MapJoinTask<u32, u32, Doubler>),
}

impl PollTask<(), NoTracer> for Node {
    fn poll_task(&mut self, cx: &mut Cx<'_, (), Node, NoTracer>) -> PollOutcome {
        let p = match self {
            Node::Out(t) => t.poll_with(cx, 0),
            Node::All(t) => t.poll_with(cx),
            Node::AllOk(t) => t.poll_with(cx),
            Node::Sel(t) => t.poll_with(cx),
            Node::Two(t) => t.poll_with(cx),
            Node::Mapped(t) => t.poll_with(cx),
        };
        match p {
            TaskPoll::Pending => PollOutcome::Pending,
            TaskPoll::Ready => PollOutcome::Ready,
        }
    }
}

#[test]
fn join_all_collects_in_order() {
    let (t1, r1) = join_channel::<u32>();
    let (t2, r2) = join_channel::<u32>();
    let (out_tx, out_rx) = join_channel::<Vec<Result<u32, JoinError>>>();
    t2.send(Ok(2));
    t1.send(Ok(1));
    let mut r = ();
    let mut s: Scope<'_, (), Node, NoTracer> = Scope::new(&mut r);
    let id = s.spawn_named("all".to_string(), Node::All(JoinAllTask::new(vec![r1.bind(100), r2.bind(101)], out_tx)));
    assert!(matches!(s.tick(), TickResult::Progress));
    assert_eq!(s.state_of(id), Some(TaskState::Completed));
    assert_eq!(out_rx.bind(id).recv(), Ok(vec![Ok(1), Ok(2)]));
}

#[test]
fn join_all_stops_at_first_error() {
    let (t1, r1) = join_channel::<u32>();
    let (t2, r2) = join_channel::<u32>();
    let (out_tx, out_rx) = join_channel::<Vec<Result<u32, JoinError>>>();
    t2.send(Err(JoinError::Cancelled(CancelReason::UserRequest)));
    let mut r = ();
    let mut s: Scope<'_, (), Node, NoTracer> = Scope::new(&mut r);
    let id = s.spawn_named("all".to_string(), Node::All(JoinAllTask::new(vec![r1.bind(100), r2.bind(101)], out_tx)));
    assert!(matches!(s.tick(), TickResult::Progress));
    assert_eq!(s.state_of(id), Some(TaskState::Completed));
    assert_eq!(out_rx.bind(id).recv(), Err(JoinError::Cancelled(CancelReason::UserRequest)));
    drop(t1);
}

#[test]
fn join_all_waits_for_pending() {
    let (_t1, r1) = join_channel::<u32>();
    let (out_tx, out_rx) = join_channel::<Vec<Result<u32, JoinError>>>();
    let mut r = ();
    let mut s: Scope<'_, (), Node, NoTracer> = Scope::new(&mut r);
    let id = s.spawn_named("all".to_string(), Node::All(JoinAllTask::new(vec![r1.bind(100)], out_tx)));
    assert!(matches!(s.tick(), TickResult::Progress));
    assert_eq!(s.state_of(id), Some(TaskState::Alive));
    assert!(matches!(s.tick(), TickResult::Idle));
    let mut h = out_rx.bind(id);
    assert_eq!(h.poll(), lib::task::JoinPoll::Pending);
}

#[test]
fn join_all_ok_reports_failure_index() {
    let (t1, r1) = join_channel::<Result<u32, String>>();
    let (t2, r2) = join_channel::<Result<u32, String>>();
    let (out_tx, out_rx) = join_channel::<Result<Vec<u32>, JoinAllOkError<String>>>();
    t1.send(Ok(Ok(1)));
    t2.send(Ok(Err("bad".to_string())));
    let mut r = ();
    let mut s: Scope<'_, (), Node, NoTracer> = Scope::new(&mut r);
    let id = s.spawn_named("ok".to_string(), Node::AllOk(JoinAllOkTask::new(vec![r1.bind(100), r2.bind(101)], out_tx)));
    s.tick();
    match out_rx.bind(id).recv() {
        Ok(Err(JoinAllOkError::Failed { index, err })) => {
            assert_eq!(index, 1);
            assert_eq!(err, "bad");
        }
        _ => panic!("unexpected result"),
    }
}

#[test]
fn join_all_ok_collects_values() {
    let (t1, r1) = join_channel::<Result<u32, String>>();
    let (t2, r2) = join_channel::<Result<u32, String>>();
    let (out_tx, out_rx) = join_channel::<Result<Vec<u32>, JoinAllOkError<String>>>();
    t1.send(Ok(Ok(1)));
    t2.send(Ok(Ok(2)));
    let mut r = ();
    let mut s: Scope<'_, (), Node, NoTracer> = Scope::new(&mut r);
    let id = s.spawn_named("ok".to_string(), Node::AllOk(JoinAllOkTask::new(vec![r1.bind(100), r2.bind(101)], out_tx)));
    s.tick();
    match out_rx.bind(id).recv() {
        Ok(Ok(v)) => assert_eq!(v, vec![1, 2]),
        _ => panic!("unexpected result"),
    }
}

#[test]
fn join_all_ok_reports_panic_index() {
    let (t1, r1) = join_channel::<Result<u32, String>>();
    let (out_tx, out_rx) = join_channel::<Result<Vec<u32>, JoinAllOkError<String>>>();
    drop(t1);
    let mut r = ();
    let mut s: Scope<'_, (), Node, NoTracer> = Scope::new(&mut r);
    let id = s.spawn_named("ok".to_string(), Node::AllOk(JoinAllOkTask::new(vec![r1.bind(100)], out_tx)));
    s.tick();
    assert!(matches!(out_rx.bind(id).recv(), Ok(Err(JoinAllOkError::Panicked { index: 0 }))));
}

#[test]
fn select_n_returns_first_ready_with_index() {
    let (_t1, r1) = join_channel::<u32>();
    let (t2, r2) = join_channel::<u32>();
    let (out_tx, out_rx) = join_channel::<(usize, Result<u32, JoinError>)>();
    t2.send(Ok(9));
    let mut r = ();
    let mut s: Scope<'_, (), Node, NoTracer> = Scope::new(&mut r);
    let id = s.spawn_named("sel".to_string(), Node::Sel(SelectNTask::new(vec![r1.bind(100), r2.bind(101)], out_tx)));
    s.tick();
    assert_eq!(out_rx.bind(id).recv(), Ok((1, Ok(9))));
}

#[test]
fn select_n_of_nothing_fails() {
    let (out_tx, out_rx) = join_channel::<(usize, Result<u32, JoinError>)>();
    let mut r = ();
    let mut s: Scope<'_, (), Node, NoTracer> = Scope::new(&mut r);
    let id = s.spawn_named("sel".to_string(), Node::Sel(SelectNTask::new(vec![], out_tx)));
    s.tick();
    assert_eq!(out_rx.bind(id).recv(), Err(JoinError::Panicked));
}

#[test]
fn select2_reports_the_ready_side() {
    let (_ta, ra) = join_channel::<u32>();
    let (tb, rb) = join_channel::<u32>();
    let (out_tx, out_rx) = join_channel::<Either<Result<u32, JoinError>, Result<u32, JoinError>>>();
    tb.send(Ok(5));
    let mut r = ();
    let mut s: Scope<'_, (), Node, NoTracer> = Scope::new(&mut r);
    let id = s.spawn_named("two".to_string(), Node::Two(Select2Task::new(ra.bind(100), rb.bind(101), out_tx)));
    s.tick();
    assert_eq!(out_rx.bind(id).recv(), Ok(Either::Right(Ok(5))));
}

#[test]
fn map_join_maps_the_result() {
    let (t, rx) = join_channel::<u32>();
    let (out_tx, out_rx) = join_channel::<u32>();
    t.send(Ok(21));
    let mut r = ();
    let mut s: Scope<'_, (), Node, NoTracer> = Scope::new(&mut r);
    let id = s.spawn_named("map".to_string(), Node::Mapped(MapJoinTask::new(rx.bind(100), out_tx, Doubler)));
    s.tick();
    assert_eq!(s.state_of(id), Some(TaskState::Completed));
    assert_eq!(out_rx.bind(id).recv(), Ok(42));
}

#[test]
fn join_all_of_nothing_sends_empty() {
    let (out_tx, out_rx) = join_channel::<Vec<Result<u32, JoinError>>>();
    let mut r = ();
    let mut s: Scope<'_, (), Node, NoTracer> = Scope::new(&mut r);
    let id = s.spawn_named("all".to_string(), Node::All(JoinAllTask::new(vec![], out_tx)));
    assert!(matches!(s.tick(), TickResult::Progress));
    assert_eq!(s.state_of(id), Some(TaskState::Completed));
    assert_eq!(out_rx.bind(id).recv(), Ok(vec![]));
}

#[test]
fn select2_prefers_left_when_both_ready() {
    let (ta, ra) = join_channel::<u32>();
    let (tb, rb) = join_channel::<u32>();
    let (out_tx, out_rx) = join_channel::<Either<Result<u32, JoinError>, Result<u32, JoinError>>>();
    ta.send(Ok(1));
    tb.send(Ok(2));
    let mut r = ();
    let mut s: Scope<'_, (), Node, NoTracer> = Scope::new(&mut r);
    let id = s.spawn_named("two".to_string(), Node::Two(Select2Task::new(ra.bind(100), rb.bind(101), out_tx)));
    assert!(matches!(s.tick(), TickResult::Progress));
    assert_eq!(out_rx.bind(id).recv(), Ok(Either::Left(Ok(1))));
}

#[test]
fn join_all_ok_passes_on_cancellation() {
    let (t1, r1) = join_channel::<Result<u32, String>>();
    let (out_tx, out_rx) = join_channel::<Result<Vec<u32>, JoinAllOkError<String>>>();
    t1.send(Err(JoinError::Cancelled(CancelReason::TimeoutTicks)));
    let mut r = ();
    let mut s: Scope<'_, (), Node, NoTracer> = Scope::new(&mut r);
    let id = s.spawn_named("ok".to_string(), Node::AllOk(JoinAllOkTask::new(vec![r1.bind(100)], out_tx)));
    assert!(matches!(s.tick(), TickResult::Progress));
    assert!(matches!(out_rx.bind(id).recv(), Err(JoinError::Cancelled(CancelReason::TimeoutTicks))));
}

#[test]
fn output_task_sends_finished_output() {
    let (tx, rx) = join_channel::<u32>();
    let mut r = ();
    let mut s: Scope<'_, (), Node, NoTracer> = Scope::new(&mut r);
    let id = s.spawn_named("out".to_string(), Node::Out(OutputTask::new(TwoPolls(0), Answer, tx)));
    assert!(matches!(s.tick(), TickResult::Progress));
    assert_eq!(s.state_of(id), Some(TaskState::Alive));
    assert!(matches!(s.tick(), TickResult::Progress));
    assert_eq!(s.state_of(id), Some(TaskState::Completed));
    assert_eq!(rx.bind(id).recv(), Ok(42));
}

#[test]
fn output_task_reports_cancellation_first() {
    let (tx, rx) = join_channel::<u32>();
    let mut r = ();
    let mut s: Scope<'_, (), Node, NoTracer> = Scope::new(&mut r);
    let id = s.spawn_named("out".to_string(), Node::Out(OutputTask::new(TwoPolls(0), Answer, tx)));
    s.request_cancel_escalate_with_reason(id, CancelEscalation::no_escalation(), CancelReason::UserRequest);
    assert!(matches!(s.tick(), TickResult::Progress));
    assert_eq!(s.state_of(id), Some(TaskState::Completed));
    assert_eq!(rx.bind(id).recv(), Err(JoinError::Cancelled(CancelReason::Unknown)));
}
