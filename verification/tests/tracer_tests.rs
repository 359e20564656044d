use lib::cancel_reason::CancelReason;
use lib::task::TaskState;
use lib::time::Duration;
use lib::trace::{BufferTracer, DotTracer, Tracer};

#[test]
fn buffer_tracer_lines() {
    let mut t = BufferTracer::new();
    t.on_spawn(0, "a");
    t.on_wake(usize::MAX, 3);
    t.on_subscribe_finish(2, 1);
    t.on_poll_seq(5, 0, "a");
    t.on_finish(0, "a", TaskState::Completed);
    t.on_timers_fired(2);
    t.on_cancel_request(4, CancelReason::UserRequest, Some(3), Some(Duration::from_millis(25)));
    t.on_cancel_request(4, CancelReason::NoReason, None, None);
    t.on_cancel_hard_stop(4, CancelReason::TimeoutTicks);
    t.on_poll_begin(0, "ignored");
    t.push("custom".to_string());
    let lines: Vec<String> = t.lines().to_vec();
    assert_eq!(
        lines,
        vec![
            "[spawn] 0 a",
            "[wake] 18446744073709551615 -> 3",
            "[join] 2 waits 1",
            "[poll#] 5 0 a",
            "[done] 0 a => Completed",
            "[timers] fired 2",
            "[cancel] task=4 reason=UserRequest tick=Some(3) time_ms=Some(25)",
            "[cancel] task=4 reason=None tick=None time_ms=None",
            "[cancel_now] task=4 reason=TimeoutTicks",
            "custom",
        ]
    );
    assert_eq!(t.take().len(), 10);
}

#[test]
fn dot_tracer_graph() {
    let mut t = DotTracer::new();
    t.on_spawn(0, "root");
    t.on_spawn(1, "leaf");
    t.on_wake(0, 1);
    t.on_subscribe_finish(0, 1);
    assert_eq!(
        t.dot(),
        "digraph borrowed_executor {\n  n0 [label=\"0: root\"];\n  n1 [label=\"1: leaf\"];\n  n0 -> n1;\n  n1 -> n0;\n}\n"
    );
    assert_eq!(DotTracer::new().dot(), "digraph borrowed_executor {\n}\n");
}

#[test]
fn buffer_tracer_writes_multi_digit_numbers() {
    let mut t = BufferTracer::new();
    t.on_spawn(1234, "x");
    t.on_wake(0, 18446744073709551615usize as usize);
    assert_eq!(t.lines()[0], "[spawn] 1234 x");
    assert_eq!(t.lines()[1], format!("[wake] 0 -> {}", usize::MAX));
}
