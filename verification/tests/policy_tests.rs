use lib::cancel_policy::{resolve_cancel_budgets, CancelEscalation, TickEscalation, TimeEscalation};
use lib::cancel_reason::{should_replace_reason, CancelReason, ABORT_PANICKED};
use lib::deadline_queue::DeadlineQueue;
use lib::join::{drop_error_for_code, reason_for_code};
use lib::task::JoinError;
use lib::time::{Duration, Instant};

const ALL: [CancelReason; 6] = [
    CancelReason::NoReason,
    CancelReason::UserRequest,
    CancelReason::ShortCircuit,
    CancelReason::TimeoutTicks,
    CancelReason::TimeoutTime,
    CancelReason::Unknown,
];

#[test]
fn codes_round_trip() {
    for r in ALL {
        assert_eq!(CancelReason::from_u8(r.as_u8()), r);
        assert_ne!(r.as_u8(), ABORT_PANICKED);
    }
    assert_eq!(CancelReason::UserRequest.as_u8(), 1);
    assert_eq!(CancelReason::Unknown.as_u8(), 255);
    assert_eq!(CancelReason::from_u8(7), CancelReason::Unknown);
    assert_eq!(CancelReason::from_u8(250), CancelReason::Unknown);
}

#[test]
fn priorities_and_kinds() {
    assert_eq!(CancelReason::NoReason.priority(), 0);
    assert_eq!(CancelReason::Unknown.priority(), 1);
    assert_eq!(CancelReason::TimeoutTicks.priority(), 5);
    assert_eq!(CancelReason::TimeoutTime.priority(), 5);
    assert_eq!(CancelReason::UserRequest.priority(), 10);
    assert_eq!(CancelReason::ShortCircuit.priority(), 20);
    assert!(CancelReason::TimeoutTime.is_timeout());
    assert!(!CancelReason::UserRequest.is_timeout());
    assert!(!CancelReason::NoReason.is_meaningful());
    assert!(CancelReason::Unknown.is_meaningful());
}

#[test]
fn replacement_rule() {
    // a timeout never displaces a meaningful known reason
    assert!(!should_replace_reason(CancelReason::UserRequest, CancelReason::TimeoutTicks));
    // but it displaces nothing and unknown
    assert!(should_replace_reason(CancelReason::NoReason, CancelReason::TimeoutTime));
    assert!(should_replace_reason(CancelReason::Unknown, CancelReason::TimeoutTicks));
    // higher priority wins
    assert!(should_replace_reason(CancelReason::UserRequest, CancelReason::ShortCircuit));
    assert!(!should_replace_reason(CancelReason::ShortCircuit, CancelReason::UserRequest));
    // strict: nothing replaces itself, never both ways
    for a in ALL {
        assert!(!should_replace_reason(a, a));
        for b in ALL {
            assert!(!(should_replace_reason(a, b) && should_replace_reason(b, a)));
        }
    }
}

#[test]
fn escalation_constructors() {
    let e = CancelEscalation::no_escalation();
    assert_eq!(e.tick, TickEscalation::Disabled);
    assert_eq!(e.time, TimeEscalation::Disabled);
    let e = CancelEscalation::ticks(3);
    assert_eq!(e.tick, TickEscalation::After(3));
    assert_eq!(e.time, TimeEscalation::Disabled);
    let e = CancelEscalation::time(Duration::from_millis(5));
    assert_eq!(e.tick, TickEscalation::Disabled);
    assert_eq!(e.time, TimeEscalation::After(Duration::from_nanos(5_000_000)));
}

#[test]
fn budgets_resolution() {
    let d = Some(Duration::from_millis(7));
    let b = resolve_cancel_budgets(4, d, CancelEscalation::use_defaults());
    assert_eq!(b.tick_budget, 4);
    assert_eq!(b.time_budget, d);
    assert!(!b.immediate);

    let b = resolve_cancel_budgets(4, d, CancelEscalation::no_escalation());
    assert_eq!(b.tick_budget, 0);
    assert_eq!(b.time_budget, None);
    assert!(!b.immediate);

    let b = resolve_cancel_budgets(4, d, CancelEscalation { tick: TickEscalation::Default, time: TimeEscalation::Immediate });
    assert_eq!(b.time_budget, Some(Duration::zero()));
    assert!(b.immediate);

    // a zero span means immediately
    let b = resolve_cancel_budgets(0, None, CancelEscalation::time(Duration::zero()));
    assert!(b.immediate);

    // a zero default time also resolves to immediate
    let b = resolve_cancel_budgets(0, Some(Duration::zero()), CancelEscalation::use_defaults());
    assert!(b.immediate);
}

#[test]
fn durations_and_instants() {
    assert_eq!(Duration::from_micros(3).as_nanos(), 3_000);
    assert_eq!(Duration::from_millis(3).as_nanos(), 3_000_000);
    assert_eq!(Duration::from_secs(2).as_millis(), 2_000);
    assert_eq!(Duration::from_secs(u64::MAX).as_nanos(), u64::MAX);
    assert!(Duration::zero().is_zero());
    assert_eq!(Duration::from_nanos(5).min(Duration::from_nanos(3)).as_nanos(), 3);
    let t = Instant::origin().plus(Duration::from_nanos(10));
    assert_eq!(t.nanos, 10);
    assert_eq!(Instant { nanos: u64::MAX }.plus(Duration::from_nanos(1)).nanos, u64::MAX);
    assert_eq!(t.saturating_duration_since(Instant { nanos: 4 }).as_nanos(), 6);
    assert_eq!(Instant { nanos: 4 }.saturating_duration_since(t).as_nanos(), 0);
    assert!(t.is_after(Instant { nanos: 9 }));
}

#[test]
fn deadline_queue_pops_smallest_first() {
    let mut q = DeadlineQueue::new();
    q.push(30, 1);
    q.push(10, 5);
    q.push(20, 2);
    q.push(10, 3);
    assert_eq!(q.len(), 4);
    assert_eq!(q.peek_min(), Some((10, 3)));
    assert_eq!(q.pop_min(), Some((10, 3)));
    assert_eq!(q.pop_min(), Some((10, 5)));
    assert_eq!(q.pop_min(), Some((20, 2)));
    assert_eq!(q.pop_min(), Some((30, 1)));
    assert_eq!(q.pop_min(), None);
    assert_eq!(q.peek_min(), None);
}

#[test]
fn abort_codes_to_join_errors() {
    assert_eq!(reason_for_code(0), CancelReason::Unknown);
    assert_eq!(reason_for_code(2), CancelReason::ShortCircuit);
    assert_eq!(drop_error_for_code(255), JoinError::Panicked);
    assert_eq!(drop_error_for_code(0), JoinError::Cancelled(CancelReason::Unknown));
    assert_eq!(drop_error_for_code(1), JoinError::Cancelled(CancelReason::UserRequest));
    assert_eq!(drop_error_for_code(3), JoinError::Cancelled(CancelReason::TimeoutTicks));
}
