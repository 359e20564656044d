use lib::cancel_reason::CancelReason;
use lib::join::{join_channel, join_poll_of, join_recv_of, JoinOutput};
use lib::task::{JoinError, JoinPoll};
use lib::wake::RecvStatus;

#[test]
fn join_poll_mapping() {
    assert_eq!(join_poll_of::<u8>(RecvStatus::Msg(Ok(4))), JoinPoll::Ready(Ok(4)));
    assert_eq!(join_poll_of::<u8>(RecvStatus::Empty), JoinPoll::Pending);
    assert_eq!(join_poll_of::<u8>(RecvStatus::Disconnected), JoinPoll::Ready(Err(JoinError::Panicked)));
}

#[test]
fn join_recv_mapping() {
    assert_eq!(join_recv_of::<u8>(Some(Ok(4))), Ok(4));
    assert_eq!(join_recv_of::<u8>(Some(Err(JoinError::Cancelled(CancelReason::TimeoutTime)))), Err(JoinError::Cancelled(CancelReason::TimeoutTime)));
    assert_eq!(join_recv_of::<u8>(None), Err(JoinError::Panicked));
}

#[test]
fn handle_recv_after_sender_dropped_reads_panicked() {
    let (tx, rx) = join_channel::<u32>();
    let h = rx.bind(3);
    drop(tx);
    assert_eq!(h.recv(), Err(JoinError::Panicked));
}

#[test]
fn handle_sees_pending_then_result_then_gone() {
    let (tx, rx) = join_channel::<u32>();
    let mut h = rx.bind(7);
    assert_eq!(h.task_id(), 7);
    assert_eq!(h.poll(), JoinPoll::Pending);
    tx.send(Ok(11));
    assert_eq!(h.poll(), JoinPoll::Ready(Ok(11)));
    drop(tx);
    assert_eq!(h.poll(), JoinPoll::Ready(Err(JoinError::Panicked)));
}

#[test]
fn output_reports_once_cancellation_first() {
    let (tx, rx) = join_channel::<u32>();
    let mut out = JoinOutput::new(tx);
    assert!(out.open());
    out.report_cancelled(2);
    assert!(!out.open());
    out.report_output(Some(5));
    out.report_dropped(0);
    let mut h = rx.bind(0);
    assert_eq!(h.poll(), JoinPoll::Ready(Err(JoinError::Cancelled(CancelReason::ShortCircuit))));
    drop(out);
    assert_eq!(h.poll(), JoinPoll::Ready(Err(JoinError::Panicked)));
}

#[test]
fn output_sends_value() {
    let (tx, rx) = join_channel::<u32>();
    let mut out = JoinOutput::new(tx);
    out.report_output(Some(9));
    out.report_cancelled(1);
    assert_eq!(rx.bind(3).recv(), Ok(9));
}

#[test]
fn dropped_output_reports_code() {
    let (tx, rx) = join_channel::<u32>();
    let mut out = JoinOutput::new(tx);
    out.report_dropped(255);
    assert_eq!(rx.bind(1).recv(), Err(JoinError::Panicked));

    let (tx, rx) = join_channel::<u32>();
    let mut out = JoinOutput::new(tx);
    out.report_dropped(0);
    assert_eq!(rx.bind(1).recv(), Err(JoinError::Cancelled(CancelReason::Unknown)));

    let (tx, rx) = join_channel::<u32>();
    let mut out = JoinOutput::new(tx);
    out.report_dropped(4);
    assert_eq!(rx.bind(1).recv(), Err(JoinError::Cancelled(CancelReason::TimeoutTime)));
}
