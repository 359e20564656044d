use vstd::prelude::*;
use crate::task::WakeMsg;
use crate::time::Duration;

verus! {

#[verifier::external_type_specification]
#[verifier::external_body]
#[verifier::reject_recursive_types(T)]
pub struct ExSender<T>(std::sync::mpsc::Sender<T>);

#[verifier::external_type_specification]
#[verifier::external_body]
#[verifier::reject_recursive_types(T)]
pub struct ExReceiver<T>(std::sync::mpsc::Receiver<T>);

/// Outcome of a non-blocking receive.
#[derive(Debug)]
pub enum RecvStatus<T> {
    Msg(T),
    Empty,
    Disconnected,
}

/// Outcome of a receive that waits at most some time.
#[derive(Debug)]
pub enum WakeRecvTimeout {
    Msg(WakeMsg),
    Timeout,
    Disconnected,
}

/// Calls `std::sync::mpsc::channel`. What the channel carries later depends on
/// other threads, so nothing is stated of the pair.
#[verifier::external_body]
pub(crate) fn channel_new<T>() -> (pair: (std::sync::mpsc::Sender<T>, std::sync::mpsc::Receiver<T>)) {
    std::sync::mpsc::channel()
}

/// Calls `Sender::send`; a send to a dropped receiver is ignored.
#[verifier::external_body]
pub(crate) fn sender_send<T>(tx: &std::sync::mpsc::Sender<T>, value: T) {
    let _ = tx.send(value);
}

/// Calls `Sender::clone`: another handle on the same channel.
#[verifier::external_body]
pub(crate) fn sender_clone<T>(tx: &std::sync::mpsc::Sender<T>) -> (c: std::sync::mpsc::Sender<T>) {
    tx.clone()
}

/// Calls `Receiver::try_recv` and tells its three outcomes apart; which one comes
/// depends on the senders, so nothing is stated of it.
#[verifier::external_body]
pub(crate) fn receiver_try_recv<T>(rx: &std::sync::mpsc::Receiver<T>) -> (r: RecvStatus<T>) {
    match rx.try_recv() {
        Ok(v) => RecvStatus::Msg(v),
        Err(std::sync::mpsc::TryRecvError::Empty) => RecvStatus::Empty,
        Err(std::sync::mpsc::TryRecvError::Disconnected) => RecvStatus::Disconnected,
    }
}

/// Calls `Receiver::recv`, which blocks until a message comes (`Some`) or every
/// sender is gone (`None`).
#[verifier::external_body]
pub(crate) fn receiver_recv<T>(rx: &std::sync::mpsc::Receiver<T>) -> (r: Option<T>) {
    match rx.recv() {
        Ok(v) => Some(v),
        Err(_) => None,
    }
}

/// Calls `std::time::Duration::from_nanos`.
#[verifier::external_body]
fn std_duration_from_nanos(nanos: u64) -> (d: std::time::Duration) {
    std::time::Duration::from_nanos(nanos)
}

/// Calls `Receiver::recv_timeout` and tells its three outcomes apart.
#[verifier::external_body]
fn receiver_recv_timeout(rx: &std::sync::mpsc::Receiver<WakeMsg>, d: std::time::Duration) -> (r: WakeRecvTimeout) {
    match rx.recv_timeout(d) {
        Ok(m) => WakeRecvTimeout::Msg(m),
        Err(std::sync::mpsc::RecvTimeoutError::Timeout) => WakeRecvTimeout::Timeout,
        Err(std::sync::mpsc::RecvTimeoutError::Disconnected) => WakeRecvTimeout::Disconnected,
    }
}

/// Sending half of a scope's wake channel; it can be moved to other threads.
pub struct WakeTx {
    tx: std::sync::mpsc::Sender<WakeMsg>,
}

/// Receiving half of a scope's wake channel.
pub struct WakeRx {
    rx: std::sync::mpsc::Receiver<WakeMsg>,
}

pub fn wake_channel() -> (pair: (WakeTx, WakeRx)) {
    let (tx, rx) = channel_new::<WakeMsg>();
    (WakeTx { tx }, WakeRx { rx })
}

impl Clone for WakeTx {
    fn clone(&self) -> (c: WakeTx) {
        WakeTx { tx: sender_clone(&self.tx) }
    }
}

impl WakeTx {
    pub fn send(&self, msg: WakeMsg) {
        sender_send(&self.tx, msg);
    }
}

impl WakeRx {
    /// This channel can block the calling thread while it waits.
    pub fn supports_blocking(&self) -> (b: bool)
        ensures
            b,
    {
        true
    }

    pub fn try_recv(&self) -> (r: Option<WakeMsg>) {
        match receiver_try_recv(&self.rx) {
            RecvStatus::Msg(m) => Some(m),
            RecvStatus::Empty => None,
            RecvStatus::Disconnected => None,
        }
    }

    pub fn recv(&self) -> (r: Option<WakeMsg>) {
        receiver_recv(&self.rx)
    }

    pub fn recv_timeout(&self, dur: Duration) -> (r: WakeRecvTimeout) {
        receiver_recv_timeout(&self.rx, std_duration_from_nanos(dur.nanos))
    }
}

/// Wakes tasks of a scope on behalf of task `from`; it can be moved to other threads.
#[derive(Clone)]
pub struct WakeSender {
    from: usize,
    tx: WakeTx,
}

impl WakeSender {
    pub fn new(from: usize, tx: WakeTx) -> (w: WakeSender)
        ensures
            w.from() == from,
    {
        WakeSender { from, tx }
    }

    pub closed spec fn from(&self) -> usize {
        self.from
    }

    /// Sends a request to schedule task `to`.
    pub fn wake(&self, to: usize) {
        self.tx.send(WakeMsg { from: self.from, to });
    }
}

} // verus!
