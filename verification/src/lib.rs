//! A scoped task executor whose scheduler is verified: tasks borrow shared
//! resources, are polled one at a time, can be joined, raced and cancelled with
//! escalating hard stops, and can wait on timers and I/O readiness.

pub mod cancel_reason;
pub mod time;
pub mod cancel_policy;
pub mod deadline_queue;
pub mod task;
pub mod io;
pub mod select;
pub mod wake;
pub mod cancel;
pub mod trace;
pub mod scope;
pub mod join;
pub mod timer;
pub mod stream;
pub mod output;
pub mod ops;
pub mod workload;
