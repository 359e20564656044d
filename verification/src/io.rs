use vstd::prelude::*;

verus! {

/// Identifies an I/O source that tasks can wait on.
pub type IoToken = usize;

/// The kinds of readiness a task can wait for.
#[derive(Debug, Clone, Copy, PartialEq, Eq, Structural)]
pub enum IoWaitKind {
    Readable,
}

} // verus!
