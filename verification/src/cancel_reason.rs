use vstd::prelude::*;

verus! {

/// Why a task was (or is being) cancelled.
///
/// Each reason has a stable one-byte code (see [`CancelReason::as_u8`]), which is
/// what joinable tasks record as their abort code.
#[derive(Debug, Clone, Copy, PartialEq, Eq, Structural)]
pub enum CancelReason {
    NoReason,
    UserRequest,
    ShortCircuit,
    TimeoutTicks,
    TimeoutTime,
    Unknown,
}

/// Abort code that marks a joinable task as panicked.
pub const ABORT_PANICKED: u8 = 250;

/// The one-byte code of a reason.
pub open spec fn reason_code(r: CancelReason) -> u8 {
    match r {
        CancelReason::NoReason => 0,
        CancelReason::UserRequest => 1,
        CancelReason::ShortCircuit => 2,
        CancelReason::TimeoutTicks => 3,
        CancelReason::TimeoutTime => 4,
        CancelReason::Unknown => 255,
    }
}

/// The reason that a code stands for; every code outside `0..=4` reads as `Unknown`.
pub open spec fn reason_of_code(v: u8) -> CancelReason {
    if v == 0 {
        CancelReason::NoReason
    } else if v == 1 {
        CancelReason::UserRequest
    } else if v == 2 {
        CancelReason::ShortCircuit
    } else if v == 3 {
        CancelReason::TimeoutTicks
    } else if v == 4 {
        CancelReason::TimeoutTime
    } else {
        CancelReason::Unknown
    }
}

/// Strength of a reason when two reasons compete for the same task.
pub open spec fn reason_priority(r: CancelReason) -> u8 {
    match r {
        CancelReason::NoReason => 0,
        CancelReason::Unknown => 1,
        CancelReason::TimeoutTicks => 5,
        CancelReason::TimeoutTime => 5,
        CancelReason::UserRequest => 10,
        CancelReason::ShortCircuit => 20,
    }
}

pub open spec fn reason_is_timeout(r: CancelReason) -> bool {
    r == CancelReason::TimeoutTicks || r == CancelReason::TimeoutTime
}

pub open spec fn reason_is_meaningful(r: CancelReason) -> bool {
    r != CancelReason::NoReason
}

/// `new` may replace `cur`: a timeout never displaces a meaningful known reason,
/// otherwise the strictly stronger reason wins.
pub open spec fn replaces(cur: CancelReason, new: CancelReason) -> bool {
    if reason_is_timeout(new) && reason_is_meaningful(cur) && cur != CancelReason::Unknown {
        false
    } else {
        reason_priority(new) > reason_priority(cur)
    }
}

impl CancelReason {
    pub fn from_u8(v: u8) -> (r: CancelReason)
        ensures
            r == reason_of_code(v),
    {
        match v {
            0 => CancelReason::NoReason,
            1 => CancelReason::UserRequest,
            2 => CancelReason::ShortCircuit,
            3 => CancelReason::TimeoutTicks,
            4 => CancelReason::TimeoutTime,
            _ => CancelReason::Unknown,
        }
    }

    pub fn as_u8(self) -> (v: u8)
        ensures
            v == reason_code(self),
    {
        match self {
            CancelReason::NoReason => 0,
            CancelReason::UserRequest => 1,
            CancelReason::ShortCircuit => 2,
            CancelReason::TimeoutTicks => 3,
            CancelReason::TimeoutTime => 4,
            CancelReason::Unknown => 255,
        }
    }

    pub fn is_meaningful(self) -> (b: bool)
        ensures
            b == reason_is_meaningful(self),
    {
        match self {
            CancelReason::NoReason => false,
            _ => true,
        }
    }

    pub fn priority(self) -> (p: u8)
        ensures
            p == reason_priority(self),
    {
        match self {
            CancelReason::NoReason => 0,
            CancelReason::Unknown => 1,
            CancelReason::TimeoutTicks => 5,
            CancelReason::TimeoutTime => 5,
            CancelReason::UserRequest => 10,
            CancelReason::ShortCircuit => 20,
        }
    }

    pub fn is_timeout(self) -> (b: bool)
        ensures
            b == reason_is_timeout(self),
    {
        match self {
            CancelReason::TimeoutTicks => true,
            CancelReason::TimeoutTime => true,
            _ => false,
        }
    }
}

/// Returns true if `new` is allowed to replace `cur`.
pub fn should_replace_reason(cur: CancelReason, new: CancelReason) -> (b: bool)
    ensures
        b == replaces(cur, new),
{
    if new.is_timeout() && cur.is_meaningful() && cur != CancelReason::Unknown {
        return false;
    }
    new.priority() > cur.priority()
}

/// Reading back the code of a reason gives that reason.
pub proof fn lemma_code_round_trip(r: CancelReason)
    ensures
        reason_of_code(reason_code(r)) == r,
{
}

/// A code read as a reason and written back is unchanged exactly for the six codes
/// in use; every other code collapses to the code of `Unknown`.
pub proof fn lemma_code_read_back(v: u8)
    ensures
        (v <= 4 || v == 255) ==> reason_code(reason_of_code(v)) == v,
        !(v <= 4 || v == 255) ==> reason_code(reason_of_code(v)) == 255,
{
}

/// Codes of distinct reasons are distinct, and none of them is the panicked marker.
pub proof fn lemma_codes_distinct(a: CancelReason, b: CancelReason)
    ensures
        a != b ==> reason_code(a) != reason_code(b),
        reason_code(a) != ABORT_PANICKED,
{
}

/// Replacement is a strict order: no reason replaces itself, two reasons never
/// replace each other, and replacement chains compose.
pub proof fn lemma_replace_strict_order(a: CancelReason, b: CancelReason, c: CancelReason)
    ensures
        !replaces(a, a),
        !(replaces(a, b) && replaces(b, a)),
        replaces(a, b) && replaces(b, c) ==> replaces(a, c),
{
}

/// A timeout never displaces a meaningful, known reason.
pub proof fn lemma_timeout_never_displaces(cur: CancelReason, new: CancelReason)
    requires
        reason_is_timeout(new),
        cur != CancelReason::NoReason,
        cur != CancelReason::Unknown,
    ensures
        !replaces(cur, new),
{
}

/// Every reason other than `NoReason` replaces `NoReason`.
pub proof fn lemma_anything_replaces_no_reason(new: CancelReason)
    requires
        new != CancelReason::NoReason,
    ensures
        replaces(CancelReason::NoReason, new),
{
}

} // verus!
