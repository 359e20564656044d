use vstd::prelude::*;
use crate::time::Duration;

verus! {

/// Tick-based hard stop after a cancel request.
#[derive(Debug, Clone, Copy, PartialEq, Eq, Structural)]
pub enum TickEscalation {
    /// Use the scope's default.
    Default,
    /// No tick-based hard stop.
    Disabled,
    /// Hard stop after this many ticks (0 means no tick-based hard stop).
    After(u64),
}

/// Time-based hard stop after a cancel request.
#[derive(Debug, Clone, Copy, PartialEq, Eq, Structural)]
pub enum TimeEscalation {
    /// Use the scope's default.
    Default,
    /// No time-based hard stop.
    Disabled,
    /// Hard stop after this span (a zero span means immediately).
    After(Duration),
    /// Hard stop immediately.
    Immediate,
}

/// How a cancel request escalates to a hard stop.
#[derive(Debug, Clone, Copy, PartialEq, Eq, Structural)]
pub struct CancelEscalation {
    pub tick: TickEscalation,
    pub time: TimeEscalation,
}

/// The budgets that a cancel request resolves to, once the scope's defaults are
/// filled in.
#[derive(Debug, Clone, Copy, PartialEq, Eq, Structural)]
pub struct CancelBudgets {
    /// Ticks until the hard stop; 0 means none.
    pub tick_budget: u64,
    /// Time until the hard stop, if any.
    pub time_budget: Option<Duration>,
    /// Hard stop now.
    pub immediate: bool,
}

impl CancelEscalation {
    /// Both escalations taken from the scope's defaults.
    pub fn use_defaults() -> (e: CancelEscalation)
        ensures
            e.tick == TickEscalation::Default,
            e.time == TimeEscalation::Default,
    {
        CancelEscalation { tick: TickEscalation::Default, time: TimeEscalation::Default }
    }

    pub fn no_escalation() -> (e: CancelEscalation)
        ensures
            e.tick == TickEscalation::Disabled,
            e.time == TimeEscalation::Disabled,
    {
        CancelEscalation { tick: TickEscalation::Disabled, time: TimeEscalation::Disabled }
    }

    pub fn ticks(n: u64) -> (e: CancelEscalation)
        ensures
            e.tick == TickEscalation::After(n),
            e.time == TimeEscalation::Disabled,
    {
        CancelEscalation { tick: TickEscalation::After(n), time: TimeEscalation::Disabled }
    }

    pub fn time(d: Duration) -> (e: CancelEscalation)
        ensures
            e.tick == TickEscalation::Disabled,
            e.time == TimeEscalation::After(d),
    {
        CancelEscalation { tick: TickEscalation::Disabled, time: TimeEscalation::After(d) }
    }
}

pub open spec fn spec_tick_budget(default_tick: u64, esc: CancelEscalation) -> u64 {
    match esc.tick {
        TickEscalation::Default => default_tick,
        TickEscalation::Disabled => 0,
        TickEscalation::After(n) => n,
    }
}

pub open spec fn spec_time_budget(default_time: Option<Duration>, esc: CancelEscalation) -> Option<Duration> {
    match esc.time {
        TimeEscalation::Default => default_time,
        TimeEscalation::Disabled => None,
        TimeEscalation::After(d) => Some(d),
        TimeEscalation::Immediate => Some(Duration { nanos: 0 }),
    }
}

/// What a cancel request resolves to under the scope's defaults.
pub open spec fn spec_budgets(
    default_tick: u64,
    default_time: Option<Duration>,
    esc: CancelEscalation,
) -> CancelBudgets {
    let time_budget = spec_time_budget(default_time, esc);
    CancelBudgets {
        tick_budget: spec_tick_budget(default_tick, esc),
        time_budget,
        immediate: esc.time == TimeEscalation::Immediate || time_budget == Some(Duration { nanos: 0 }),
    }
}

/// Fills in the scope's defaults for a cancel request's escalation.
pub fn resolve_cancel_budgets(
    default_tick: u64,
    default_time: Option<Duration>,
    esc: CancelEscalation,
) -> (b: CancelBudgets)
    ensures
        b == spec_budgets(default_tick, default_time, esc),
{
    let tick_budget = match esc.tick {
        TickEscalation::Default => default_tick,
        TickEscalation::Disabled => 0,
        TickEscalation::After(n) => n,
    };
    let time_budget = match esc.time {
        TimeEscalation::Default => default_time,
        TimeEscalation::Disabled => None,
        TimeEscalation::After(d) => Some(d),
        TimeEscalation::Immediate => Some(Duration::zero()),
    };
    let is_immediate = match esc.time {
        TimeEscalation::Immediate => true,
        _ => false,
    };
    let zero_time = match time_budget {
        Some(d) => d.is_zero(),
        None => false,
    };
    CancelBudgets { tick_budget, time_budget, immediate: is_immediate || zero_time }
}

/// A request escalated `Immediate`, or after a zero span, always hard-stops now;
/// one with both escalations disabled never does, and sets no budget.
pub proof fn lemma_immediate_cases(default_tick: u64, default_time: Option<Duration>, esc: CancelEscalation)
    ensures
        esc.time == TimeEscalation::Immediate ==> spec_budgets(default_tick, default_time, esc).immediate,
        esc.time == TimeEscalation::After(Duration { nanos: 0 }) ==> spec_budgets(default_tick, default_time, esc).immediate,
        esc == (CancelEscalation { tick: TickEscalation::Disabled, time: TimeEscalation::Disabled }) ==> {
            let b = spec_budgets(default_tick, default_time, esc);
            &&& !b.immediate
            &&& b.tick_budget == 0
            &&& b.time_budget.is_none()
        },
{
}

} // verus!
