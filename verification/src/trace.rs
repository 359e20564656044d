use vstd::prelude::*;
use crate::cancel_reason::CancelReason;
use crate::task::TaskId;
use crate::task::TaskState;
use crate::time::Duration;

verus! {

/// Observer of a scope's scheduling events. Every method does nothing unless an
/// implementation says otherwise.
pub trait Tracer {
    fn on_cancel_request(&mut self, task: TaskId, reason: CancelReason, tick_budget: Option<u64>, time_budget: Option<Duration>) {
    }

    fn on_cancel_hard_stop(&mut self, task: TaskId, reason: CancelReason) {
    }

    fn on_spawn(&mut self, id: TaskId, name: &str) {
    }

    fn on_wake(&mut self, from: TaskId, to: TaskId) {
    }

    fn on_subscribe_finish(&mut self, waiter: TaskId, target: TaskId) {
    }

    fn on_poll_seq(&mut self, seq: u64, id: TaskId, name: &str) {
    }

    fn on_poll_begin(&mut self, id: TaskId, name: &str) {
    }

    fn on_poll_end(&mut self, id: TaskId, name: &str) {
    }

    fn on_finish(&mut self, id: TaskId, name: &str, state: TaskState) {
    }

    fn on_defer_spawn(&mut self, parent: TaskId, child_name: &str) {
    }

    fn on_io_wait_readable(&mut self, task: TaskId, token: usize) {
    }

    fn on_io_notify_readable(&mut self, token: usize, woken: &[TaskId]) {
    }

    fn on_sleep_until(&mut self, task: TaskId, deadline_micros_from_now: u64) {
    }

    fn on_timers_fired(&mut self, count: usize) {
    }
}

/// A tracer that records nothing.
pub struct NoTracer;

impl Tracer for NoTracer {
}

/// The character of decimal digit `d`.
pub open spec fn digit_char(d: u64) -> char {
    if d == 0 { '0' } else if d == 1 { '1' } else if d == 2 { '2' } else if d == 3 { '3' } else if d == 4 { '4' }
    else if d == 5 { '5' } else if d == 6 { '6' } else if d == 7 { '7' } else if d == 8 { '8' } else { '9' }
}

/// The decimal digits of `n`, most significant first, with no leading zero.
pub open spec fn decimal(n: u64) -> Seq<char>
    decreases n,
{
    if n < 10 {
        seq![digit_char(n)]
    } else {
        decimal(n / 10).push(digit_char(n % 10))
    }
}

fn digit_str(d: u64) -> (s: &'static str)
    requires
        d < 10,
    ensures
        s@ == seq![digit_char(d)],
{
    if d == 0 {
        proof { reveal_strlit("0"); }
        "0"
    } else if d == 1 {
        proof { reveal_strlit("1"); }
        "1"
    } else if d == 2 {
        proof { reveal_strlit("2"); }
        "2"
    } else if d == 3 {
        proof { reveal_strlit("3"); }
        "3"
    } else if d == 4 {
        proof { reveal_strlit("4"); }
        "4"
    } else if d == 5 {
        proof { reveal_strlit("5"); }
        "5"
    } else if d == 6 {
        proof { reveal_strlit("6"); }
        "6"
    } else if d == 7 {
        proof { reveal_strlit("7"); }
        "7"
    } else if d == 8 {
        proof { reveal_strlit("8"); }
        "8"
    } else {
        proof { reveal_strlit("9"); }
        "9"
    }
}

/// The decimal digits of `n`, as `u64`'s `Display` writes them.
fn decimal_string(n: u64) -> (s: String)
    ensures
        s@ == decimal(n),
    decreases n,
{
    if n < 10 {
        String::from_str(digit_str(n))
    } else {
        let mut s = decimal_string(n / 10);
        s.append(digit_str(n % 10));
        s
    }
}

/// How a cancel reason is written in a trace line.
pub open spec fn reason_text(r: CancelReason) -> Seq<char> {
    match r {
        CancelReason::NoReason => "None"@,
        CancelReason::UserRequest => "UserRequest"@,
        CancelReason::ShortCircuit => "ShortCircuit"@,
        CancelReason::TimeoutTicks => "TimeoutTicks"@,
        CancelReason::TimeoutTime => "TimeoutTime"@,
        CancelReason::Unknown => "Unknown"@,
    }
}

fn reason_str(r: CancelReason) -> (s: &'static str)
    ensures
        s@ == reason_text(r),
{
    match r {
        CancelReason::NoReason => "None",
        CancelReason::UserRequest => "UserRequest",
        CancelReason::ShortCircuit => "ShortCircuit",
        CancelReason::TimeoutTicks => "TimeoutTicks",
        CancelReason::TimeoutTime => "TimeoutTime",
        CancelReason::Unknown => "Unknown",
    }
}

/// How a task state is written in a trace line.
pub open spec fn state_text(st: TaskState) -> Seq<char> {
    match st {
        TaskState::Alive => "Alive"@,
        TaskState::Completed => "Completed"@,
        TaskState::Cancelled => "Cancelled"@,
        TaskState::Panicked => "Panicked"@,
    }
}

fn state_str(st: TaskState) -> (s: &'static str)
    ensures
        s@ == state_text(st),
{
    match st {
        TaskState::Alive => "Alive",
        TaskState::Completed => "Completed",
        TaskState::Cancelled => "Cancelled",
        TaskState::Panicked => "Panicked",
    }
}

/// How an optional number is written in a trace line.
pub open spec fn opt_text(o: Option<u64>) -> Seq<char> {
    match o {
        Some(n) => "Some("@ + decimal(n) + ")"@,
        None => "None"@,
    }
}

fn opt_string(o: Option<u64>) -> (s: String)
    ensures
        s@ == opt_text(o),
{
    match o {
        Some(n) => {
            let mut s = String::from_str("Some(");
            let d = decimal_string(n);
            s.append(d.as_str());
            s.append(")");
            s
        },
        None => String::from_str("None"),
    }
}

pub open spec fn spawn_line(id: TaskId, name: Seq<char>) -> Seq<char> {
    "[spawn] "@ + decimal(id as u64) + " "@ + name
}

pub open spec fn wake_line(from: TaskId, to: TaskId) -> Seq<char> {
    "[wake] "@ + decimal(from as u64) + " -> "@ + decimal(to as u64)
}

pub open spec fn join_line(waiter: TaskId, target: TaskId) -> Seq<char> {
    "[join] "@ + decimal(waiter as u64) + " waits "@ + decimal(target as u64)
}

pub open spec fn poll_seq_line(seq: u64, id: TaskId, name: Seq<char>) -> Seq<char> {
    "[poll#] "@ + decimal(seq) + " "@ + decimal(id as u64) + " "@ + name
}

pub open spec fn done_line(id: TaskId, name: Seq<char>, st: TaskState) -> Seq<char> {
    "[done] "@ + decimal(id as u64) + " "@ + name + " => "@ + state_text(st)
}

pub open spec fn timers_line(count: usize) -> Seq<char> {
    "[timers] fired "@ + decimal(count as u64)
}

/// `time_ms` is the time budget in whole milliseconds.
pub open spec fn cancel_line(task: TaskId, reason: CancelReason, tick: Option<u64>, time_ms: Option<u64>) -> Seq<char> {
    "[cancel] task="@ + decimal(task as u64) + " reason="@ + reason_text(reason) + " tick="@ + opt_text(tick)
        + " time_ms="@ + opt_text(time_ms)
}

pub open spec fn cancel_now_line(task: TaskId, reason: CancelReason) -> Seq<char> {
    "[cancel_now] task="@ + decimal(task as u64) + " reason="@ + reason_text(reason)
}

/// A tracer that keeps its trace lines in memory.
pub struct BufferTracer {
    lines: Vec<String>,
}

impl View for BufferTracer {
    type V = Seq<Seq<char>>;

    closed spec fn view(&self) -> Seq<Seq<char>> {
        self.lines@.map_values(|l: String| l@)
    }
}

impl BufferTracer {
    pub fn new() -> (t: BufferTracer)
        ensures
            t@ == Seq::<Seq<char>>::empty(),
    {
        let t = BufferTracer { lines: Vec::new() };
        proof {
            assert(t@ =~= Seq::<Seq<char>>::empty());
        }
        t
    }

    pub fn push(&mut self, s: String)
        ensures
            final(self)@ == old(self)@.push(s@),
    {
        let ghost line = s@;
        self.lines.push(s);
        proof {
            assert(self@ =~= old(self)@.push(line));
        }
    }

    pub fn lines(&self) -> (l: &[String])
        ensures
            l@.map_values(|x: String| x@) == self@,
    {
        self.lines.as_slice()
    }

    pub fn take(self) -> (l: Vec<String>)
        ensures
            l@.map_values(|x: String| x@) == self@,
    {
        self.lines
    }
}

impl Tracer for BufferTracer {
    fn on_spawn(&mut self, id: TaskId, name: &str)
        ensures
            final(self)@ == old(self)@.push(spawn_line(id, name@)),
    {
        let mut s = String::from_str("[spawn] ");
        s.append(decimal_string(id as u64).as_str());
        s.append(" ");
        s.append(name);
        self.push(s);
    }

    fn on_wake(&mut self, from: TaskId, to: TaskId)
        ensures
            final(self)@ == old(self)@.push(wake_line(from, to)),
    {
        let mut s = String::from_str("[wake] ");
        s.append(decimal_string(from as u64).as_str());
        s.append(" -> ");
        s.append(decimal_string(to as u64).as_str());
        self.push(s);
    }

    fn on_subscribe_finish(&mut self, waiter: TaskId, target: TaskId)
        ensures
            final(self)@ == old(self)@.push(join_line(waiter, target)),
    {
        let mut s = String::from_str("[join] ");
        s.append(decimal_string(waiter as u64).as_str());
        s.append(" waits ");
        s.append(decimal_string(target as u64).as_str());
        self.push(s);
    }

    fn on_poll_seq(&mut self, seq: u64, id: TaskId, name: &str)
        ensures
            final(self)@ == old(self)@.push(poll_seq_line(seq, id, name@)),
    {
        let mut s = String::from_str("[poll#] ");
        s.append(decimal_string(seq).as_str());
        s.append(" ");
        s.append(decimal_string(id as u64).as_str());
        s.append(" ");
        s.append(name);
        self.push(s);
    }

    fn on_finish(&mut self, id: TaskId, name: &str, state: TaskState)
        ensures
            final(self)@ == old(self)@.push(done_line(id, name@, state)),
    {
        let mut s = String::from_str("[done] ");
        s.append(decimal_string(id as u64).as_str());
        s.append(" ");
        s.append(name);
        s.append(" => ");
        s.append(state_str(state));
        self.push(s);
    }

    fn on_timers_fired(&mut self, count: usize)
        ensures
            final(self)@ == old(self)@.push(timers_line(count)),
    {
        let mut s = String::from_str("[timers] fired ");
        s.append(decimal_string(count as u64).as_str());
        self.push(s);
    }

    fn on_cancel_request(&mut self, task: TaskId, reason: CancelReason, tick_budget: Option<u64>, time_budget: Option<Duration>)
        ensures
            final(self)@ == old(self)@.push(cancel_line(task, reason, tick_budget, match time_budget {
                Some(d) => Some(d.nanos / 1_000_000),
                None => None,
            })),
    {
        let ms = match time_budget {
            Some(d) => Some(d.as_millis()),
            None => None,
        };
        let mut s = String::from_str("[cancel] task=");
        s.append(decimal_string(task as u64).as_str());
        s.append(" reason=");
        s.append(reason_str(reason));
        s.append(" tick=");
        s.append(opt_string(tick_budget).as_str());
        s.append(" time_ms=");
        s.append(opt_string(ms).as_str());
        self.push(s);
    }

    fn on_cancel_hard_stop(&mut self, task: TaskId, reason: CancelReason)
        ensures
            final(self)@ == old(self)@.push(cancel_now_line(task, reason)),
    {
        let mut s = String::from_str("[cancel_now] task=");
        s.append(decimal_string(task as u64).as_str());
        s.append(" reason=");
        s.append(reason_str(reason));
        self.push(s);
    }
}

/// The line of a graph node.
pub open spec fn dot_label_line(id: TaskId, name: Seq<char>) -> Seq<char> {
    "  n"@ + decimal(id as u64) + " [label=\""@ + decimal(id as u64) + ": "@ + name + "\"];\n"@
}

/// The line of a graph edge.
pub open spec fn dot_edge_line(a: TaskId, b: TaskId) -> Seq<char> {
    "  n"@ + decimal(a as u64) + " -> n"@ + decimal(b as u64) + ";\n"@
}

pub open spec fn dot_labels(labels: Seq<(TaskId, Seq<char>)>) -> Seq<char>
    decreases labels.len(),
{
    if labels.len() == 0 {
        Seq::empty()
    } else {
        dot_labels(labels.drop_last()) + dot_label_line(labels.last().0, labels.last().1)
    }
}

pub open spec fn dot_edges(edges: Seq<(TaskId, TaskId)>) -> Seq<char>
    decreases edges.len(),
{
    if edges.len() == 0 {
        Seq::empty()
    } else {
        dot_edges(edges.drop_last()) + dot_edge_line(edges.last().0, edges.last().1)
    }
}

/// The graph in Graphviz's dot language: a node per spawned task, an edge per
/// wake-up and per finish subscription (from the producer to the waiter).
pub open spec fn dot_text(labels: Seq<(TaskId, Seq<char>)>, edges: Seq<(TaskId, TaskId)>) -> Seq<char> {
    "digraph borrowed_executor {\n"@ + dot_labels(labels) + dot_edges(edges) + "}\n"@
}

/// A tracer that records the task graph.
pub struct DotTracer {
    edges: Vec<(TaskId, TaskId)>,
    labels: Vec<(TaskId, String)>,
}

impl DotTracer {
    pub closed spec fn edge_list(&self) -> Seq<(TaskId, TaskId)> {
        self.edges@
    }

    pub closed spec fn label_list(&self) -> Seq<(TaskId, Seq<char>)> {
        self.labels@.map_values(|l: (TaskId, String)| (l.0, l.1@))
    }

    pub fn new() -> (t: DotTracer)
        ensures
            t.edge_list() == Seq::<(TaskId, TaskId)>::empty(),
            t.label_list() == Seq::<(TaskId, Seq<char>)>::empty(),
    {
        let t = DotTracer { edges: Vec::new(), labels: Vec::new() };
        proof {
            assert(t.label_list() =~= Seq::<(TaskId, Seq<char>)>::empty());
        }
        t
    }

    pub fn dot(&self) -> (s: String)
        ensures
            s@ == dot_text(self.label_list(), self.edge_list()),
    {
        let mut s = String::from_str("digraph borrowed_executor {\n");
        let mut i: usize = 0;
        while i < self.labels.len()
            invariant
                i <= self.labels@.len(),
                s@ == "digraph borrowed_executor {\n"@ + dot_labels(self.label_list().take(i as int)),
            decreases self.labels@.len() - i,
        {
            let id = self.labels[i].0;
            s.append("  n");
            s.append(decimal_string(id as u64).as_str());
            s.append(" [label=\"");
            s.append(decimal_string(id as u64).as_str());
            s.append(": ");
            s.append(self.labels[i].1.as_str());
            s.append("\"];\n");
            proof {
                let ll = self.label_list();
                assert(ll.take(i as int + 1).drop_last() =~= ll.take(i as int));
                assert(ll[i as int] == (id, self.labels@[i as int].1@));
            }
            i = i + 1;
        }
        proof {
            assert(self.label_list().take(self.labels@.len() as int) =~= self.label_list());
        }
        let mut j: usize = 0;
        while j < self.edges.len()
            invariant
                j <= self.edges@.len(),
                s@ == "digraph borrowed_executor {\n"@ + dot_labels(self.label_list()) + dot_edges(self.edges@.take(j as int)),
            decreases self.edges@.len() - j,
        {
            let (a, b) = self.edges[j];
            s.append("  n");
            s.append(decimal_string(a as u64).as_str());
            s.append(" -> n");
            s.append(decimal_string(b as u64).as_str());
            s.append(";\n");
            proof {
                assert(self.edges@.take(j as int + 1).drop_last() =~= self.edges@.take(j as int));
            }
            j = j + 1;
        }
        proof {
            assert(self.edges@.take(self.edges@.len() as int) =~= self.edges@);
        }
        s.append("}\n");
        s
    }
}

impl Tracer for DotTracer {
    fn on_spawn(&mut self, id: TaskId, name: &str)
        ensures
            final(self).label_list() == old(self).label_list().push((id, name@)),
            final(self).edge_list() == old(self).edge_list(),
    {
        let n = String::from_str(name);
        self.labels.push((id, n));
        proof {
            assert(self.label_list() =~= old(self).label_list().push((id, name@)));
        }
    }

    fn on_wake(&mut self, from: TaskId, to: TaskId)
        ensures
            final(self).label_list() == old(self).label_list(),
            final(self).edge_list() == old(self).edge_list().push((from, to)),
    {
        self.edges.push((from, to));
    }

    fn on_subscribe_finish(&mut self, waiter: TaskId, target: TaskId)
        ensures
            final(self).label_list() == old(self).label_list(),
            final(self).edge_list() == old(self).edge_list().push((target, waiter)),
    {
        self.edges.push((target, waiter));
    }
}

} // verus!
