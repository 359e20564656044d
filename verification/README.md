# Scoped task executor

A single-threaded executor for tasks that borrow shared resources. Tasks are
polled one at a time, can be joined, raced and mapped, can sleep, wait for I/O
readiness, and can be cancelled with escalating hard stops (after a number of
ticks or a span of time).

- `src/` is the library, verified with Verus: the scheduler (`scope`), cancel
  reasons and escalation policy, deadline queues, the join and select
  combinators (`ops`), joinable outputs (`join`, `output`), timers, tracers, and
  the arithmetic of the stress workload.
- `tests/` exercises the library on concrete values.
- `app/` is the user-facing layer: dynamically typed tasks with panic catching,
  the blocking run loops, closures as mappers and finishers, and demo programs.
