# async_study

An educational async runtime whose decisions are verified with Verus.

- `src/executor.rs`: the scheduler of a single-threaded executor (task table,
  run queue of wake-ups, the choice of the next future to poll or to sleep),
  with its laws.
- `src/run.rs`: whole runs of the executor as sequences of calls, with the
  laws that bound how often the main future and each task are polled.
- `src/oneshot.rs`: the one-shot channel used to hand a task's result back,
  as a state machine and as two ends sharing a verified lock.
- `src/future.rs`: a demonstration future that completes after a given number
  of wake-ups.
- `app/`: the runtime around the library: wakers, condition variable, polling
  of the futures, and the example program.
