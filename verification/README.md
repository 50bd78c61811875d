# uring_exec

A single-threaded async executor on io_uring. The library (`src/`) holds its
bookkeeping, verified with Verus:

- `ring`: the head/tail/mask arithmetic of the submission and completion
  rings (free slots, slot of the next entry, slots of pending completions);
- `reactor`: the job table (job ids used as `user_data`, the waker and the
  result of each job);
- `executor`, `waker`: the task table (future and waker per slot, free
  handles, ready queue), the step function of the run loop, and the waker
  that re-queues its task;
- `futures::read`, `read_future`: turning a read's result code into bytes or
  an OS error;
- `uring`: the ring errors, the size of a ring mapping, and the `rustix`
  call that builds an `Errno`.

`app/` is the program around it: the io_uring setup and shared-memory
access, the `Future`/`Wake` impls, the thread-local executor and reactor, and
the run loop.
