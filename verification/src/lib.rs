//! Bookkeeping of a single-threaded io_uring executor: task slots and the
//! ready queue, reactor job slots and their completions, ring counters, and
//! the read future's result handling.
pub mod ring;
pub mod uring;
pub mod reactor;
pub mod executor;
pub mod waker;
pub mod futures;
pub mod read_future;
