//! Futures that perform one io_uring operation each.
pub mod read;
pub use read::{IoPoll, ReadFuture};
