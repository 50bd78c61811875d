//! Errors of the io_uring layer, and the one call into `rustix` that the
//! library's own logic makes: building an `Errno` from a raw OS error code.
use vstd::prelude::*;

verus! {

/// `rustix::io::Errno`, an OS error code. Opaque to the library: it is only
/// built (through [`errno_from_raw`]) and carried inside [`UringError`].
#[verifier::external_type_specification]
#[verifier::external_body]
pub struct ExErrno(rustix::io::Errno);

/// What `rustix::io::Errno::from_raw_os_error` returns for `raw`.
pub uninterp spec fn errno_for(raw: i32) -> rustix::io::Errno;

/// The raw codes that `Errno::from_raw_os_error` accepts on Linux without
/// failing its range assertion: those whose value modulo 2^16 lies in
/// `1..=4095` (rustix stores the negated code in a `u16` and asserts that
/// it is at least `0xf001`).
pub open spec fn errno_code_accepted(raw: int) -> bool {
    1 <= raw % 0x1_0000 <= 4095
}

/// Calls `rustix::io::Errno::from_raw_os_error`. The contract claims only
/// that the result is the fixed value `errno_for(raw)`; on Linux rustix asserts
/// that the code is in range, so `raw` must be accepted.
#[verifier::external_body]
pub(crate) fn errno_from_raw(raw: i32) -> (e: rustix::io::Errno)
    requires
        errno_code_accepted(raw as int),
    ensures
        e == errno_for(raw),
{
    rustix::io::Errno::from_raw_os_error(raw)
}

/// The number of bytes to map for a ring region whose entries start at byte
/// `offset` and are `entries` entries of `entry_size` bytes each.
pub fn ring_mapping_size(offset: u32, entries: u32, entry_size: usize) -> (n: usize)
    requires
        offset + entries * entry_size <= usize::MAX,
    ensures
        n == offset + entries * entry_size,
{
    offset as usize + entries as usize * entry_size
}

/// Errors of the submission and completion rings.
#[derive(Debug)]
pub enum UringError {
    QueueFull,
    NoCompletions,
    IoError(rustix::io::Errno),
}

} // verus!
