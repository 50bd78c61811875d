//! The first form of the read future, which reports only the number of bytes
//! read.
use vstd::prelude::*;
use crate::uring::{errno_code_accepted, errno_for, errno_from_raw, UringError};

verus! {

pub struct ReadFuture {
    fd: i32,
    size: usize,
    offset: u64,
    job_id: Option<u32>,
}

impl ReadFuture {
    pub closed spec fn fd_spec(&self) -> i32 {
        self.fd
    }

    pub closed spec fn size_spec(&self) -> usize {
        self.size
    }

    pub closed spec fn offset_spec(&self) -> u64 {
        self.offset
    }

    pub closed spec fn job_id_spec(&self) -> Option<u32> {
        self.job_id
    }

    /// A read of `size` bytes of `fd` at `offset`, not yet submitted.
    pub fn new(fd: i32, offset: u64, size: usize) -> (r: Self)
        ensures
            r.fd_spec() == fd,
            r.offset_spec() == offset,
            r.size_spec() == size,
            r.job_id_spec() is None,
    {
        ReadFuture { fd, size, offset, job_id: None }
    }

    /// A negative result code is the negated OS error; otherwise it is the
    /// number of bytes read.
    pub fn process_result(&self, res: i32) -> (r: Result<usize, UringError>)
        requires
            res >= 0 || errno_code_accepted(-(res as int)),
        ensures
            res < 0 ==> (r matches Err(UringError::IoError(e)) && e == errno_for((-res) as i32)),
            res >= 0 ==> r == Ok::<usize, UringError>(res as usize),
    {
        if res < 0 {
            return Err(UringError::IoError(errno_from_raw(-res)));
        }
        Ok(res as usize)
    }
}

} // verus!
