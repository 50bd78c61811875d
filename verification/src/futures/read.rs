//! The read future: reads up to `size` bytes of `fd` at `offset` through the
//! reactor.
use vstd::prelude::*;
use crate::reactor::{ReactorError, ReactorJobHandle};
use crate::uring::{errno_code_accepted, errno_for, errno_from_raw, UringError};

verus! {

/// The plain fields of the submission entry of a read: opcode `Read`, the
/// file descriptor, the buffer length and the file offset.
#[derive(Debug, Clone, Copy)]
pub struct ReadRequest {
    pub fd: i32,
    pub len: u32,
    pub offset: u64,
}

/// What polling an I/O future does next: queue its submission entry (it has
/// no job yet), or collect the result of the job it is waiting on.
#[derive(Debug, Clone, Copy)]
pub enum IoPoll {
    Submit,
    Collect(ReactorJobHandle),
}

/// The bytes of `buf` that a read of `res` bytes filled.
pub open spec fn bytes_read(buf: Seq<u8>, res: i32) -> Seq<u8> {
    if res as int <= buf.len() {
        buf.take(res as int)
    } else {
        buf
    }
}

/// The outcome that a read's result code `res` stands for.
pub open spec fn read_outcome(buf: Seq<u8>, res: i32, r: Result<Vec<u8>, ReactorError>) -> bool {
    if res < 0 {
        r matches Err(ReactorError::UringError(UringError::IoError(e))) && e == errno_for((-res) as i32)
    } else {
        r matches Ok(v) && v@ == bytes_read(buf, res)
    }
}

/// The step a poll takes given the job the future waits on.
pub open spec fn step_for(job: Option<ReactorJobHandle>) -> IoPoll {
    match job {
        Some(j) => IoPoll::Collect(j),
        None => IoPoll::Submit,
    }
}

/// How a read future's job can change from one poll to the next: only
/// `set_job_id` changes it, and it always sets a job.
pub open spec fn job_may_become(before: Option<ReactorJobHandle>, after: Option<ReactorJobHandle>) -> bool {
    after == before || after is Some
}

pub struct ReadFuture {
    fd: i32,
    size: usize,
    offset: u64,
    job_id: Option<ReactorJobHandle>,
}

impl ReadFuture {
    pub closed spec fn fd_spec(&self) -> i32 {
        self.fd
    }

    pub closed spec fn size_spec(&self) -> usize {
        self.size
    }

    pub closed spec fn offset_spec(&self) -> u64 {
        self.offset
    }

    pub closed spec fn job_id_spec(&self) -> Option<ReactorJobHandle> {
        self.job_id
    }

    /// A read of `size` bytes of `fd` at `offset`, not yet submitted.
    pub fn new(fd: i32, offset: u64, size: usize) -> (r: Self)
        ensures
            r.fd_spec() == fd,
            r.offset_spec() == offset,
            r.size_spec() == size,
            r.job_id_spec() is None,
    {
        ReadFuture { fd, size, offset, job_id: None }
    }

    /// The length of the buffer the read fills.
    pub fn size(&self) -> (s: usize)
        ensures
            s == self.size_spec(),
    {
        self.size
    }

    /// The fields of the read's submission entry (the length is the buffer
    /// length truncated to 32 bits).
    pub fn read_request(&self) -> (req: ReadRequest)
        ensures
            req.fd == self.fd_spec(),
            req.len == self.size_spec() as u32,
            req.offset == self.offset_spec(),
    {
        ReadRequest { fd: self.fd, len: self.size as u32, offset: self.offset }
    }

    pub fn job_id(&self) -> (j: Option<ReactorJobHandle>)
        ensures
            j == self.job_id_spec(),
    {
        self.job_id
    }

    /// The next step of a poll: submit once, when no job has been queued
    /// yet; from then on collect the result of that job.
    pub fn poll_step(&self) -> (step: IoPoll)
        ensures
            step == step_for(self.job_id_spec()),
    {
        match self.job_id {
            Some(j) => IoPoll::Collect(j),
            None => IoPoll::Submit,
        }
    }

    pub fn set_job_id(&mut self, id: ReactorJobHandle)
        ensures
            final(self).job_id_spec() == Some(id),
            final(self).fd_spec() == old(self).fd_spec(),
            final(self).size_spec() == old(self).size_spec(),
            final(self).offset_spec() == old(self).offset_spec(),
    {
        self.job_id = Some(id);
    }

    /// Turns the result code of the read into its outcome: a negative code
    /// is the negated OS error, and `buf` (the buffer the read filled) stays
    /// as it is; otherwise it is the number of bytes read, and the buffer is
    /// taken out of `buf`, cut to that length, and returned.
    pub fn process_result(&self, buf: &mut Vec<u8>, res: i32) -> (r: Result<Vec<u8>, ReactorError>)
        requires
            res >= 0 || errno_code_accepted(-(res as int)),
        ensures
            read_outcome(old(buf)@, res, r),
            res < 0 ==> final(buf)@ == old(buf)@,
            res >= 0 ==> final(buf)@ == Seq::<u8>::empty(),
    {
        if res < 0 {
            let e = errno_from_raw(-res);
            return Err(ReactorError::UringError(UringError::IoError(e)));
        }
        let bytes_read = res as usize;
        let mut vec: Vec<u8> = Vec::new();
        std::mem::swap(buf, &mut vec);
        vec.truncate(bytes_read);
        Ok(vec)
    }
}

/// Over any run of polls of one read future, at most one of them submits an
/// entry: once a poll has found the future without a job and the job has
/// been set, every later poll collects instead. `jobs[i]` is the future's
/// job at the `i`-th poll; between polls only `set_job_id` changes it.
pub proof fn lemma_read_submits_at_most_once(jobs: Seq<Option<ReactorJobHandle>>)
    requires
        forall|i: int| 0 <= i < jobs.len() - 1 ==> job_may_become(#[trigger] jobs[i], jobs[i + 1]),
    ensures
        forall|i: int, j: int|
            #![trigger jobs[i], step_for(jobs[j])]
            0 <= i < j < jobs.len() && jobs[i] is Some ==> step_for(jobs[j]) is Collect,
    decreases jobs.len(),
{
    if jobs.len() > 0 {
        let prefix = jobs.drop_last();
        assert forall|i: int| 0 <= i < prefix.len() - 1 implies job_may_become(#[trigger] prefix[i], prefix[i + 1]) by {
            assert(prefix[i] == jobs[i]);
            assert(prefix[i + 1] == jobs[i + 1]);
            assert(job_may_become(jobs[i], jobs[i + 1]));
        }
        lemma_read_submits_at_most_once(prefix);
        let last = jobs.len() - 1;
        assert forall|i: int, j: int|
            #![trigger jobs[i], step_for(jobs[j])]
            0 <= i < j < jobs.len() && jobs[i] is Some implies step_for(jobs[j]) is Collect by {
            if j < last {
                assert(prefix[i] == jobs[i]);
                assert(prefix[j] == jobs[j]);
                assert(step_for(prefix[j]) is Collect);
            } else {
                assert(job_may_become(jobs[last - 1], jobs[last]));
                if i < last - 1 {
                    assert(prefix[i] == jobs[i]);
                    assert(prefix[last - 1] == jobs[last - 1]);
                    assert(step_for(prefix[last - 1]) is Collect);
                }
            }
        }
    }
}

/// What a read's outcome is made of: an error exactly when the code is
/// negative, and otherwise the first `res` bytes of the buffer (all of it
/// when the read reports more than the buffer holds).
pub proof fn lemma_read_outcome_is_prefix(buf: Seq<u8>, res: i32, r: Result<Vec<u8>, ReactorError>)
    requires
        read_outcome(buf, res, r),
    ensures
        r is Err <==> res < 0,
        r matches Ok(v) ==> {
            &&& v@.len() == if res as int <= buf.len() { res as int } else { buf.len() as int }
            &&& forall|i: int| 0 <= i < v@.len() ==> #[trigger] v@[i] == buf[i]
        },
{
}

/// A poll submits exactly when the future has no job yet, and otherwise
/// collects the job it is waiting on.
pub proof fn lemma_poll_step_submits_only_without_job(job: Option<ReactorJobHandle>)
    ensures
        step_for(job) is Submit <==> job is None,
        job matches Some(j) ==> step_for(job) == IoPoll::Collect(j),
{
}

} // verus!
