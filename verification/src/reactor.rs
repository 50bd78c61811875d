//! The reactor's job table: job ids handed to io_uring as `user_data`, the
//! waker waiting on each job, and the result of each completed job.
use vstd::prelude::*;
use crate::uring::UringError;

verus! {

/// Size of the io_uring submission ring.
pub const MAX_CONCURRENT_SQES: u32 = 1024;

/// Number of jobs that can be in flight at once.
pub const MAX_PENDING_TASKS: u32 = 2048;

/// Errors of the reactor.
#[derive(Debug)]
pub enum ReactorError {
    ExecutorAlreadyExists,
    NoPendingTaskSpace,
    UringError(UringError),
}

/// Identifies one job of the reactor; its index is the `user_data` of the
/// submission and completion queue entries.
#[derive(Debug, Clone, Copy)]
pub struct ReactorJobHandle {
    index: usize,
}

impl View for ReactorJobHandle {
    type V = usize;

    closed spec fn view(&self) -> usize {
        self.index
    }
}

impl ReactorJobHandle {
    pub fn index(&self) -> (i: usize)
        ensures
            i == self@,
    {
        self.index
    }

    pub fn new(index: usize) -> (h: Self)
        ensures
            h@ == index,
    {
        ReactorJobHandle { index }
    }
}

/// One entry of the completion queue, as the reactor reads it: the job id
/// that was given as `user_data` and the operation's result.
#[derive(Debug, Clone, Copy)]
pub struct Completion {
    pub user_data: u64,
    pub res: i32,
}

/// The abstract state of a reactor: per job slot, the result and the waker;
/// and the stack of free job ids (the last one is handed out next).
#[verifier::ext_equal]
pub struct ReactorState<W> {
    pub results: Seq<Option<i32>>,
    pub free_job_ids: Seq<usize>,
    pub wakers: Seq<Option<W>>,
}

impl<W> ReactorState<W> {
    /// Free ids are distinct, in range, and their slots hold nothing.
    pub open spec fn wf(self) -> bool {
        &&& self.results.len() == MAX_PENDING_TASKS
        &&& self.wakers.len() == MAX_PENDING_TASKS
        &&& forall|k: int|
            0 <= k < self.free_job_ids.len() ==> {
                &&& #[trigger] self.free_job_ids[k] < MAX_PENDING_TASKS
                &&& self.results[self.free_job_ids[k] as int] is None
                &&& self.wakers[self.free_job_ids[k] as int] is None
            }
        &&& forall|a: int, b: int|
            0 <= a < b < self.free_job_ids.len() ==> self.free_job_ids[a] != self.free_job_ids[b]
    }

    /// A fresh reactor: nothing pending, every id free, `0` at the bottom.
    pub open spec fn initial() -> Self {
        ReactorState {
            results: Seq::new(MAX_PENDING_TASKS as nat, |i: int| None),
            free_job_ids: Seq::new(MAX_PENDING_TASKS as nat, |i: int| i as usize),
            wakers: Seq::new(MAX_PENDING_TASKS as nat, |i: int| None),
        }
    }

    /// The state after the last free id has been handed out.
    pub open spec fn job_taken(self) -> Self {
        ReactorState { free_job_ids: self.free_job_ids.drop_last(), ..self }
    }

    /// The state after `waker` has been registered for `job`.
    pub open spec fn with_waker(self, job: usize, waker: W) -> Self {
        ReactorState { wakers: self.wakers.update(job as int, Some(waker)), ..self }
    }

    /// The state after the completion `c` has been recorded: its result is
    /// stored and the job's waker has been taken out.
    pub open spec fn completed(self, c: Completion) -> Self {
        ReactorState {
            results: self.results.update(c.user_data as int, Some(c.res)),
            wakers: self.wakers.update(c.user_data as int, None),
            ..self
        }
    }

    /// The state after the completions of `batch` have been recorded in order.
    pub open spec fn completed_all(self, batch: Seq<Completion>) -> Self
        decreases batch.len(),
    {
        if batch.len() == 0 {
            self
        } else {
            self.completed_all(batch.drop_last()).completed(batch.last())
        }
    }

    /// A batch can be delivered when each entry names a job that has a
    /// waker and no job occurs twice.
    pub open spec fn deliverable(self, batch: Seq<Completion>) -> bool {
        &&& forall|i: int|
            0 <= i < batch.len() ==> {
                &&& #[trigger] batch[i].user_data < MAX_PENDING_TASKS
                &&& self.wakers[batch[i].user_data as int] is Some
            }
        &&& forall|i: int, j: int|
            0 <= i < j < batch.len() ==> #[trigger] batch[i].user_data != #[trigger] batch[j].user_data
    }

    /// The wakers that delivering `batch` takes out, in batch order.
    pub open spec fn woken(self, batch: Seq<Completion>) -> Seq<W> {
        Seq::new(batch.len(), |i: int| self.wakers[batch[i].user_data as int]->Some_0)
    }

    /// The state after the result of `job` has been read and the id freed.
    pub open spec fn released(self, job: usize) -> Self {
        ReactorState {
            results: self.results.update(job as int, None),
            wakers: self.wakers.update(job as int, None),
            free_job_ids: self.free_job_ids.push(job),
        }
    }
}

pub struct Reactor<W> {
    results: Vec<Option<i32>>,
    free_job_ids: Vec<ReactorJobHandle>,
    wakers: Vec<Option<W>>,
}

impl<W> View for Reactor<W> {
    type V = ReactorState<W>;

    closed spec fn view(&self) -> ReactorState<W> {
        ReactorState {
            results: self.results@,
            free_job_ids: self.free_job_ids@.map_values(|h: ReactorJobHandle| h@),
            wakers: self.wakers@,
        }
    }
}

impl<W> Reactor<W> {
    /// A reactor with no pending job and every job id free.
    pub fn new() -> (r: Self)
        ensures
            r@ == ReactorState::<W>::initial(),
            r@.wf(),
    {
        let n: usize = MAX_PENDING_TASKS as usize;
        let mut results: Vec<Option<i32>> = Vec::new();
        let mut wakers: Vec<Option<W>> = Vec::new();
        let mut free_job_ids: Vec<ReactorJobHandle> = Vec::new();
        let mut i: usize = 0;
        while i < n
            invariant
                n == MAX_PENDING_TASKS,
                i <= n,
                results@ == Seq::new(i as nat, |k: int| None::<i32>),
                wakers@ == Seq::new(i as nat, |k: int| None::<W>),
                free_job_ids@.len() == i,
                forall|k: int| 0 <= k < i ==> (#[trigger] free_job_ids@[k])@ == k,
            decreases n - i,
        {
            results.push(None);
            wakers.push(None);
            free_job_ids.push(ReactorJobHandle::new(i));
            i = i + 1;
            assert(results@ =~= Seq::new(i as nat, |k: int| None::<i32>));
            assert(wakers@ =~= Seq::new(i as nat, |k: int| None::<W>));
        }
        let r = Reactor { results, free_job_ids, wakers };
        assert(r@.free_job_ids =~= Seq::new(MAX_PENDING_TASKS as nat, |k: int| k as usize));
        assert(r@ =~= ReactorState::<W>::initial());
        r
    }

    /// Hands out the most recently freed job id.
    pub fn get_new_job_id(&mut self) -> (r: Result<ReactorJobHandle, ReactorError>)
        requires
            old(self)@.wf(),
        ensures
            final(self)@.wf(),
            old(self)@.free_job_ids.len() == 0 ==> {
                &&& r matches Err(ReactorError::NoPendingTaskSpace)
                &&& final(self)@ == old(self)@
            },
            old(self)@.free_job_ids.len() > 0 ==> {
                &&& r matches Ok(job) && job@ == old(self)@.free_job_ids.last()
                &&& final(self)@ == old(self)@.job_taken()
            },
    {
        let ghost pre = self@;
        match self.free_job_ids.pop() {
            Some(job) => {
                assert(self@ =~= pre.job_taken());
                Ok(job)
            },
            None => Err(ReactorError::NoPendingTaskSpace),
        }
    }

    /// Whether `job` is currently on the free list.
    pub fn is_free_job(&self, job: ReactorJobHandle) -> (b: bool)
        ensures
            b == self@.free_job_ids.contains(job@),
    {
        let mut i: usize = 0;
        while i < self.free_job_ids.len()
            invariant
                i <= self.free_job_ids@.len(),
                forall|k: int| 0 <= k < i ==> self@.free_job_ids[k] != job@,
            decreases self.free_job_ids@.len() - i,
        {
            if self.free_job_ids[i].index == job.index {
                assert(self@.free_job_ids[i as int] == job@);
                return true;
            }
            i = i + 1;
        }
        false
    }

    /// Registers `waker` for the job once its submission entry has been
    /// queued; `queued` is the outcome of queueing that entry on the ring.
    /// When queueing failed the error is passed on and nothing changes (the
    /// job id stays taken).
    pub fn enqueue_sqe(
        &mut self,
        job_id: ReactorJobHandle,
        queued: Result<(), UringError>,
        waker: W,
    ) -> (r: Result<ReactorJobHandle, ReactorError>)
        requires
            old(self)@.wf(),
            job_id@ < MAX_PENDING_TASKS,
            !old(self)@.free_job_ids.contains(job_id@),
        ensures
            final(self)@.wf(),
            queued matches Err(e) ==> {
                &&& r matches Err(ReactorError::UringError(e2)) && e2 == e
                &&& final(self)@ == old(self)@
            },
            queued is Ok ==> {
                &&& r matches Ok(job) && job@ == job_id@
                &&& final(self)@ == old(self)@.with_waker(job_id@, waker)
            },
    {
        match queued {
            Err(e) => Err(ReactorError::UringError(e)),
            Ok(()) => {
                let ghost pre = self@;
                self.wakers.set(job_id.index, Some(waker));
                assert(self@ =~= pre.with_waker(job_id@, waker));
                assert forall|k: int| 0 <= k < self@.free_job_ids.len() implies
                    #[trigger] self@.free_job_ids[k] != job_id@ by {
                    assert(pre.free_job_ids.contains(pre.free_job_ids[k]));
                }
                Ok(job_id)
            },
        }
    }

    /// Whether every completion of `batch` names a distinct job that has a
    /// waker.
    pub fn can_deliver(&self, batch: &Vec<Completion>) -> (b: bool)
        requires
            self@.wf(),
        ensures
            b == self@.deliverable(batch@),
            b <==> {
                &&& forall|i: int|
                    0 <= i < batch@.len() ==> {
                        &&& #[trigger] batch@[i].user_data < MAX_PENDING_TASKS
                        &&& self@.wakers[batch@[i].user_data as int] is Some
                    }
                &&& forall|i: int, j: int|
                    0 <= i < batch@.len() && 0 <= j < batch@.len() && i != j
                        ==> #[trigger] batch@[i].user_data != #[trigger] batch@[j].user_data
            },
    {
        proof {
            lemma_deliverable_means_distinct_waiting_jobs(self@, batch@);
        }
        let n = batch.len();
        let mut i: usize = 0;
        while i < n
            invariant
                self@.wf(),
                n == batch@.len(),
                i <= n,
                forall|k: int|
                    0 <= k < i ==> {
                        &&& #[trigger] batch@[k].user_data < MAX_PENDING_TASKS
                        &&& self@.wakers[batch@[k].user_data as int] is Some
                    },
                forall|a: int, b: int| 0 <= a < b < i ==> #[trigger] batch@[a].user_data != #[trigger] batch@[b].user_data,
            decreases n - i,
        {
            let ud = batch[i].user_data;
            if ud >= MAX_PENDING_TASKS as u64 {
                return false;
            }
            if self.wakers[ud as usize].is_none() {
                return false;
            }
            let mut j: usize = 0;
            while j < i
                invariant
                    i < n,
                    n == batch@.len(),
                    j <= i,
                    ud == batch@[i as int].user_data,
                    forall|a: int| 0 <= a < j ==> batch@[a].user_data != ud,
                decreases i - j,
            {
                if batch[j].user_data == ud {
                    return false;
                }
                j = j + 1;
            }
            i = i + 1;
        }
        true
    }

    /// Records every completion of `batch`: stores its result and takes
    /// out the job's waker. Returns the taken wakers in batch order, for the
    /// caller to wake.
    pub fn get_completions(&mut self, batch: Vec<Completion>) -> (woken: Vec<W>)
        requires
            old(self)@.wf(),
            old(self)@.deliverable(batch@),
        ensures
            final(self)@.wf(),
            final(self)@ == old(self)@.completed_all(batch@),
            woken@ == old(self)@.woken(batch@),
    {
        let ghost pre = self@;
        let n = batch.len();
        let mut woken: Vec<W> = Vec::new();
        let mut i: usize = 0;
        while i < n
            invariant
                pre.wf(),
                pre.deliverable(batch@),
                n == batch@.len(),
                i <= n,
                self@.wf(),
                self@ == pre.completed_all(batch@.take(i as int)),
                woken@ == pre.woken(batch@.take(i as int)),
                forall|k: int| i <= k < n ==> self@.wakers[#[trigger] batch@[k].user_data as int] == pre.wakers[batch@[k].user_data as int],
            decreases n - i,
        {
            let c = batch[i];
            let idx = c.user_data as usize;
            let ghost before = self@;
            assert(batch@.take(i + 1).drop_last() =~= batch@.take(i as int));
            assert(batch@.take(i + 1).last() == c);
            self.results.set(idx, Some(c.res));
            let mut slot: Option<W> = None;
            self.wakers.set_and_swap(idx, &mut slot);
            assert(self@ =~= before.completed(c));
            proof {
                assert forall|k: int| 0 <= k < self@.free_job_ids.len() implies
                    #[trigger] self@.free_job_ids[k] != idx by {
                }
            }
            match slot {
                Some(w) => {
                    woken.push(w);
                },
                None => {
                    assert(false);
                },
            }
            i = i + 1;
            assert(woken@ =~= pre.woken(batch@.take(i as int)));
            assert forall|k: int| i <= k < n implies self@.wakers[#[trigger] batch@[k].user_data as int] == pre.wakers[batch@[k].user_data as int] by {
                assert(batch@[k].user_data != batch@[i - 1].user_data);
            }
        }
        assert(batch@.take(n as int) =~= batch@);
        woken
    }

    /// Whether `job` has a completed result waiting to be read.
    pub fn has_result(&self, job: ReactorJobHandle) -> (b: bool)
        requires
            self@.wf(),
        ensures
            b == (job@ < MAX_PENDING_TASKS && self@.results[job@ as int] is Some),
    {
        job.index < MAX_PENDING_TASKS as usize && self.results[job.index].is_some()
    }

    /// Reads the result of a completed job and frees its id.
    pub fn get_result(&mut self, job_id: ReactorJobHandle) -> (r: i32)
        requires
            old(self)@.wf(),
            job_id@ < MAX_PENDING_TASKS,
            old(self)@.results[job_id@ as int] is Some,
        ensures
            r == old(self)@.results[job_id@ as int]->Some_0,
            final(self)@ == old(self)@.released(job_id@),
            final(self)@.wf(),
    {
        let ghost pre = self@;
        let i = job_id.index;
        let result = match self.results[i] {
            Some(v) => v,
            None => {
                assert(false);
                0
            },
        };
        self.results.set(i, None);
        self.wakers.set(i, None);
        proof {
            assert forall|k: int| 0 <= k < pre.free_job_ids.len() implies
                #[trigger] pre.free_job_ids[k] != i by {
            }
        }
        self.free_job_ids.push(job_id);
        assert(self@ =~= pre.released(job_id@));
        result
    }
}

/// The job id that the reactor hands out next has no waker and no result
/// pending, and once handed out it is no longer free: two pending jobs never
/// share an id (and so never share a `user_data`).
pub proof fn lemma_new_job_id_is_unused<W>(s: ReactorState<W>)
    requires
        s.wf(),
        s.free_job_ids.len() > 0,
    ensures
        s.results[s.free_job_ids.last() as int] is None,
        s.wakers[s.free_job_ids.last() as int] is None,
        !s.job_taken().free_job_ids.contains(s.free_job_ids.last()),
        s.job_taken().wf(),
{
    let last = s.free_job_ids.len() - 1;
    assert(0 <= last < s.free_job_ids.len());
    if s.job_taken().free_job_ids.contains(s.free_job_ids.last()) {
        let k = choose|k: int| 0 <= k < s.job_taken().free_job_ids.len()
            && s.job_taken().free_job_ids[k] == s.free_job_ids.last();
        assert(s.free_job_ids[k] == s.free_job_ids[last]);
    }
}

/// Reading a job's result frees its id, and that id is the one handed out
/// next.
pub proof fn lemma_released_job_id_is_reused_first<W>(s: ReactorState<W>, job: usize)
    ensures
        s.released(job).free_job_ids.last() == job,
        s.released(job).job_taken().free_job_ids == s.free_job_ids,
{
    assert(s.released(job).job_taken().free_job_ids =~= s.free_job_ids);
}

/// A job's whole life (its id handed out, its waker registered, its
/// completion delivered, its result read) leaves the job table exactly as it
/// was before, and the result read is the completion's.
pub proof fn lemma_job_cycle_restores_table<W>(s: ReactorState<W>, waker: W, res: i32)
    requires
        s.wf(),
        s.free_job_ids.len() > 0,
    ensures
        ({
            let j = s.free_job_ids.last();
            let c = Completion { user_data: j as u64, res };
            let enqueued = s.job_taken().with_waker(j, waker);
            &&& enqueued.wf()
            &&& enqueued.deliverable(seq![c])
            &&& enqueued.completed_all(seq![c]).results[j as int] == Some(res)
            &&& enqueued.completed_all(seq![c]).released(j) == s
        }),
{
    let j = s.free_job_ids.last();
    let last = s.free_job_ids.len() - 1;
    assert(s.free_job_ids[last] == j);
    let c = Completion { user_data: j as u64, res };
    let enqueued = s.job_taken().with_waker(j, waker);
    lemma_new_job_id_is_unused(s);
    assert forall|k: int| 0 <= k < enqueued.free_job_ids.len() implies
        #[trigger] enqueued.free_job_ids[k] != j by {
        assert(s.free_job_ids[k] != s.free_job_ids[last]);
    }
    assert(seq![c].drop_last() =~= Seq::<Completion>::empty());
    assert(seq![c].len() == 1 && seq![c].last() == c);
    assert(enqueued.completed_all(seq![c].drop_last()) == enqueued);
    let done = enqueued.completed_all(seq![c]);
    assert(done == enqueued.completed(c));
    assert(done.released(j) =~= s);
}

/// A batch can be delivered exactly when every entry names a job that has a
/// waker and no two entries name the same job, whatever their order: in
/// particular reversing a deliverable batch keeps it deliverable.
pub proof fn lemma_deliverable_means_distinct_waiting_jobs<W>(s: ReactorState<W>, batch: Seq<Completion>)
    ensures
        s.deliverable(batch) <==> {
            &&& forall|i: int|
                0 <= i < batch.len() ==> {
                    &&& #[trigger] batch[i].user_data < MAX_PENDING_TASKS
                    &&& s.wakers[batch[i].user_data as int] is Some
                }
            &&& forall|i: int, j: int|
                0 <= i < batch.len() && 0 <= j < batch.len() && i != j
                    ==> #[trigger] batch[i].user_data != #[trigger] batch[j].user_data
        },
        s.deliverable(batch) ==> s.deliverable(batch.reverse()),
{
    if s.deliverable(batch) {
        assert forall|i: int, j: int|
            0 <= i < batch.len() && 0 <= j < batch.len() && i != j
            implies #[trigger] batch[i].user_data != #[trigger] batch[j].user_data by {
            if j < i {
                assert(batch[j].user_data != batch[i].user_data);
            }
        }
        let r = batch.reverse();
        assert forall|i: int| 0 <= i < r.len() implies #[trigger] r[i].user_data < MAX_PENDING_TASKS
            && s.wakers[r[i].user_data as int] is Some by {
            assert(r[i] == batch[batch.len() - 1 - i]);
        }
        assert forall|i: int, j: int| 0 <= i < j < r.len() implies
            #[trigger] r[i].user_data != #[trigger] r[j].user_data by {
            assert(r[i] == batch[batch.len() - 1 - i]);
            assert(r[j] == batch[batch.len() - 1 - j]);
            assert(batch[batch.len() - 1 - j].user_data != batch[batch.len() - 1 - i].user_data);
        }
    }
}

/// Each step of the job table changes exactly what it is for. Handing out
/// an id removes the top of the free stack; registering a waker sets only
/// that job's waker; recording a completion sets only that job's result and
/// takes only its waker; reading a result empties only that job's slot and
/// puts its id on top of the free stack.
pub proof fn lemma_job_table_steps_change_one_job<W>(s: ReactorState<W>, job: usize, waker: W, c: Completion)
    requires
        s.wf(),
        job < MAX_PENDING_TASKS,
        c.user_data < MAX_PENDING_TASKS,
    ensures
        s.free_job_ids.len() > 0 ==> s.job_taken().free_job_ids.push(s.free_job_ids.last()) == s.free_job_ids,
        s.job_taken().results == s.results,
        s.job_taken().wakers == s.wakers,
        s.with_waker(job, waker).wakers[job as int] == Some(waker),
        s.with_waker(job, waker).results == s.results,
        s.with_waker(job, waker).free_job_ids == s.free_job_ids,
        s.completed(c).results[c.user_data as int] == Some(c.res),
        s.completed(c).wakers[c.user_data as int] is None,
        s.completed(c).free_job_ids == s.free_job_ids,
        s.released(job).results[job as int] is None,
        s.released(job).wakers[job as int] is None,
        s.released(job).free_job_ids.last() == job,
        s.released(job).free_job_ids.drop_last() == s.free_job_ids,
        forall|i: int| 0 <= i < MAX_PENDING_TASKS && i != job ==> {
            &&& #[trigger] s.with_waker(job, waker).wakers[i] == s.wakers[i]
            &&& s.released(job).results[i] == s.results[i]
            &&& s.released(job).wakers[i] == s.wakers[i]
        },
        forall|i: int| 0 <= i < MAX_PENDING_TASKS && i != c.user_data ==> {
            &&& #[trigger] s.completed(c).results[i] == s.results[i]
            &&& s.completed(c).wakers[i] == s.wakers[i]
        },
{
    if s.free_job_ids.len() > 0 {
        assert(s.job_taken().free_job_ids.push(s.free_job_ids.last()) =~= s.free_job_ids);
    }
    assert(s.released(job).free_job_ids.drop_last() =~= s.free_job_ids);
}

/// Delivering a batch hands back, for each entry in batch order, the waker
/// that its job was waiting with, and leaves every job the batch does not
/// name untouched.
pub proof fn lemma_delivery_wakes_named_jobs_only<W>(s: ReactorState<W>, batch: Seq<Completion>)
    requires
        s.wf(),
        s.deliverable(batch),
    ensures
        s.woken(batch).len() == batch.len(),
        forall|i: int| 0 <= i < batch.len() ==> Some(#[trigger] s.woken(batch)[i]) == s.wakers[batch[i].user_data as int],
        forall|k: int|
            0 <= k < MAX_PENDING_TASKS && (forall|i: int| 0 <= i < batch.len() ==> batch[i].user_data != k) ==> {
                &&& #[trigger] s.completed_all(batch).results[k] == s.results[k]
                &&& s.completed_all(batch).wakers[k] == s.wakers[k]
            },
        s.completed_all(batch).free_job_ids == s.free_job_ids,
    decreases batch.len(),
{
    lemma_completed_all_keeps_lengths(s, batch);
    assert forall|i: int| 0 <= i < batch.len() implies Some(#[trigger] s.woken(batch)[i]) == s.wakers[batch[i].user_data as int] by {
        assert(batch[i].user_data < MAX_PENDING_TASKS);
    }
    if batch.len() > 0 {
        let prefix = batch.drop_last();
        lemma_deliverable_prefix(s, batch);
        lemma_delivery_wakes_named_jobs_only(s, prefix);
        lemma_completed_all_keeps_lengths(s, prefix);
        assert forall|k: int|
            0 <= k < MAX_PENDING_TASKS && (forall|i: int| 0 <= i < batch.len() ==> batch[i].user_data != k) implies {
                &&& #[trigger] s.completed_all(batch).results[k] == s.results[k]
                &&& s.completed_all(batch).wakers[k] == s.wakers[k]
            } by {
            assert forall|i: int| 0 <= i < prefix.len() implies prefix[i].user_data != k by {
                assert(prefix[i] == batch[i]);
            }
            assert(batch[batch.len() - 1].user_data != k);
            assert(batch[batch.len() - 1].user_data < MAX_PENDING_TASKS);
        }
    }
}

/// A fresh reactor has no job pending and every id free, and hands ids out
/// from the top: 2047 first.
pub proof fn lemma_fresh_reactor_hands_out_from_top<W>()
    ensures
        ReactorState::<W>::initial().wf(),
        ReactorState::<W>::initial().free_job_ids.len() == MAX_PENDING_TASKS,
        ReactorState::<W>::initial().free_job_ids.last() == MAX_PENDING_TASKS - 1,
        forall|i: int| 0 <= i < MAX_PENDING_TASKS ==> {
            &&& #[trigger] ReactorState::<W>::initial().results[i] is None
            &&& ReactorState::<W>::initial().wakers[i] is None
            &&& ReactorState::<W>::initial().free_job_ids.contains(i as usize)
        },
{
    let s = ReactorState::<W>::initial();
    assert forall|i: int| 0 <= i < MAX_PENDING_TASKS implies {
        &&& #[trigger] s.results[i] is None
        &&& s.wakers[i] is None
        &&& s.free_job_ids.contains(i as usize)
    } by {
        assert(s.free_job_ids[i] == i as usize);
    }
}

proof fn lemma_deliverable_prefix<W>(s: ReactorState<W>, batch: Seq<Completion>)
    requires
        s.deliverable(batch),
        batch.len() > 0,
    ensures
        s.deliverable(batch.drop_last()),
{
    let prefix = batch.drop_last();
    assert forall|i: int| 0 <= i < prefix.len() implies #[trigger] prefix[i].user_data < MAX_PENDING_TASKS
        && s.wakers[prefix[i].user_data as int] is Some by {
        assert(prefix[i] == batch[i]);
    }
    assert forall|i: int, j: int| 0 <= i < j < prefix.len() implies
        #[trigger] prefix[i].user_data != #[trigger] prefix[j].user_data by {
        assert(prefix[i] == batch[i]);
        assert(prefix[j] == batch[j]);
    }
}

proof fn lemma_completed_all_keeps_lengths<W>(s: ReactorState<W>, batch: Seq<Completion>)
    requires
        s.wf(),
        s.deliverable(batch),
    ensures
        s.completed_all(batch).results.len() == s.results.len(),
        s.completed_all(batch).wakers.len() == s.wakers.len(),
        s.completed_all(batch).free_job_ids == s.free_job_ids,
    decreases batch.len(),
{
    if batch.len() > 0 {
        lemma_deliverable_prefix(s, batch);
        lemma_completed_all_keeps_lengths(s, batch.drop_last());
        assert(batch[batch.len() - 1].user_data < MAX_PENDING_TASKS);
    }
}

/// Whatever the reactor did before, the result read for a job after its
/// completion was delivered is the result that completion carried.
pub proof fn lemma_delivered_result_is_read_back<W>(s: ReactorState<W>, batch: Seq<Completion>, k: int)
    requires
        s.wf(),
        s.deliverable(batch),
        0 <= k < batch.len(),
    ensures
        s.completed_all(batch).results[batch[k].user_data as int] == Some(batch[k].res),
    decreases batch.len(),
{
    let last = batch.len() - 1;
    let prefix = batch.drop_last();
    lemma_deliverable_prefix(s, batch);
    lemma_completed_all_keeps_lengths(s, prefix);
    assert(batch[last].user_data < MAX_PENDING_TASKS);
    assert(batch[k].user_data < MAX_PENDING_TASKS);
    if k < last {
        assert(prefix[k] == batch[k]);
        lemma_delivered_result_is_read_back(s, prefix, k);
        assert(batch[k].user_data != batch[last].user_data);
    }
}

} // verus!
