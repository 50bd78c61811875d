//! The executor's task table: a slot per task holding its future and its
//! waker, the stack of free task handles, and the queue of tasks ready to be
//! polled. The futures themselves are opaque (`F`); polling them is done by
//! the caller between `take_future` and `complete_poll`.
use vstd::prelude::*;
use crate::reactor::ReactorError;
use crate::waker::TaskWaker;

verus! {

/// Number of tasks that can be alive at once.
pub const MAX_CONCURRENT_TASKS: usize = 2048;

/// Errors of the executor.
#[derive(Debug)]
pub enum ExecutorError {
    TooManyTasksInProgress,
    ReactorError(ReactorError),
    OptionError,
}

/// Identifies a task: the index of its slot.
#[derive(Debug, Clone, Copy)]
pub struct TaskHandle {
    index: usize,
}

impl View for TaskHandle {
    type V = usize;

    closed spec fn view(&self) -> usize {
        self.index
    }
}

impl TaskHandle {
    /// Every handle names a slot of the task table.
    #[verifier::type_invariant]
    spec fn inv(self) -> bool {
        self.index < MAX_CONCURRENT_TASKS
    }

    pub fn new(index: usize) -> (h: Self)
        requires
            index < MAX_CONCURRENT_TASKS,
        ensures
            h@ == index,
    {
        TaskHandle { index }
    }

    pub fn index(&self) -> (i: usize)
        ensures
            i == self@,
            i < MAX_CONCURRENT_TASKS,
    {
        proof {
            use_type_invariant(self);
        }
        self.index
    }
}

/// Where the run loop stands: draining the ready queue, or having just
/// submitted the queued I/O.
#[derive(Debug, Clone, Copy)]
pub enum RunPhase {
    Draining,
    Submitted,
}

/// What the run loop does next.
#[derive(Debug, Clone, Copy)]
pub enum RunAction {
    /// Poll the task (its handle has been taken off the ready queue).
    Poll(TaskHandle),
    /// Submit the queued I/O to the kernel (and wait for a completion).
    Submit,
    /// Read the completions and wake the tasks waiting on them.
    GetCompletions,
    /// Every task has finished: leave the loop.
    Finish,
}

/// The abstract state of an executor. `wakers[i]` is the index of the task
/// that the waker stored for slot `i` schedules.
#[verifier::ext_equal]
pub struct ExecutorState<F> {
    pub futures: Seq<Option<F>>,
    pub wakers: Seq<Option<usize>>,
    pub free_handles: Seq<usize>,
    pub ready_tasks: Seq<usize>,
}

impl<F> ExecutorState<F> {
    /// Free handles are distinct, in range, and their slots are empty;
    /// queued handles are in range; a slot's waker schedules that slot.
    pub open spec fn wf(self) -> bool {
        &&& self.futures.len() == MAX_CONCURRENT_TASKS
        &&& self.wakers.len() == MAX_CONCURRENT_TASKS
        &&& forall|k: int|
            0 <= k < self.free_handles.len() ==> {
                &&& #[trigger] self.free_handles[k] < MAX_CONCURRENT_TASKS
                &&& self.futures[self.free_handles[k] as int] is None
                &&& self.wakers[self.free_handles[k] as int] is None
            }
        &&& forall|a: int, b: int|
            0 <= a < b < self.free_handles.len() ==> self.free_handles[a] != self.free_handles[b]
        &&& forall|k: int| 0 <= k < self.ready_tasks.len() ==> #[trigger] self.ready_tasks[k] < MAX_CONCURRENT_TASKS
        &&& forall|i: int|
            0 <= i < MAX_CONCURRENT_TASKS ==> (#[trigger] self.wakers[i] matches Some(w) ==> w == i)
    }

    /// Every slot is either free (its handle on the free stack) or taken by
    /// a task, which has a waker there.
    pub open spec fn tight(self) -> bool {
        forall|i: int|
            0 <= i < MAX_CONCURRENT_TASKS ==> (#[trigger] self.wakers[i] is None <==> self.free_handles.contains(
                i as usize,
            ))
    }

    /// Every slot other than `h` holds a future exactly when it holds a
    /// waker (`h` is the slot whose future may be out being polled).
    pub open spec fn settled_except(self, h: int) -> bool {
        forall|i: int|
            0 <= i < MAX_CONCURRENT_TASKS && i != h ==> (#[trigger] self.futures[i] is Some <==> self.wakers[i] is Some)
    }

    /// No future is out of its slot: a slot holds a future exactly when it
    /// holds a waker.
    pub open spec fn settled(self) -> bool {
        self.settled_except(-1)
    }

    /// A fresh executor: no task, every handle free, `0` at the bottom.
    pub open spec fn initial() -> Self {
        ExecutorState {
            futures: Seq::new(MAX_CONCURRENT_TASKS as nat, |i: int| None),
            wakers: Seq::new(MAX_CONCURRENT_TASKS as nat, |i: int| None),
            free_handles: Seq::new(MAX_CONCURRENT_TASKS as nat, |i: int| i as usize),
            ready_tasks: Seq::empty(),
        }
    }

    /// The state after the last free handle has been handed out.
    pub open spec fn handle_taken(self) -> Self {
        ExecutorState { free_handles: self.free_handles.drop_last(), ..self }
    }

    /// The state after `future` has been spawned on the handle `h` (the last
    /// free one): the slot holds the future and a waker for `h`, and `h` is
    /// queued as ready.
    pub open spec fn spawned(self, h: usize, future: F) -> Self {
        ExecutorState {
            futures: self.futures.update(h as int, Some(future)),
            wakers: self.wakers.update(h as int, Some(h)),
            free_handles: self.free_handles.drop_last(),
            ready_tasks: self.ready_tasks.push(h),
        }
    }

    /// The state after `k` handles have been handed out one by one.
    pub open spec fn handles_taken(self, k: nat) -> Self
        decreases k,
    {
        if k == 0 {
            self
        } else {
            self.handles_taken((k - 1) as nat).handle_taken()
        }
    }

    /// The state after the last ready handle has been taken off the queue.
    pub open spec fn ready_popped(self) -> Self {
        ExecutorState { ready_tasks: self.ready_tasks.drop_last(), ..self }
    }

    /// The state after `h` has been queued as ready.
    pub open spec fn woken(self, h: usize) -> Self {
        ExecutorState { ready_tasks: self.ready_tasks.push(h), ..self }
    }

    /// The state while the future of `h` is out of its slot to be polled.
    pub open spec fn future_taken(self, h: usize) -> Self {
        ExecutorState { futures: self.futures.update(h as int, None), ..self }
    }

    /// The state after the task `h` finished: its slot is emptied and its
    /// handle is free again, on top of the stack.
    pub open spec fn finished(self, h: usize) -> Self {
        ExecutorState {
            futures: self.futures.update(h as int, None),
            wakers: self.wakers.update(h as int, None),
            free_handles: self.free_handles.push(h),
            ..self
        }
    }

    /// The state after a pending future has been put back into slot `h`.
    pub open spec fn restored(self, h: usize, future: F) -> Self {
        ExecutorState { futures: self.futures.update(h as int, Some(future)), ..self }
    }

    /// No slot holds a future.
    pub open spec fn all_done(self) -> bool {
        forall|i: int| 0 <= i < self.futures.len() ==> #[trigger] self.futures[i] is None
    }
}

pub open spec fn waker_index(w: Option<TaskWaker>) -> Option<usize> {
    match w {
        Some(w) => Some(w@),
        None => None,
    }
}

pub struct Executor<F> {
    futures: Vec<Option<F>>,
    wakers: Vec<Option<TaskWaker>>,
    free_handles: Vec<TaskHandle>,
    ready_tasks: Vec<TaskHandle>,
}

impl<F> View for Executor<F> {
    type V = ExecutorState<F>;

    closed spec fn view(&self) -> ExecutorState<F> {
        ExecutorState {
            futures: self.futures@,
            wakers: self.wakers@.map_values(|w: Option<TaskWaker>| waker_index(w)),
            free_handles: self.free_handles@.map_values(|h: TaskHandle| h@),
            ready_tasks: self.ready_tasks@.map_values(|h: TaskHandle| h@),
        }
    }
}

impl<F> Executor<F> {
    /// An executor with no task and every handle free.
    pub fn new() -> (r: Self)
        ensures
            r@ == ExecutorState::<F>::initial(),
            r@.wf(),
            r@.tight(),
            r@.settled(),
    {
        let n: usize = MAX_CONCURRENT_TASKS;
        let mut futures: Vec<Option<F>> = Vec::new();
        let mut wakers: Vec<Option<TaskWaker>> = Vec::new();
        let mut free_handles: Vec<TaskHandle> = Vec::new();
        let mut i: usize = 0;
        while i < n
            invariant
                n == MAX_CONCURRENT_TASKS,
                i <= n,
                futures@ == Seq::new(i as nat, |k: int| None::<F>),
                wakers@ == Seq::new(i as nat, |k: int| None::<TaskWaker>),
                free_handles@.len() == i,
                forall|k: int| 0 <= k < i ==> (#[trigger] free_handles@[k])@ == k,
            decreases n - i,
        {
            futures.push(None);
            wakers.push(None);
            free_handles.push(TaskHandle::new(i));
            i = i + 1;
            assert(futures@ =~= Seq::new(i as nat, |k: int| None::<F>));
            assert(wakers@ =~= Seq::new(i as nat, |k: int| None::<TaskWaker>));
        }
        let r = Executor { futures, wakers, free_handles, ready_tasks: Vec::new() };
        assert(r@.free_handles =~= Seq::new(MAX_CONCURRENT_TASKS as nat, |k: int| k as usize));
        assert(r@.wakers =~= Seq::new(MAX_CONCURRENT_TASKS as nat, |k: int| None::<usize>));
        assert(r@.ready_tasks =~= Seq::<usize>::empty());
        assert(r@ =~= ExecutorState::<F>::initial());
        proof {
            lemma_initial_slots_accounted::<F>();
        }
        r
    }

    /// Hands out the most recently freed task handle.
    pub fn get_next_task_id(&mut self) -> (r: Result<TaskHandle, ExecutorError>)
        requires
            old(self)@.wf(),
        ensures
            final(self)@.wf(),
            old(self)@.free_handles.len() == 0 ==> {
                &&& r matches Err(ExecutorError::TooManyTasksInProgress)
                &&& final(self)@ == old(self)@
            },
            old(self)@.free_handles.len() > 0 ==> {
                &&& r matches Ok(h) && h@ == old(self)@.free_handles.last()
                &&& final(self)@ == old(self)@.handle_taken()
            },
    {
        let ghost pre = self@;
        match self.free_handles.pop() {
            Some(h) => {
                assert(self@ =~= pre.handle_taken());
                Ok(h)
            },
            None => Err(ExecutorError::TooManyTasksInProgress),
        }
    }

    /// Puts `future` into a free slot with a waker for it, and queues it as
    /// ready; `TooManyTasksInProgress` when no handle is free.
    pub fn spawn_task(&mut self, future: F) -> (r: Result<TaskHandle, ExecutorError>)
        requires
            old(self)@.wf(),
        ensures
            final(self)@.wf(),
            old(self)@.free_handles.len() == 0 ==> {
                &&& r matches Err(ExecutorError::TooManyTasksInProgress)
                &&& final(self)@ == old(self)@
            },
            old(self)@.free_handles.len() > 0 ==> {
                &&& r matches Ok(h) && h@ == old(self)@.free_handles.last()
                &&& final(self)@ == old(self)@.spawned(old(self)@.free_handles.last(), future)
            },
            r matches Ok(h) ==> {
                &&& final(self)@.ready_tasks == old(self)@.ready_tasks.push(h@)
                &&& final(self)@.free_handles.push(h@) == old(self)@.free_handles
                &&& final(self)@.futures == old(self)@.futures.update(h@ as int, Some(future))
                &&& final(self)@.wakers == old(self)@.wakers.update(h@ as int, Some(h@))
            },
            old(self)@.tight() ==> final(self)@.tight(),
            old(self)@.settled() ==> final(self)@.settled(),
    {
        let ghost pre = self@;
        let task_handle = match self.get_next_task_id() {
            Ok(h) => h,
            Err(e) => {
                return Err(e);
            },
        };
        let index = task_handle.index();
        let ghost mid = self@;
        let waker = TaskWaker::new(task_handle);
        proof {
            assert(pre.free_handles.contains(pre.free_handles.last()));
        }
        self.futures.set(index, Some(future));
        self.wakers.set(index, Some(waker));
        self.ready_tasks.push(task_handle);
        assert(self@.wakers =~= mid.wakers.update(index as int, Some(index)));
        assert(self@.ready_tasks =~= mid.ready_tasks.push(index));
        assert(self@ =~= pre.spawned(index, future));
        proof {
            lemma_spawn_keeps_slots_accounted(pre, future);
        }
        proof {
            let last = pre.free_handles.len() - 1;
            assert forall|k: int| 0 <= k < self@.free_handles.len() implies
                #[trigger] self@.free_handles[k] != index by {
                assert(self@.free_handles[k] == pre.free_handles[k]);
                assert(pre.free_handles[last] == index);
            }
        }
        Ok(task_handle)
    }

    /// Takes the most recently queued ready task off the queue.
    pub fn pop_ready(&mut self) -> (r: Option<TaskHandle>)
        requires
            old(self)@.wf(),
        ensures
            final(self)@.wf(),
            old(self)@.ready_tasks.len() == 0 ==> r is None && final(self)@ == old(self)@,
            old(self)@.ready_tasks.len() > 0 ==> {
                &&& r matches Some(h) && h@ == old(self)@.ready_tasks.last()
                &&& final(self)@ == old(self)@.ready_popped()
            },
            r matches Some(h) ==> h@ < MAX_CONCURRENT_TASKS,
            old(self)@.tight() ==> final(self)@.tight(),
            old(self)@.settled() ==> final(self)@.settled(),
    {
        let ghost pre = self@;
        let r = self.ready_tasks.pop();
        assert(self@ =~= pre.ready_popped() || r is None);
        proof {
            if r is Some {
                assert(pre.ready_tasks[pre.ready_tasks.len() - 1] < MAX_CONCURRENT_TASKS);
            }
        }
        r
    }

    /// One step of the run loop. While draining, the most recently queued
    /// ready task is taken off the queue to be polled; once the queue is
    /// empty the queued I/O is submitted. After a submission the loop ends
    /// when no task is left, and otherwise collects completions and drains
    /// again.
    pub fn run_step(&mut self, phase: RunPhase) -> (r: (RunAction, RunPhase))
        requires
            old(self)@.wf(),
        ensures
            final(self)@.wf(),
            phase is Draining && old(self)@.ready_tasks.len() > 0 ==> {
                &&& r.0 matches RunAction::Poll(h) && h@ == old(self)@.ready_tasks.last()
                &&& r.1 is Draining
                &&& final(self)@ == old(self)@.ready_popped()
            },
            phase is Draining && old(self)@.ready_tasks.len() == 0 ==> {
                &&& r.0 is Submit
                &&& r.1 is Submitted
                &&& final(self)@ == old(self)@
            },
            phase is Submitted && old(self)@.all_done() ==> {
                &&& r.0 is Finish
                &&& r.1 is Draining
                &&& final(self)@ == old(self)@
            },
            phase is Submitted && !old(self)@.all_done() ==> {
                &&& r.0 is GetCompletions
                &&& r.1 is Draining
                &&& final(self)@ == old(self)@
            },
    {
        match phase {
            RunPhase::Draining => match self.pop_ready() {
                Some(h) => (RunAction::Poll(h), RunPhase::Draining),
                None => (RunAction::Submit, RunPhase::Submitted),
            },
            RunPhase::Submitted => {
                if self.all_tasks_done() {
                    (RunAction::Finish, RunPhase::Draining)
                } else {
                    (RunAction::GetCompletions, RunPhase::Draining)
                }
            },
        }
    }

    /// Queues `h` as ready.
    pub(crate) fn push_ready(&mut self, h: TaskHandle)
        requires
            old(self)@.wf(),
            h@ < MAX_CONCURRENT_TASKS,
        ensures
            final(self)@.wf(),
            final(self)@ == old(self)@.woken(h@),
            old(self)@.tight() ==> final(self)@.tight(),
            old(self)@.settled() ==> final(self)@.settled(),
    {
        let ghost pre = self@;
        self.ready_tasks.push(h);
        assert(self@ =~= pre.woken(h@));
    }

    /// Whether slot `h` holds a future.
    pub fn has_future(&self, h: TaskHandle) -> (b: bool)
        requires
            self@.wf(),
        ensures
            b == (h@ < MAX_CONCURRENT_TASKS && self@.futures[h@ as int] is Some),
    {
        h.index < MAX_CONCURRENT_TASKS && self.futures[h.index].is_some()
    }

    /// The waker stored for slot `h`.
    pub fn task_waker(&self, h: TaskHandle) -> (w: Option<TaskWaker>)
        requires
            self@.wf(),
            h@ < MAX_CONCURRENT_TASKS,
        ensures
            waker_index(w) == self@.wakers[h@ as int],
    {
        self.wakers[h.index]
    }

    /// Takes the future of slot `h` out to be polled.
    pub fn take_future(&mut self, h: TaskHandle) -> (f: F)
        requires
            old(self)@.wf(),
            h@ < MAX_CONCURRENT_TASKS,
            old(self)@.futures[h@ as int] is Some,
        ensures
            f == old(self)@.futures[h@ as int]->Some_0,
            final(self)@ == old(self)@.future_taken(h@),
            final(self)@.wf(),
            old(self)@.tight() ==> final(self)@.tight(),
            old(self)@.settled() ==> final(self)@.settled_except(h@ as int),
    {
        let ghost pre = self@;
        let mut slot: Option<F> = None;
        self.futures.set_and_swap(h.index, &mut slot);
        assert(self@ =~= pre.future_taken(h@));
        slot.unwrap()
    }

    /// Records the outcome of polling the task `h`, whose future was taken
    /// out: when it finished (`done`), its slot is emptied and its handle
    /// freed; otherwise the future goes back into its slot.
    pub fn complete_poll(&mut self, h: TaskHandle, future: F, done: bool)
        requires
            old(self)@.wf(),
            h@ < MAX_CONCURRENT_TASKS,
            old(self)@.futures[h@ as int] is None,
            old(self)@.wakers[h@ as int] is Some,
        ensures
            final(self)@.wf(),
            done ==> final(self)@ == old(self)@.finished(h@),
            !done ==> final(self)@ == old(self)@.restored(h@, future),
            final(self)@.ready_tasks == old(self)@.ready_tasks,
            done ==> {
                &&& final(self)@.free_handles == old(self)@.free_handles.push(h@)
                &&& final(self)@.futures == old(self)@.futures
                &&& final(self)@.wakers == old(self)@.wakers.update(h@ as int, None)
            },
            !done ==> {
                &&& final(self)@.free_handles == old(self)@.free_handles
                &&& final(self)@.futures == old(self)@.futures.update(h@ as int, Some(future))
                &&& final(self)@.wakers == old(self)@.wakers
            },
            old(self)@.tight() ==> final(self)@.tight(),
            old(self)@.settled_except(h@ as int) ==> final(self)@.settled(),
    {
        proof {
            lemma_poll_outcome_keeps_slots_accounted(self@, h@, future);
        }
        let ghost pre = self@;
        let i = h.index;
        if done {
            self.futures.set(i, None);
            self.wakers.set(i, None);
            proof {
                assert forall|k: int| 0 <= k < pre.free_handles.len() implies
                    #[trigger] pre.free_handles[k] != i by {
                }
            }
            self.free_handles.push(h);
            assert(self@.wakers =~= pre.wakers.update(i as int, None));
            assert(self@ =~= pre.finished(h@));
        } else {
            self.futures.set(i, Some(future));
            assert(self@ =~= pre.restored(h@, future));
        }
    }

    /// Whether every task has finished: no slot holds a future.
    pub fn all_tasks_done(&self) -> (b: bool)
        requires
            self@.wf(),
        ensures
            b == self@.all_done(),
            !b <==> exists|i: int| 0 <= i < MAX_CONCURRENT_TASKS && (#[trigger] self@.futures[i]) is Some,
    {
        let mut i: usize = 0;
        while i < self.futures.len()
            invariant
                self@.wf(),
                i <= self.futures@.len(),
                forall|k: int| 0 <= k < i ==> #[trigger] self.futures@[k] is None,
            decreases self.futures@.len() - i,
        {
            if self.futures[i].is_some() {
                assert(self@.futures[i as int] is Some);
                return false;
            }
            i = i + 1;
        }
        assert(forall|k: int| 0 <= k < MAX_CONCURRENT_TASKS ==> #[trigger] self@.futures[k] is None);
        true
    }
}

/// The handle that the executor hands out next belongs to no live task, and
/// once handed out it is no longer free: two live tasks never share a slot.
pub proof fn lemma_next_handle_is_unused<F>(s: ExecutorState<F>)
    requires
        s.wf(),
        s.free_handles.len() > 0,
    ensures
        s.futures[s.free_handles.last() as int] is None,
        s.wakers[s.free_handles.last() as int] is None,
        !s.handle_taken().free_handles.contains(s.free_handles.last()),
        s.handle_taken().wf(),
{
    let last = s.free_handles.len() - 1;
    assert(0 <= last < s.free_handles.len());
    if s.handle_taken().free_handles.contains(s.free_handles.last()) {
        let k = choose|k: int| 0 <= k < s.handle_taken().free_handles.len()
            && s.handle_taken().free_handles[k] == s.free_handles.last();
        assert(s.free_handles[k] == s.free_handles[last]);
    }
}

/// The waker stored for a spawned task schedules that very task.
pub proof fn lemma_spawned_waker_schedules_its_task<F>(s: ExecutorState<F>, future: F)
    requires
        s.wf(),
        s.free_handles.len() > 0,
    ensures
        s.spawned(s.free_handles.last(), future).wakers[s.free_handles.last() as int]
            == Some(s.free_handles.last()),
        s.spawned(s.free_handles.last(), future).futures[s.free_handles.last() as int] == Some(future),
{
    let last = s.free_handles.len() - 1;
    assert(s.free_handles[last] < MAX_CONCURRENT_TASKS);
}

/// A finished task's handle is the one handed out next.
pub proof fn lemma_finished_handle_is_reused_first<F>(s: ExecutorState<F>, h: usize)
    ensures
        s.finished(h).free_handles.last() == h,
        s.finished(h).handle_taken().free_handles == s.free_handles,
{
    assert(s.finished(h).handle_taken().free_handles =~= s.free_handles);
}

/// A task that is spawned, polled once and finishes leaves the executor
/// exactly as it was before.
pub proof fn lemma_task_cycle_restores_executor<F>(s: ExecutorState<F>, future: F)
    requires
        s.wf(),
        s.free_handles.len() > 0,
    ensures
        ({
            let h = s.free_handles.last();
            s.spawned(h, future).ready_popped().future_taken(h).finished(h) == s
        }),
{
    let h = s.free_handles.last();
    let last = s.free_handles.len() - 1;
    assert(s.free_handles[last] == h);
    let t = s.spawned(h, future).ready_popped().future_taken(h).finished(h);
    assert(t.ready_tasks =~= s.ready_tasks);
    assert(t.free_handles =~= s.free_handles);
    assert(t.futures =~= s.futures);
    assert(t.wakers =~= s.wakers);
}

/// From a fresh executor, handles are handed out from the top: after `k`
/// of them (by `spawn_task` or `get_next_task_id`, which take the free stack
/// the same way) the free stack is `0..2048 - k`, so the next one is
/// `2047 - k`. The first 2048 are therefore pairwise distinct, and after
/// them no handle is left: the next spawn fails with
/// `TooManyTasksInProgress`.
pub proof fn lemma_fresh_executor_hands_out_each_handle_once<F>(k: nat)
    requires
        k <= MAX_CONCURRENT_TASKS,
    ensures
        ExecutorState::<F>::initial().handles_taken(k).free_handles
            == Seq::new((MAX_CONCURRENT_TASKS - k) as nat, |i: int| i as usize),
        ExecutorState::<F>::initial().handles_taken(k).wf(),
        k < MAX_CONCURRENT_TASKS ==> ExecutorState::<F>::initial().handles_taken(k).free_handles.last()
            == MAX_CONCURRENT_TASKS - 1 - k,
        k == MAX_CONCURRENT_TASKS ==> ExecutorState::<F>::initial().handles_taken(k).free_handles.len() == 0,
        forall|f: F, s: ExecutorState<F>| #![trigger s.spawned(s.free_handles.last(), f)]
            s.spawned(s.free_handles.last(), f).free_handles == s.handle_taken().free_handles,
    decreases k,
{
    let s0 = ExecutorState::<F>::initial();
    if k == 0 {
        assert(s0.free_handles =~= Seq::new(MAX_CONCURRENT_TASKS as nat, |i: int| i as usize));
        assert(s0.wakers =~= Seq::new(MAX_CONCURRENT_TASKS as nat, |i: int| None::<usize>));
    } else {
        lemma_fresh_executor_hands_out_each_handle_once::<F>((k - 1) as nat);
        let p = s0.handles_taken((k - 1) as nat);
        lemma_next_handle_is_unused(p);
        assert(s0.handles_taken(k).free_handles =~= Seq::new((MAX_CONCURRENT_TASKS - k) as nat, |i: int| i as usize));
    }
}

/// Once a task has finished, its slot holds neither future nor waker and its
/// handle is free, so it cannot be polled again (`take_future` needs a future
/// in the slot) until its handle is handed out to a new task.
pub proof fn lemma_finished_task_is_not_polled_again<F>(s: ExecutorState<F>, h: usize)
    requires
        s.wf(),
        h < MAX_CONCURRENT_TASKS,
        s.futures[h as int] is None,
        s.wakers[h as int] is Some,
    ensures
        s.finished(h).wf(),
        s.finished(h).futures[h as int] is None,
        s.finished(h).wakers[h as int] is None,
        s.finished(h).free_handles.contains(h),
{
    let t = s.finished(h);
    assert(t.free_handles[t.free_handles.len() - 1] == h);
    assert forall|k: int| 0 <= k < s.free_handles.len() implies #[trigger] s.free_handles[k] != h by {
    }
}

/// A fresh executor accounts for every slot: each is free, and no future is
/// out of its slot.
pub proof fn lemma_initial_slots_accounted<F>()
    ensures
        ExecutorState::<F>::initial().tight(),
        ExecutorState::<F>::initial().settled(),
{
    let s = ExecutorState::<F>::initial();
    assert forall|i: int| 0 <= i < MAX_CONCURRENT_TASKS implies (#[trigger] s.wakers[i] is None
        <==> s.free_handles.contains(i as usize)) by {
        assert(s.free_handles[i] == i as usize);
    }
}

/// Spawning keeps every slot accounted for: the spawned task's slot is taken
/// (it has a waker and its handle left the free stack), the others are as
/// they were.
pub proof fn lemma_spawn_keeps_slots_accounted<F>(s: ExecutorState<F>, future: F)
    requires
        s.wf(),
        s.free_handles.len() > 0,
    ensures
        s.tight() ==> s.spawned(s.free_handles.last(), future).tight(),
        s.settled() ==> s.spawned(s.free_handles.last(), future).settled(),
{
    let h = s.free_handles.last();
    let last = s.free_handles.len() - 1;
    let t = s.spawned(h, future);
    assert(s.free_handles[last] == h);
    assert(h < MAX_CONCURRENT_TASKS);
    if s.tight() {
        assert forall|i: int| 0 <= i < MAX_CONCURRENT_TASKS implies (#[trigger] t.wakers[i] is None
            <==> t.free_handles.contains(i as usize)) by {
            if i == h {
                if t.free_handles.contains(h) {
                    let k = choose|k: int| 0 <= k < t.free_handles.len() && t.free_handles[k] == h;
                    assert(s.free_handles[k] == s.free_handles[last]);
                }
            } else {
                if s.free_handles.contains(i as usize) {
                    let k = choose|k: int| 0 <= k < s.free_handles.len() && s.free_handles[k] == i as usize;
                    assert(k != last);
                    assert(t.free_handles[k] == i as usize);
                }
                if t.free_handles.contains(i as usize) {
                    let k = choose|k: int| 0 <= k < t.free_handles.len() && t.free_handles[k] == i as usize;
                    assert(s.free_handles[k] == i as usize);
                }
            }
        }
    }
}

/// Taking a future out to poll it, and recording the poll's outcome, keep
/// every slot accounted for; once the outcome is recorded no future is out
/// of its slot any more.
pub proof fn lemma_poll_outcome_keeps_slots_accounted<F>(s: ExecutorState<F>, h: usize, future: F)
    requires
        s.wf(),
        h < MAX_CONCURRENT_TASKS,
    ensures
        s.tight() ==> s.future_taken(h).tight(),
        s.settled() ==> s.future_taken(h).settled_except(h as int),
        s.futures[h as int] is None && s.wakers[h as int] is Some ==> {
            &&& s.tight() ==> s.finished(h).tight() && s.restored(h, future).tight()
            &&& s.settled_except(h as int) ==> s.finished(h).settled() && s.restored(h, future).settled()
        },
{
    if s.futures[h as int] is None && s.wakers[h as int] is Some && s.tight() {
        let t = s.finished(h);
        assert forall|i: int| 0 <= i < MAX_CONCURRENT_TASKS implies (#[trigger] t.wakers[i] is None
            <==> t.free_handles.contains(i as usize)) by {
            if i == h {
                assert(t.free_handles[t.free_handles.len() - 1] == h);
            } else {
                if s.free_handles.contains(i as usize) {
                    let k = choose|k: int| 0 <= k < s.free_handles.len() && s.free_handles[k] == i as usize;
                    assert(t.free_handles[k] == i as usize);
                }
                if t.free_handles.contains(i as usize) {
                    let k = choose|k: int| 0 <= k < t.free_handles.len() && t.free_handles[k] == i as usize;
                    assert(k < s.free_handles.len());
                    assert(s.free_handles[k] == i as usize);
                }
            }
        }
    }
}

/// When no future is out of its slot and every slot is empty, every handle
/// is free again: the executor is back to holding all 2048 handles, as when
/// it was made.
pub proof fn lemma_all_done_frees_every_handle<F>(s: ExecutorState<F>)
    requires
        s.wf(),
        s.tight(),
        s.settled(),
        s.all_done(),
    ensures
        forall|i: int| 0 <= i < MAX_CONCURRENT_TASKS ==> s.free_handles.contains(#[trigger] (i as usize)),
{
    assert forall|i: int| 0 <= i < MAX_CONCURRENT_TASKS implies s.free_handles.contains(#[trigger] (i as usize)) by {
        assert(s.futures[i] is None);
        assert(s.wakers[i] is None);
    }
}

/// A woken task is the one the run loop polls next: its handle is on top
/// of the ready queue, and taking it off gives back the queue as it was.
pub proof fn lemma_woken_task_is_polled_next<F>(s: ExecutorState<F>, h: usize)
    ensures
        s.woken(h).ready_tasks.last() == h,
        s.woken(h).ready_popped() == s,
{
    assert(s.woken(h).ready_popped().ready_tasks =~= s.ready_tasks);
    assert(s.woken(h).ready_popped() =~= s);
}

/// Spawning queues exactly the handle it hands out, on top of the ready
/// queue, and fills exactly that slot: the future goes there with a waker
/// for that same handle, and every other slot, queued task and free handle
/// stays as it was.
pub proof fn lemma_spawn_queues_its_own_handle<F>(s: ExecutorState<F>, future: F)
    requires
        s.wf(),
        s.free_handles.len() > 0,
    ensures
        ({
            let h = s.free_handles.last();
            let t = s.spawned(h, future);
            &&& t.ready_tasks.len() == s.ready_tasks.len() + 1
            &&& t.ready_tasks.last() == h
            &&& t.ready_tasks.drop_last() == s.ready_tasks
            &&& t.free_handles.push(h) == s.free_handles
            &&& t.futures[h as int] == Some(future)
            &&& t.wakers[h as int] == Some(h)
            &&& forall|i: int| 0 <= i < MAX_CONCURRENT_TASKS && i != h ==> {
                &&& #[trigger] t.futures[i] == s.futures[i]
                &&& t.wakers[i] == s.wakers[i]
            }
            &&& t.futures.len() == s.futures.len()
            &&& t.wakers.len() == s.wakers.len()
        }),
{
    let h = s.free_handles.last();
    let t = s.spawned(h, future);
    assert(s.free_handles[s.free_handles.len() - 1] < MAX_CONCURRENT_TASKS);
    assert(t.ready_tasks.drop_last() =~= s.ready_tasks);
    assert(t.free_handles.push(h) =~= s.free_handles);
}

/// Recording a poll's outcome never touches the ready queue. A pending task
/// only gets its future back into its own slot; a finished task's slot is
/// emptied of future and waker and its handle goes on top of the free stack.
/// Every other slot stays as it was.
pub proof fn lemma_poll_outcome_leaves_queue_alone<F>(s: ExecutorState<F>, h: usize, future: F)
    requires
        s.wf(),
        h < MAX_CONCURRENT_TASKS,
    ensures
        s.restored(h, future).ready_tasks == s.ready_tasks,
        s.restored(h, future).free_handles == s.free_handles,
        s.restored(h, future).wakers == s.wakers,
        s.restored(h, future).futures[h as int] == Some(future),
        s.finished(h).ready_tasks == s.ready_tasks,
        s.finished(h).free_handles.last() == h,
        s.finished(h).free_handles.drop_last() == s.free_handles,
        s.finished(h).futures[h as int] is None,
        s.finished(h).wakers[h as int] is None,
        forall|i: int| 0 <= i < MAX_CONCURRENT_TASKS && i != h ==> {
            &&& #[trigger] s.restored(h, future).futures[i] == s.futures[i]
            &&& s.finished(h).futures[i] == s.futures[i]
            &&& s.finished(h).wakers[i] == s.wakers[i]
        },
{
    assert(s.finished(h).free_handles.drop_last() =~= s.free_handles);
}

/// Taking a task off the ready queue, or taking its future out to poll it,
/// changes nothing else: popping removes exactly the top handle, and taking
/// a future empties exactly that slot.
pub proof fn lemma_pop_and_take_change_nothing_else<F>(s: ExecutorState<F>, h: usize)
    requires
        s.wf(),
        h < MAX_CONCURRENT_TASKS,
    ensures
        s.ready_tasks.len() > 0 ==> s.ready_popped().ready_tasks.push(s.ready_tasks.last()) == s.ready_tasks,
        s.ready_popped().futures == s.futures,
        s.ready_popped().wakers == s.wakers,
        s.ready_popped().free_handles == s.free_handles,
        s.future_taken(h).futures[h as int] is None,
        forall|i: int| 0 <= i < MAX_CONCURRENT_TASKS && i != h ==> #[trigger] s.future_taken(h).futures[i] == s.futures[i],
        s.future_taken(h).wakers == s.wakers,
        s.future_taken(h).ready_tasks == s.ready_tasks,
        s.future_taken(h).free_handles == s.free_handles,
{
    if s.ready_tasks.len() > 0 {
        assert(s.ready_popped().ready_tasks.push(s.ready_tasks.last()) =~= s.ready_tasks);
    }
}

} // verus!
