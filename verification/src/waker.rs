//! The waker of a task: waking it puts the task back on the ready queue.
use vstd::prelude::*;
use crate::executor::{Executor, TaskHandle, MAX_CONCURRENT_TASKS};

verus! {

#[derive(Debug, Clone, Copy)]
pub struct TaskWaker {
    task_handle: TaskHandle,
}

impl View for TaskWaker {
    type V = usize;

    /// The index of the task this waker schedules.
    closed spec fn view(&self) -> usize {
        self.task_handle@
    }
}

impl TaskWaker {
    pub fn new(task_handle: TaskHandle) -> (w: Self)
        ensures
            w@ == task_handle@,
    {
        TaskWaker { task_handle }
    }

    pub fn task_handle(&self) -> (h: TaskHandle)
        ensures
            h@ == self@,
    {
        self.task_handle
    }

    /// Schedules the task on `ex`: pushes its handle onto the ready queue.
    pub fn wake<F>(&self, ex: &mut Executor<F>)
        requires
            old(ex)@.wf(),
        ensures
            final(ex)@.wf(),
            final(ex)@ == old(ex)@.woken(self@),
            old(ex)@.tight() ==> final(ex)@.tight(),
            old(ex)@.settled() ==> final(ex)@.settled(),
    {
        let index = self.task_handle.index();
        assert(index < MAX_CONCURRENT_TASKS);
        ex.push_ready(self.task_handle);
    }
}

} // verus!
