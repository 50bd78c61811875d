use uring_exec::executor::{Executor, ExecutorError, RunAction, RunPhase, TaskHandle, MAX_CONCURRENT_TASKS};
use uring_exec::waker::TaskWaker;

#[test]
fn task_handle_round_trip() {
    let mut ex: Executor<u8> = Executor::new();
    let h: TaskHandle = ex.get_next_task_id().unwrap();
    assert_eq!(h.index(), 2047);
    assert_eq!(TaskWaker::new(h).task_handle().index(), 2047);
}

#[test]
fn waker_built_for_a_handle_wakes_that_task() {
    let mut ex: Executor<u8> = Executor::new();
    let a = ex.spawn_task(1).unwrap();
    let b = ex.spawn_task(2).unwrap();
    assert_eq!(ex.pop_ready().unwrap().index(), b.index());
    assert_eq!(ex.pop_ready().unwrap().index(), a.index());
    TaskWaker::new(a).wake(&mut ex);
    assert_eq!(ex.pop_ready().unwrap().index(), a.index());
    assert!(ex.pop_ready().is_none());
}

#[test]
fn new_executor_is_idle() {
    let mut ex: Executor<&str> = Executor::new();
    assert!(ex.all_tasks_done());
    assert!(ex.pop_ready().is_none());
}

#[test]
fn spawned_task_is_ready_and_finishes() {
    let mut ex: Executor<&str> = Executor::new();
    let h = ex.spawn_task("task").unwrap();
    assert_eq!(h.index(), 2047);
    assert!(!ex.all_tasks_done());
    let r = ex.pop_ready().unwrap();
    assert_eq!(r.index(), h.index());
    assert!(ex.has_future(r));
    assert_eq!(ex.task_waker(r).unwrap().task_handle().index(), h.index());
    let f = ex.take_future(r);
    assert_eq!(f, "task");
    assert!(!ex.has_future(r));
    ex.complete_poll(r, f, true);
    assert!(ex.all_tasks_done());
    assert!(ex.task_waker(r).is_none());
    assert!(ex.pop_ready().is_none());
    assert_eq!(ex.spawn_task("next").unwrap().index(), h.index());
}

#[test]
fn pending_task_is_woken_by_its_waker() {
    let mut ex: Executor<u8> = Executor::new();
    let h = ex.spawn_task(3).unwrap();
    let r = ex.pop_ready().unwrap();
    let f = ex.take_future(r);
    ex.complete_poll(r, f, false);
    assert!(ex.has_future(h));
    assert!(ex.pop_ready().is_none());
    let w = ex.task_waker(h).unwrap();
    w.wake(&mut ex);
    assert_eq!(ex.pop_ready().unwrap().index(), h.index());
    assert!(!ex.all_tasks_done());
}

#[test]
fn ready_queue_is_last_in_first_out() {
    let mut ex: Executor<u8> = Executor::new();
    let a = ex.spawn_task(1).unwrap();
    let b = ex.spawn_task(2).unwrap();
    assert_eq!(ex.pop_ready().unwrap().index(), b.index());
    assert_eq!(ex.pop_ready().unwrap().index(), a.index());
}

#[test]
fn too_many_tasks() {
    let mut ex: Executor<u8> = Executor::new();
    let mut seen = vec![false; MAX_CONCURRENT_TASKS];
    for k in 0..MAX_CONCURRENT_TASKS {
        let h = ex.spawn_task(0).unwrap();
        assert_eq!(h.index(), MAX_CONCURRENT_TASKS - 1 - k);
        assert!(!seen[h.index()]);
        seen[h.index()] = true;
    }
    assert!(matches!(ex.spawn_task(1), Err(ExecutorError::TooManyTasksInProgress)));
    assert!(matches!(ex.get_next_task_id(), Err(ExecutorError::TooManyTasksInProgress)));
}

#[test]
fn handles_are_never_shared_by_live_tasks() {
    let mut ex: Executor<u16> = Executor::new();
    let mut seen = Vec::new();
    for i in 0..100u16 {
        let h = ex.spawn_task(i).unwrap();
        assert!(!seen.contains(&h.index()));
        seen.push(h.index());
    }
}

#[test]
fn next_task_id_comes_from_the_top() {
    let mut ex: Executor<u8> = Executor::new();
    assert_eq!(ex.get_next_task_id().unwrap().index(), 2047);
    assert_eq!(ex.get_next_task_id().unwrap().index(), 2046);
    assert_eq!(ex.spawn_task(1).unwrap().index(), 2045);
}

#[test]
fn task_cycle_leaves_executor_as_before() {
    let mut ex: Executor<u8> = Executor::new();
    let h = ex.spawn_task(7).unwrap();
    let r = ex.pop_ready().unwrap();
    let f = ex.take_future(r);
    ex.complete_poll(r, f, true);
    assert!(ex.all_tasks_done());
    assert!(ex.pop_ready().is_none());
    assert!(ex.task_waker(h).is_none());
    assert!(!ex.has_future(h));
    assert_eq!(ex.get_next_task_id().unwrap().index(), 2047);
    assert_eq!(ex.get_next_task_id().unwrap().index(), 2046);
}

#[test]
fn task_handle_new_round_trips() {
    assert_eq!(TaskHandle::new(5).index(), 5);
    assert_eq!(TaskHandle::new(2047).index(), 2047);
}

#[test]
fn run_steps_follow_the_loop_order() {
    let mut ex: Executor<u8> = Executor::new();
    let h = ex.spawn_task(1).unwrap();
    let (a, p) = ex.run_step(RunPhase::Draining);
    let polled = match a {
        RunAction::Poll(t) => t,
        other => panic!("unexpected {:?}", other),
    };
    assert_eq!(polled.index(), h.index());
    assert!(matches!(p, RunPhase::Draining));
    let f = ex.take_future(polled);
    ex.complete_poll(polled, f, false);
    let (a, p) = ex.run_step(p);
    assert!(matches!(a, RunAction::Submit));
    assert!(matches!(p, RunPhase::Submitted));
    let (a, p) = ex.run_step(p);
    assert!(matches!(a, RunAction::GetCompletions));
    assert!(matches!(p, RunPhase::Draining));
    ex.task_waker(h).unwrap().wake(&mut ex);
    let (a, p) = ex.run_step(p);
    let polled = match a {
        RunAction::Poll(t) => t,
        other => panic!("unexpected {:?}", other),
    };
    assert_eq!(polled.index(), h.index());
    let f = ex.take_future(polled);
    ex.complete_poll(polled, f, true);
    let (a, p) = ex.run_step(p);
    assert!(matches!(a, RunAction::Submit));
    let (a, _) = ex.run_step(p);
    assert!(matches!(a, RunAction::Finish));
}

#[test]
fn after_all_tasks_finish_every_handle_is_free() {
    let mut ex: Executor<u8> = Executor::new();
    for i in 0..10u8 {
        ex.spawn_task(i).unwrap();
    }
    while let Some(h) = ex.pop_ready() {
        let f = ex.take_future(h);
        ex.complete_poll(h, f, true);
    }
    assert!(ex.all_tasks_done());
    let mut seen = vec![false; MAX_CONCURRENT_TASKS];
    for _ in 0..MAX_CONCURRENT_TASKS {
        let h = ex.get_next_task_id().unwrap();
        assert!(!seen[h.index()]);
        seen[h.index()] = true;
    }
    assert!(ex.get_next_task_id().is_err());
}
