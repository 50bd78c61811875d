use uring_exec::reactor::{Completion, Reactor, ReactorError, ReactorJobHandle, MAX_PENDING_TASKS};
use uring_exec::uring::UringError;

#[test]
fn job_handle_round_trip() {
    let h = ReactorJobHandle::new(17);
    assert_eq!(h.index(), 17);
}

#[test]
fn job_ids_are_handed_out_from_the_top() {
    let mut r: Reactor<u32> = Reactor::new();
    assert_eq!(r.get_new_job_id().unwrap().index(), 2047);
    assert_eq!(r.get_new_job_id().unwrap().index(), 2046);
}

#[test]
fn job_ids_run_out() {
    let mut r: Reactor<u32> = Reactor::new();
    for _ in 0..MAX_PENDING_TASKS {
        r.get_new_job_id().unwrap();
    }
    assert!(matches!(r.get_new_job_id(), Err(ReactorError::NoPendingTaskSpace)));
}

#[test]
fn failed_queueing_passes_the_error_on() {
    let mut r: Reactor<u32> = Reactor::new();
    let job = r.get_new_job_id().unwrap();
    let out = r.enqueue_sqe(job, Err(UringError::QueueFull), 7);
    assert!(matches!(out, Err(ReactorError::UringError(UringError::QueueFull))));
    assert!(!r.is_free_job(job));
    assert!(!r.can_deliver(&vec![Completion { user_data: job.index() as u64, res: 0 }]));
}

#[test]
fn completion_result_is_read_back() {
    let mut r: Reactor<u32> = Reactor::new();
    let job = r.get_new_job_id().unwrap();
    assert!(!r.is_free_job(job));
    let job = r.enqueue_sqe(job, Ok(()), 99).unwrap();
    assert!(!r.has_result(job));
    let batch = vec![Completion { user_data: job.index() as u64, res: 42 }];
    assert!(r.can_deliver(&batch));
    let woken = r.get_completions(batch);
    assert_eq!(woken, vec![99]);
    assert!(r.has_result(job));
    assert_eq!(r.get_result(job), 42);
    assert!(!r.has_result(job));
    assert!(r.is_free_job(job));
    assert_eq!(r.get_new_job_id().unwrap().index(), job.index());
}

#[test]
fn batch_wakes_each_job_once_in_order() {
    let mut r: Reactor<u32> = Reactor::new();
    let a = r.get_new_job_id().unwrap();
    let a = r.enqueue_sqe(a, Ok(()), 1).unwrap();
    let b = r.get_new_job_id().unwrap();
    let b = r.enqueue_sqe(b, Ok(()), 2).unwrap();
    let batch = vec![
        Completion { user_data: b.index() as u64, res: -11 },
        Completion { user_data: a.index() as u64, res: 512 },
    ];
    assert_eq!(r.get_completions(batch), vec![2, 1]);
    assert_eq!(r.get_result(a), 512);
    assert_eq!(r.get_result(b), -11);
}

#[test]
fn undeliverable_batches_are_detected() {
    let mut r: Reactor<u32> = Reactor::new();
    let a = r.get_new_job_id().unwrap();
    let a = r.enqueue_sqe(a, Ok(()), 1).unwrap();
    let ud = a.index() as u64;
    assert!(!r.can_deliver(&vec![Completion { user_data: ud, res: 0 }, Completion { user_data: ud, res: 0 }]));
    assert!(!r.can_deliver(&vec![Completion { user_data: 5000, res: 0 }]));
    assert!(!r.can_deliver(&vec![Completion { user_data: 3, res: 0 }]));
    assert!(r.can_deliver(&vec![]));
}

#[test]
fn job_cycle_leaves_table_as_before() {
    let mut r: Reactor<u32> = Reactor::new();
    let job = r.get_new_job_id().unwrap();
    let job = r.enqueue_sqe(job, Ok(()), 5).unwrap();
    let woken = r.get_completions(vec![Completion { user_data: job.index() as u64, res: 8 }]);
    assert_eq!(woken, vec![5]);
    assert_eq!(r.get_result(job), 8);
    assert!(!r.has_result(job));
    assert!(r.is_free_job(job));
    assert_eq!(r.get_new_job_id().unwrap().index(), 2047);
    assert_eq!(r.get_new_job_id().unwrap().index(), 2046);
}
