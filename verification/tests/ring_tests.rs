use uring_exec::ring::Ring;
use uring_exec::uring::UringError;

#[test]
fn new_ring_is_empty() {
    let r = Ring::new(8);
    assert_eq!(r.head(), 0);
    assert_eq!(r.tail(), 0);
    assert_eq!(r.size(), 8);
    assert_eq!(r.mask(), 7);
    assert_eq!(r.cq_ready(), 0);
    assert_eq!(r.sq_space_left(), 8);
}

#[test]
fn enqueue_fills_slots_in_order_then_reports_full() {
    let mut r = Ring::new(4);
    for expected in 0..4u32 {
        assert_eq!(r.enqueue_sqe().unwrap(), expected);
    }
    assert_eq!(r.cq_ready(), 4);
    assert_eq!(r.sq_space_left(), 0);
    assert!(matches!(r.enqueue_sqe(), Err(UringError::QueueFull)));
    assert_eq!(r.tail(), 4);
    assert_eq!(r.head(), 0);
}

#[test]
fn batch_returns_pending_slots_and_empties_ring() {
    let mut r = Ring::from_counters(2, 5, 4, 3).unwrap();
    assert_eq!(r.cq_ready(), 3);
    assert_eq!(r.get_cqe_batch(), vec![2, 3, 0]);
    assert_eq!(r.head(), 5);
    assert_eq!(r.cq_ready(), 0);
    assert_eq!(r.get_cqe_batch(), Vec::<u32>::new());
}

#[test]
fn counters_wrap_around_u32() {
    let mut r = Ring::from_counters(u32::MAX - 1, u32::MAX - 1, 4, 3).unwrap();
    assert_eq!(r.enqueue_sqe().unwrap(), 2);
    assert_eq!(r.enqueue_sqe().unwrap(), 3);
    assert_eq!(r.enqueue_sqe().unwrap(), 0);
    assert_eq!(r.tail(), 1);
    assert_eq!(r.cq_ready(), 3);
    assert_eq!(r.sq_space_left(), 1);
    assert_eq!(r.get_cqe_batch(), vec![2, 3, 0]);
    assert_eq!(r.head(), 1);
}

#[test]
fn enqueued_slot_comes_out_last() {
    let mut r = Ring::from_counters(10, 12, 8, 7).unwrap();
    let slot = r.enqueue_sqe().unwrap();
    assert_eq!(slot, 4);
    let batch = r.get_cqe_batch();
    assert_eq!(batch, vec![2, 3, 4]);
    assert_eq!(*batch.last().unwrap(), slot);
}

#[test]
fn full_window_slots_are_distinct() {
    let mut r = Ring::from_counters(u32::MAX - 3, u32::MAX - 3, 8, 7).unwrap();
    for _ in 0..8 {
        r.enqueue_sqe().unwrap();
    }
    let mut batch = r.get_cqe_batch();
    assert_eq!(batch.len(), 8);
    batch.sort();
    assert_eq!(batch, vec![0, 1, 2, 3, 4, 5, 6, 7]);
}

#[test]
fn from_counters_rejects_bad_counters() {
    assert!(Ring::from_counters(0, 0, 0, 0).is_none());
    assert!(Ring::from_counters(0, 0, 8, 3).is_none());
    assert!(Ring::from_counters(0, 9, 8, 7).is_none());
    assert!(Ring::from_counters(5, 4, 8, 7).is_none());
    assert!(Ring::from_counters(0, 8, 8, 7).is_some());
}

#[test]
fn enqueue_counters_and_fill_until_full() {
    let mut r = Ring::from_counters(u32::MAX - 1, 1, 4, 3).unwrap();
    assert_eq!(r.cq_ready(), 3);
    let slot = r.enqueue_sqe().unwrap();
    assert_eq!(slot, 1);
    assert_eq!(r.tail(), 2);
    assert_eq!(r.head(), u32::MAX - 1);
    assert!(matches!(r.enqueue_sqe(), Err(UringError::QueueFull)));
    assert_eq!(r.tail(), 2);
    assert_eq!(r.size(), 4);
    assert_eq!(r.mask(), 3);

    let mut r = Ring::new(4);
    for k in 0..4u32 {
        r.enqueue_sqe().unwrap();
        assert_eq!(r.tail(), k + 1);
        assert_eq!(r.head(), 0);
    }
    assert!(matches!(r.enqueue_sqe(), Err(UringError::QueueFull)));
    assert_eq!(r.tail(), 4);
}

#[test]
fn tail_wraps_to_zero() {
    let mut r = Ring::from_counters(u32::MAX, u32::MAX, 8, 7).unwrap();
    assert_eq!(r.enqueue_sqe().unwrap(), u32::MAX & 7);
    assert_eq!(r.tail(), 0);
    assert_eq!(r.get_cqe_batch(), vec![7]);
    assert_eq!(r.head(), 0);
}

#[test]
fn empty_batch_leaves_counters() {
    let mut r = Ring::from_counters(17, 17, 8, 7).unwrap();
    assert_eq!(r.get_cqe_batch(), Vec::<u32>::new());
    assert_eq!(r.head(), 17);
    assert_eq!(r.tail(), 17);
}

#[test]
fn mask_slot_is_counter_mod_size() {
    for counter in [0u32, 5, 8, 13, 1000, u32::MAX] {
        let mut r = Ring::from_counters(counter, counter, 8, 7).unwrap();
        assert_eq!(r.enqueue_sqe().unwrap(), counter % 8);
    }
}
