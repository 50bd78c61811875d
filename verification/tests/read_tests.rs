use uring_exec::futures::{IoPoll, ReadFuture};
use uring_exec::reactor::{ReactorError, ReactorJobHandle};
use uring_exec::read_future;
use uring_exec::uring::UringError;

#[test]
fn read_request_carries_fd_len_offset() {
    let f = ReadFuture::new(3, 4096, 100);
    let req = f.read_request();
    assert_eq!(req.fd, 3);
    assert_eq!(req.len, 100);
    assert_eq!(req.offset, 4096);
    assert_eq!(f.size(), 100);
    assert!(f.job_id().is_none());
}

#[test]
fn job_id_is_remembered() {
    let mut f = ReadFuture::new(3, 0, 10);
    f.set_job_id(ReactorJobHandle::new(12));
    assert_eq!(f.job_id().unwrap().index(), 12);
}

#[test]
fn bytes_read_cut_the_buffer() {
    let f = ReadFuture::new(3, 0, 5);
    let mut buf = vec![1, 2, 3, 4, 5];
    let out = f.process_result(&mut buf, 3).unwrap();
    assert_eq!(out, vec![1, 2, 3]);
    assert!(buf.is_empty());
    let mut buf = vec![1, 2, 3, 4, 5];
    let out = f.process_result(&mut buf, 0).unwrap();
    assert_eq!(out, Vec::<u8>::new());
    let mut buf = vec![1, 2];
    let out = f.process_result(&mut buf, 9).unwrap();
    assert_eq!(out, vec![1, 2]);
}

#[test]
fn negative_result_is_os_error() {
    let f = ReadFuture::new(3, 0, 5);
    let mut buf = vec![7; 5];
    match f.process_result(&mut buf, -9) {
        Err(ReactorError::UringError(UringError::IoError(e))) => {
            assert_eq!(e.raw_os_error(), 9);
            assert_eq!(e, rustix::io::Errno::BADF);
        }
        other => panic!("unexpected {:?}", other),
    }
    assert_eq!(buf, vec![7; 5]);
}

#[test]
fn first_read_future_reports_byte_count() {
    let f = read_future::ReadFuture::new(4, 0, 64);
    assert!(matches!(f.process_result(17), Ok(17)));
    match f.process_result(-2) {
        Err(UringError::IoError(e)) => assert_eq!(e, rustix::io::Errno::NOENT),
        other => panic!("unexpected {:?}", other),
    }
}

#[test]
fn poll_submits_once_then_collects() {
    let mut f = ReadFuture::new(3, 0, 10);
    assert!(matches!(f.poll_step(), IoPoll::Submit));
    f.set_job_id(ReactorJobHandle::new(4));
    match f.poll_step() {
        IoPoll::Collect(j) => assert_eq!(j.index(), 4),
        IoPoll::Submit => panic!("submitted twice"),
    }
}

#[test]
fn later_polls_never_submit_again() {
    let mut f = ReadFuture::new(3, 0, 10);
    let mut submits = 0;
    for round in 0..5usize {
        match f.poll_step() {
            IoPoll::Submit => {
                submits += 1;
                f.set_job_id(ReactorJobHandle::new(round));
            }
            IoPoll::Collect(j) => assert_eq!(j.index(), 0),
        }
    }
    assert_eq!(submits, 1);
}

#[test]
fn mapping_size_adds_offset_and_entries() {
    assert_eq!(uring_exec::uring::ring_mapping_size(64, 8, 4), 96);
    assert_eq!(uring_exec::uring::ring_mapping_size(0, 1024, 64), 65536);
    assert_eq!(uring_exec::uring::ring_mapping_size(320, 2048, 16), 33088);
}
