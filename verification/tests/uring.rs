use std::sync::atomic::{AtomicUsize, Ordering};
use std::sync::Arc;
use std::task::{Wake, Waker};

use veloq_runtime::config::{Config, IoMode, UringConfig};
use veloq_runtime::error::{from_kernel, ErrorKind, IoError};
use veloq_runtime::io::buffer::fixed_buf::{FixedBuf, NO_REGISTRATION_INDEX};
use veloq_runtime::io::driver::platform::IntoPlatformOp;
use veloq_runtime::io::driver::uring::driver::{
    fixed_files, needs_enter, wake_outcome, RingSetup, UringDriver, WaitStep, EAGAIN, EBUSY, EINVAL,
};
use veloq_runtime::io::driver::uring::model::{BACKGROUND_USER_DATA, CANCEL_USER_DATA, ECANCELED};
use veloq_runtime::io::driver::uring::op::{UringOp, AT_FDCWD};
use veloq_runtime::io::driver::uring::queue::{Cqe, SqeEntry};
use veloq_runtime::io::local_op::LocalOp;
use veloq_runtime::io::op::{
    Accept, Close, Fsync, IoFd, Op, OpLifecycle, Open, RawHandle, ReadFixed, Recv, RecvFrom, Timeout, Timespan,
};
use veloq_runtime::io::remote_op::RemoteOpFuture;
use veloq_runtime::io::socket::sockaddr::{SocketAddr, SocketAddrV4};
use veloq_runtime::io::socket::unix;
use veloq_runtime::poll::Poll;

struct Count(AtomicUsize);

impl Wake for Count {
    fn wake(self: Arc<Self>) {
        self.0.fetch_add(1, Ordering::Relaxed);
    }
}

fn counter() -> (Arc<Count>, Waker) {
    let count = Arc::new(Count(AtomicUsize::new(0)));
    (count.clone(), Waker::from(count))
}

fn handle(raw: i64) -> RawHandle {
    RawHandle { raw }
}

fn driver(room: usize) -> UringDriver {
    match UringDriver::new(&Config::default(), 5, 0, room) {
        Ok(driver) => driver,
        Err(_) => panic!("no driver"),
    }
}

fn recv() -> Recv {
    Recv { fd: IoFd::Raw(handle(7)), buf: FixedBuf::new(4096, 512, NO_REGISTRATION_INDEX, 0) }
}

fn report(user_data: u64, result: i32) -> Cqe {
    Cqe { user_data, result, peer: None }
}

#[test]
fn test_timeout_sqe() {
    let timeout = Timeout { duration: Timespan { secs: 1, nanos: 0 } };
    let mut op: UringOp = timeout.into_platform_op();
    let _sqe = op.make_sqe();
    match &op {
        UringOp::Timeout(payload) => {
            assert_eq!(payload.ts[0], 1);
            assert_eq!(payload.ts[1], 0);
        }
        _ => panic!("another operation"),
    }
}

#[test]
fn a_new_driver_waits_to_be_woken() {
    let mut driver = driver(8);
    let staged = driver.take_staged();
    assert_eq!(staged.len(), 1);
    assert!(matches!(staged[0].entry, SqeEntry::ReadToken { fd, len: 8 } if fd == handle(5)));
}

#[test]
fn a_driver_without_its_waking_handle_is_refused() {
    match UringDriver::new(&Config::default(), -1, 24, 8) {
        Ok(_) => panic!("there is no handle"),
        Err(e) => {
            assert_eq!(e, IoError::Os(24));
            assert_eq!(e.kind(), ErrorKind::Os);
        }
    }
}

#[test]
fn an_operation_comes_back_with_its_result() {
    let mut driver = driver(8);
    driver.take_staged();
    let mut op = Op::new(recv()).submit_local();
    let mut woken = Vec::new();
    let (count, waker) = counter();
    assert!(matches!(op.poll(&mut driver, waker.clone(), &mut woken), Poll::Pending));
    let staged = driver.take_staged();
    assert_eq!(staged.len(), 1);
    assert!(matches!(staged[0].entry, SqeEntry::Recv { buf: 4096, len: 512, .. }));

    let cqe = report(staged[0].user_data, 12);
    let mut remote = Vec::new();
    driver.process_completions(&[cqe], &mut woken, &mut remote);
    assert!(remote.is_empty());
    assert_eq!(woken.len(), 1);
    for w in woken.drain(..) {
        w.wake();
    }
    assert_eq!(count.0.load(Ordering::Relaxed), 1);
    match op.poll(&mut driver, waker, &mut woken) {
        Poll::Ready((result, op)) => {
            assert_eq!(result, Ok(12));
            assert_eq!(op.buf.capacity(), 512);
        }
        Poll::Pending => panic!("the operation is done"),
    }
}

#[test]
fn a_report_on_nothing_is_passed_over() {
    let mut driver = driver(8);
    driver.take_staged();
    let mut woken = Vec::new();
    let mut remote = Vec::new();
    driver.process_completions(&[report(999, 1)], &mut woken, &mut remote);
    assert!(woken.is_empty() && remote.is_empty());
    assert!(driver.take_staged().is_empty());
}

#[test]
fn a_report_comes_before_its_operation() {
    let mut driver = driver(2);
    driver.take_staged();
    let key = driver.reserve_op();
    let mut woken = Vec::new();
    let mut remote = Vec::new();
    driver.process_completions(&[report(key as u64, -5)], &mut woken, &mut remote);
    let (_, waker) = counter();
    assert!(matches!(driver.poll_op(key, waker.clone(), &mut woken), Poll::Pending));
    driver.submit(key, recv().into_platform_op());
    match driver.poll_op(key, waker, &mut woken) {
        Poll::Ready((result, _)) => assert_eq!(result, Err(IoError::Os(5))),
        Poll::Pending => panic!("there is a result"),
    }
}

#[test]
fn a_report_finds_an_operation_in_line() {
    let mut driver = driver(1);
    driver.take_staged();
    let keys: Vec<usize> = (0..4).map(|_| driver.reserve_op()).collect();
    driver.attach_remote_completer(keys[2], 6);
    for key in &keys {
        assert!(matches!(driver.submit(*key, recv().into_platform_op()), Poll::Pending));
    }
    driver.cancel_op(keys[0]);
    let mut woken = Vec::new();
    let mut remote = Vec::new();
    let reports = [report(keys[0] as u64, 1), report(keys[1] as u64, 2), report(keys[2] as u64, 3)];
    driver.process_completions(&reports, &mut woken, &mut remote);
    assert_eq!(remote.len(), 1);
    assert_eq!((remote[0].completer, remote[0].result), (6, Ok(3)));
    driver.set_room(8);
    driver.submit_queue(&mut woken);
    let sent: Vec<u64> = driver.take_staged().iter().map(|s| s.user_data).collect();
    assert_eq!(sent, vec![keys[1] as u64, keys[3] as u64]);
    let (_, waker) = counter();
    match driver.poll_op(keys[1], waker, &mut woken) {
        Poll::Ready((result, _)) => assert_eq!(result, Ok(2)),
        Poll::Pending => panic!("there is a result"),
    }
}

#[test]
fn operations_wait_in_line_for_room() {
    let mut driver = driver(1);
    driver.take_staged();
    let mut keys = Vec::new();
    for _ in 0..3 {
        let key = driver.reserve_op();
        let submitted = driver.submit(key, recv().into_platform_op());
        assert!(matches!(submitted, Poll::Pending));
        keys.push(key as u64);
    }
    assert!(driver.has_backlog());
    driver.set_room(2);
    let mut woken = Vec::new();
    driver.submit_queue(&mut woken);
    let first: Vec<u64> = driver.take_staged().iter().map(|s| s.user_data).collect();
    assert_eq!(first, keys[..2]);
    driver.set_room(2);
    driver.submit_queue(&mut woken);
    let second: Vec<u64> = driver.take_staged().iter().map(|s| s.user_data).collect();
    assert_eq!(second, keys[2..]);
    assert!(!driver.has_backlog());
}

#[test]
fn an_abandoned_operation_is_cancelled() {
    let mut driver = driver(8);
    driver.take_staged();
    let mut op = LocalOp::new(recv());
    let mut woken = Vec::new();
    let (_, waker) = counter();
    op.poll(&mut driver, waker, &mut woken);
    let key = driver.take_staged()[0].user_data;
    op.abandon(&mut driver);
    let staged = driver.take_staged();
    assert_eq!(staged.len(), 1);
    assert_eq!(staged[0].user_data, CANCEL_USER_DATA);
    assert!(matches!(staged[0].entry, SqeEntry::AsyncCancel { target } if target == key));
    let mut remote = Vec::new();
    driver.process_completions(
        &[report(key, -ECANCELED), report(CANCEL_USER_DATA, 0)],
        &mut woken,
        &mut remote,
    );
    assert!(woken.is_empty());
    assert_eq!(driver.reserve_op() as u64, key);
}

#[test]
fn a_cancelled_operation_keeps_its_slot_until_the_kernel_reports() {
    let mut driver = driver(8);
    driver.take_staged();
    let key = driver.reserve_op();
    driver.submit(key, recv().into_platform_op());
    driver.cancel_op(key);
    assert_ne!(driver.reserve_op(), key);
    let mut woken = Vec::new();
    let mut remote = Vec::new();
    driver.process_completions(&[report(key as u64, -ECANCELED)], &mut woken, &mut remote);
    assert_eq!(driver.reserve_op(), key);
}

#[test]
fn a_cancelled_operation_in_line_never_reaches_the_kernel() {
    let mut driver = driver(1);
    driver.take_staged();
    let key = driver.reserve_op();
    driver.submit(key, recv().into_platform_op());
    driver.cancel_op(key);
    driver.set_room(4);
    let mut woken = Vec::new();
    driver.submit_queue(&mut woken);
    assert!(driver.take_staged().iter().all(|s| s.user_data != key as u64));
}

#[test]
fn a_remote_operation_answers_its_completer() {
    let mut driver = driver(8);
    driver.take_staged();
    let mut future: RemoteOpFuture<Recv> = RemoteOpFuture::new();
    assert!(matches!(future.poll(), Poll::Pending));
    let key = Op::new(recv()).submit_remote(&mut driver, 77);
    let mut woken = Vec::new();
    let mut remote = Vec::new();
    driver.process_completions(&[report(key as u64, -104)], &mut woken, &mut remote);
    assert_eq!(remote.len(), 1);
    let completion = remote.remove(0);
    assert_eq!(completion.completer, 77);
    future.complete(completion);
    match future.poll() {
        Poll::Ready((result, op)) => {
            assert_eq!(result, Err(IoError::Os(104)));
            assert_eq!(op.buf.offset, 4096);
        }
        Poll::Pending => panic!("the operation is done"),
    }
}

#[test]
fn background_work_is_only_to_close() {
    let mut driver = driver(3);
    driver.take_staged();
    let close = Close { fd: IoFd::Raw(handle(9)) };
    assert_eq!(driver.submit_background(close.into_platform_op()), Ok(()));
    assert_eq!(driver.take_staged()[0].user_data, BACKGROUND_USER_DATA);
    let sync = Fsync { fd: IoFd::Raw(handle(9)), datasync: true };
    let refused = driver.submit_background(sync.into_platform_op());
    assert_eq!(refused, Err(IoError::BackgroundOnlyClose));
    assert_eq!(IoError::BackgroundOnlyClose.kind(), ErrorKind::Unsupported);
    driver.set_room(0);
    let close = Close { fd: IoFd::Raw(handle(9)) };
    assert_eq!(driver.submit_background(close.into_platform_op()), Err(IoError::BackgroundQueueFull));
    assert_eq!(IoError::BackgroundQueueFull.kind(), ErrorKind::Other);
    assert_eq!(driver.notify_mesh(handle(31)), Err(IoError::SubmissionQueueFull));
    assert_eq!(IoError::SubmissionQueueFull.kind(), ErrorKind::Other);
}

#[test]
fn another_ring_is_notified() {
    let mut driver = driver(8);
    driver.take_staged();
    assert_eq!(driver.notify_mesh(handle(31)), Ok(()));
    let staged = driver.take_staged();
    assert!(matches!(staged[0].entry, SqeEntry::MsgRing { fd, .. } if fd == handle(31)));
}

#[test]
fn a_wake_up_is_answered_by_waiting_again() {
    let mut driver = driver(8);
    let token = driver.take_staged()[0].user_data;
    let mut woken = Vec::new();
    let mut remote = Vec::new();
    driver.process_completions(&[report(token, 8)], &mut woken, &mut remote);
    let staged = driver.take_staged();
    assert_eq!(staged.len(), 1);
    assert!(matches!(staged[0].entry, SqeEntry::ReadToken { .. }));
}

#[test]
fn a_driver_blocks_only_without_reports() {
    let mut driver = driver(8);
    let mut woken = Vec::new();
    assert_eq!(driver.before_wait(true, &mut woken), WaitStep::Process);
    assert_eq!(driver.before_wait(false, &mut woken), WaitStep::Block);
}

#[test]
fn buffers_are_registered_once() {
    let mut one = driver(8);
    assert_eq!(one.register_buffer_regions(2, Err(12)), Err(IoError::Os(12)));
    assert!(!one.buffers_registered());
    assert_eq!(one.register_buffer_regions(2, Ok(())), Ok(vec![0, 1]));
    assert!(one.buffers_registered());
    assert_eq!(one.register_buffer_regions(3, Err(12)), Ok(vec![0, 1, 2]));
    let mut two = driver(8);
    assert_eq!(two.register_buffer_regions(1, Err(EBUSY)), Ok(vec![0]));
}

#[test]
fn reads_name_registered_buffers() {
    let plain = ReadFixed {
        fd: IoFd::Fixed(2),
        buf: FixedBuf::new(8192, 4096, NO_REGISTRATION_INDEX, 0),
        offset: 100,
    };
    assert!(matches!(
        plain.make_sqe(),
        SqeEntry::Read { fd: IoFd::Fixed(2), buf: 8192, len: 4096, offset: 100 }
    ));
    let fixed = ReadFixed { fd: IoFd::Fixed(2), buf: FixedBuf::new(8192, 4096, 3, 0), offset: 100 };
    assert!(matches!(
        fixed.make_sqe(),
        SqeEntry::ReadFixed { fd: IoFd::Fixed(2), buf: 8192, len: 4096, buf_index: 3, offset: 100 }
    ));
}

#[test]
fn files_open_from_the_working_directory() {
    let open = Open { path: FixedBuf::new(4096, 64, NO_REGISTRATION_INDEX, 0), flags: 66, mode: 0o644 };
    let mut op: UringOp = open.into_platform_op();
    assert!(op.get_fd().is_none());
    assert!(!op.is_close());
    assert!(matches!(
        op.make_sqe(),
        SqeEntry::OpenAt { dir_fd: AT_FDCWD, path: 4096, flags: 66, mode: 0o644 }
    ));
}

#[test]
fn the_sender_of_a_datagram_is_told() {
    let from = SocketAddr::V4(SocketAddrV4 { ip: [127, 0, 0, 1], port: 8080 });
    let (storage, len) = unix::socket_addr_to_storage(from);
    let recv = RecvFrom {
        fd: IoFd::Raw(handle(7)),
        buf: FixedBuf::new(0, 128, NO_REGISTRATION_INDEX, 0),
        addr: None,
    };
    let mut op: UringOp = recv.into_platform_op();
    op.make_sqe();
    let cqe = Cqe { user_data: 0, result: 3, peer: Some((storage, len as u32)) };
    assert_eq!(op.on_complete(&cqe), Ok(3));
    let back: RecvFrom = IntoPlatformOp::from_platform_op(op);
    assert_eq!(back.addr, Some(from));
}

#[test]
fn an_accepted_connection_names_its_peer() {
    let from = SocketAddr::V4(SocketAddrV4 { ip: [10, 1, 2, 3], port: 99 });
    let (storage, len) = unix::socket_addr_to_storage(from);
    let accept: Accept = Accept::into_op(handle(4), ());
    let mut op: UringOp = accept.into_platform_op();
    op.make_sqe();
    let cqe = Cqe { user_data: 0, result: 21, peer: Some((storage, len as u32)) };
    let result = op.on_complete(&cqe);
    assert_eq!(result, Ok(21));
    let back: Accept = IntoPlatformOp::from_platform_op(op);
    let (fd, addr) = back.into_output(result).unwrap();
    assert_eq!(fd, handle(21));
    assert_eq!(addr, from);
    let failed: Accept = Accept::into_op(handle(4), ());
    assert_eq!(failed.into_output(Err(IoError::Os(11))), Err(IoError::Os(11)));
}

#[test]
fn a_ring_falls_back_to_a_basic_one() {
    let polling = UringConfig { mode: IoMode::Polling, entries: 256, sqpoll_idle_ms: 50 };
    let preferred = RingSetup::preferred(&polling);
    assert_eq!(preferred.sqpoll_idle_ms, Some(50));
    assert!(preferred.defer_taskrun);
    let basic = RingSetup::fallback(&polling, EINVAL).unwrap();
    assert_eq!(basic.entries, 256);
    assert!(!basic.single_issuer);
    assert_eq!(basic.sqpoll_idle_ms, None);
    assert_eq!(RingSetup::fallback(&polling, 1), Err(IoError::Os(1)));
}

#[test]
fn answers_of_the_kernel_are_read() {
    assert_eq!(from_kernel(5), Ok(5));
    assert_eq!(from_kernel(-9), Err(IoError::Os(9)));
    assert!(needs_enter(false, false));
    assert!(!needs_enter(true, false));
    assert!(needs_enter(true, true));
    assert_eq!(wake_outcome(8, 0), Ok(()));
    assert_eq!(wake_outcome(-1, EAGAIN), Ok(()));
    assert_eq!(wake_outcome(-1, 9), Err(IoError::Os(9)));
    assert_eq!(fixed_files(2), vec![IoFd::Fixed(0), IoFd::Fixed(1)]);
}

#[test]
fn numbers_are_the_systems() {
    assert_eq!(EBUSY, libc::EBUSY);
    assert_eq!(EAGAIN, libc::EAGAIN);
    assert_eq!(EINVAL, libc::EINVAL);
    assert_eq!(ECANCELED, libc::ECANCELED);
    assert_eq!(AT_FDCWD, libc::AT_FDCWD);
}
