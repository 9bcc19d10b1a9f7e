use std::sync::Arc;
use std::task::{Wake, Waker};

use veloq_runtime::config::Config;
use veloq_runtime::error::{ErrorKind, IoError};
use veloq_runtime::io::buffer::fixed_buf::{FixedBuf, NO_REGISTRATION_INDEX};
use veloq_runtime::io::driver::iocp::blocking::{
    BlockingTask, CompletionInfo, Dispatch, TaskStep, ThreadPool, ThreadPoolError, WinCall, WinReply,
    WorkerEvent, WorkerStep, INVALID_HANDLE_VALUE, OPEN_ATTRIBUTES,
};
use veloq_runtime::io::driver::iocp::driver::{IocpDriver, PortReport, SubmitAction};
use veloq_runtime::io::driver::iocp::op::{
    Accept, AcceptPayload, IocpOp, IocpOpPayload, OverlappedEntry, WsaBuf, ACCEPT_BUFFER_LEN,
};
use veloq_runtime::io::driver::iocp::submit::{
    call_outcome, resolve_fd, IoCall, Submission, SubmissionResult, ERROR_IO_PENDING,
};
use veloq_runtime::io::driver::platform::IntoPlatformOp;
use veloq_runtime::io::local_op::State;
use veloq_runtime::io::op::{
    Connect, Fsync, IoFd, OpLifecycle, RawHandle, ReadFixed, RecvFrom, Timeout, Timespan,
};
use veloq_runtime::io::port_op::PortOp;
use veloq_runtime::io::socket::sockaddr::{SockAddrStorage, SocketAddr, SocketAddrV4, SocketAddrV6};
use veloq_runtime::io::socket::windows;
use veloq_runtime::poll::Poll;

struct Silent;

impl Wake for Silent {
    fn wake(self: Arc<Self>) {}
}

fn waker() -> Waker {
    Waker::from(Arc::new(Silent))
}

fn handle(raw: i64) -> RawHandle {
    RawHandle { raw }
}

fn driver() -> IocpDriver {
    match IocpDriver::new(&Config::default(), 100, 0) {
        Ok(driver) => driver,
        Err(_) => panic!("no driver"),
    }
}

fn info() -> CompletionInfo {
    CompletionInfo { port: 1, user_data: 2, overlapped: 3 }
}

fn pool(core: usize, max: usize, line: usize) -> ThreadPool {
    ThreadPool::new(core, max, line, Timespan { secs: 30, nanos: 0 })
}

fn report(user_data: usize, bytes: usize, error: u32) -> PortReport {
    PortReport { user_data, bytes, error, told: 0, told_error: 0, remote: None }
}

fn fsync_task() -> BlockingTask {
    BlockingTask::Fsync { handle: 8, completion: info() }
}

#[test]
fn test_driver_creation() {
    let driver: Result<IocpDriver, IoError> = IocpDriver::new(&Config::default(), 100, 0);
    assert!(driver.is_ok(), "Driver should be created");
}

#[test]
fn a_driver_without_a_port_is_refused() {
    match IocpDriver::new(&Config::default(), 0, 8) {
        Ok(_) => panic!("there is no port"),
        Err(e) => assert_eq!(e, IoError::Os(8)),
    }
}

#[test]
fn a_timeout_starts_a_timer() {
    let mut driver = driver();
    assert!(driver.has_room());
    let (key, _) = driver.reserve_op();
    let op = Timeout { duration: Timespan { secs: 0, nanos: 100_000_000 } };
    let mut threads = pool(1, 2, 4);
    let mut woken = Vec::new();
    let mut detached = Vec::new();
    match driver.submit(key, op.into_platform_op(), 0, Vec::new()) {
        Some(Ok(Submission::Other(result))) => {
            let action = driver.submitted(key, Ok(result), &mut threads, &mut woken, &mut detached);
            assert_eq!(action, SubmitAction::StartTimer(Timespan { secs: 0, nanos: 100_000_000 }));
        }
        _ => panic!("a timeout makes no call"),
    }
    assert!(matches!(driver.poll_op(key, waker()), Poll::Pending));
}

#[test]
fn a_read_that_fails_at_once_wakes_its_waiter() {
    let mut driver = driver();
    let (key, _) = driver.reserve_op();
    let op = ReadFixed {
        fd: IoFd::Raw(handle(6)),
        buf: FixedBuf::new(4096, 512, NO_REGISTRATION_INDEX, 0),
        offset: 0x1_0000_0002,
    };
    let call = match driver.submit(key, op.into_platform_op(), 0, Vec::new()) {
        Some(Ok(Submission::Call(call))) => call,
        _ => panic!("a read makes a call"),
    };
    assert!(matches!(call, IoCall::ReadFile { buf: 4096, len: 512, .. }));
    assert_eq!(driver.file_offset(key), Some((2, 1)));
    assert_eq!(driver.file_offset(key + 1), None);
    assert!(matches!(driver.poll_op(key, waker()), Poll::Pending));
    let result = call_outcome(&call, 0, 6);
    let mut woken = Vec::new();
    let mut detached = Vec::new();
    let action = driver.submitted(key, result, &mut pool(1, 2, 4), &mut woken, &mut detached);
    assert_eq!(action, SubmitAction::Nothing);
    assert_eq!(woken.len(), 1);
    match driver.poll_op(key, waker()) {
        Poll::Ready((result, op)) => {
            assert_eq!(result, Err(IoError::Os(6)));
            assert_eq!(op.header.offset, 2);
            assert_eq!(op.header.offset_high, 1);
        }
        Poll::Pending => panic!("the read failed"),
    }
}

#[test]
fn a_detached_operation_leaves_the_driver() {
    let mut driver = driver();
    let (key, _) = driver.reserve_op();
    driver.attach_detached_completer(key, 55);
    let op = Fsync { fd: IoFd::Fixed(3), datasync: false };
    let result = match driver.submit(key, op.into_platform_op(), 0, Vec::new()) {
        Some(Err(e)) => e,
        _ => panic!("nothing is registered"),
    };
    assert_eq!(result, IoError::NotRegistered);
    assert_eq!(result.kind(), ErrorKind::InvalidInput);
    let mut woken = Vec::new();
    let mut detached = Vec::new();
    driver.submitted(key, Err(result), &mut pool(1, 2, 4), &mut woken, &mut detached);
    assert_eq!(detached.len(), 1);
    assert_eq!(detached[0].completer, 55);
    assert_eq!(detached[0].result, Err(IoError::NotRegistered));
}

#[test]
fn a_full_pool_is_a_result_at_once() {
    let mut driver = driver();
    let (key, _) = driver.reserve_op();
    let op = Fsync { fd: IoFd::Raw(handle(3)), datasync: false };
    let result = match driver.submit(key, op.into_platform_op(), 0, Vec::new()) {
        Some(Ok(Submission::Other(result))) => result,
        _ => panic!("a sync goes to a thread"),
    };
    assert!(matches!(result, SubmissionResult::Offload(_)));
    let mut threads = pool(0, 0, 0);
    let mut woken = Vec::new();
    let mut detached = Vec::new();
    driver.submitted(key, Ok(result), &mut threads, &mut woken, &mut detached);
    match driver.poll_op(key, waker()) {
        Poll::Ready((result, _)) => assert_eq!(result, Err(IoError::Overloaded)),
        Poll::Pending => panic!("nobody will run it"),
    }
}

#[test]
fn background_work_has_a_slot() {
    let mut driver = driver();
    let op = Fsync { fd: IoFd::Raw(handle(3)), datasync: false };
    let (key, setup) = driver.submit_background(op.into_platform_op(), 0, Vec::new());
    let result = match setup {
        Ok(Submission::Other(result)) => result,
        _ => panic!("a sync goes to a thread"),
    };
    let mut threads = pool(1, 2, 4);
    let done = driver.background_submitted(key, Ok(result), &mut threads);
    assert_eq!(done, Ok(SubmitAction::Dispatch(Dispatch::Spawn)));
    assert_eq!(threads.queue.len(), 1);
}

#[test]
fn an_unknown_slot_takes_nothing() {
    let mut driver = driver();
    let op = Fsync { fd: IoFd::Raw(handle(3)), datasync: false };
    assert!(driver.submit(5, op.into_platform_op(), 0, Vec::new()).is_none());
    driver.blocking_done(5, Ok(1));
    let mut woken = Vec::new();
    let mut detached = Vec::new();
    driver.complete(&report(5, 1, 0), &mut woken, &mut detached);
    assert!(woken.is_empty() && detached.is_empty());
}

#[test]
fn an_operation_may_be_done_at_once() {
    let mut driver = driver();
    let mut op = PortOp::new(Fsync { fd: IoFd::Fixed(3), datasync: false });
    let (how, _) = op.start(&mut driver, 0, Vec::new());
    let error = match how {
        Err(e) => e,
        Ok(_) => panic!("nothing is registered"),
    };
    let mut woken = Vec::new();
    let mut detached = Vec::new();
    let mut threads = pool(1, 2, 4);
    let (action, polled) =
        op.started(&mut driver, Err(error), &mut threads, waker(), &mut woken, &mut detached);
    assert_eq!(action, SubmitAction::Nothing);
    match polled {
        Poll::Ready((result, op)) => {
            assert_eq!(result, Err(IoError::NotRegistered));
            assert_eq!(op.fd, IoFd::Fixed(3));
        }
        Poll::Pending => panic!("the submission failed"),
    }
    assert_eq!(op.state, State::Completed);
}

#[test]
fn an_operation_is_done_when_the_port_reports_it() {
    let mut driver = driver();
    let mut op = PortOp::new(Fsync { fd: IoFd::Raw(handle(3)), datasync: false });
    let (how, _) = op.start(&mut driver, 0, Vec::new());
    let result = match how {
        Ok(Submission::Other(result)) => result,
        _ => panic!("a sync goes to a thread"),
    };
    let mut woken = Vec::new();
    let mut detached = Vec::new();
    let mut threads = pool(1, 2, 4);
    let (action, polled) =
        op.started(&mut driver, Ok(result), &mut threads, waker(), &mut woken, &mut detached);
    assert_eq!(action, SubmitAction::Dispatch(Dispatch::Spawn));
    assert_eq!(threads.active_workers, 1);
    assert!(matches!(polled, Poll::Pending));
    driver.blocking_done(op.user_data, Err(IoError::Os(5)));
    driver.complete(&report(op.user_data, 0, 0), &mut woken, &mut detached);
    assert_eq!(woken.len(), 1);
    match op.poll(&mut driver, waker()) {
        Poll::Ready((result, _)) => assert_eq!(result, Err(IoError::Os(5))),
        Poll::Pending => panic!("the port reported it"),
    }
}

#[test]
fn a_datagram_names_its_sender_here_too() {
    let from = SocketAddr::V4(SocketAddrV4 { ip: [10, 0, 0, 9], port: 4242 });
    let (name, len) = windows::socket_addr_to_storage(from);
    let mut driver = driver();
    let buf = FixedBuf::new(0, 64, NO_REGISTRATION_INDEX, 0);
    let mut op = PortOp::new(RecvFrom::new(handle(3), buf));
    op.start(&mut driver, 0, Vec::new());
    let mut woken = Vec::new();
    let mut detached = Vec::new();
    let report = PortReport { remote: Some((name, len)), ..report(op.user_data, 9, 0) };
    driver.complete(&report, &mut woken, &mut detached);
    match op.poll(&mut driver, waker()) {
        Poll::Ready((result, op)) => {
            assert_eq!(result, Ok(9));
            assert_eq!(op.addr, Some(from));
        }
        Poll::Pending => panic!("the port reported it"),
    }
}

#[test]
fn a_datagram_buffer_is_set_once_the_handle_is_known() {
    let buf = FixedBuf::new(512, 64, NO_REGISTRATION_INDEX, 0);
    let mut recv = RecvFrom::new(handle(3), buf);
    recv.fd = IoFd::Fixed(0);
    let mut op: IocpOp = recv.into_platform_op();
    let before = WsaBuf { len: 1, buf: 2 };
    if let IocpOpPayload::RecvFrom(p) = &mut op.payload {
        p.wsabuf = before;
    }
    let set = |op: &IocpOp| match &op.payload {
        IocpOpPayload::RecvFrom(p) => p.wsabuf,
        _ => panic!("another operation"),
    };
    assert!(op.submit(&[], info(), Vec::new()).is_err());
    assert_eq!(set(&op), before);
    assert!(op.submit(&[Some(handle(3))], info(), Vec::new()).is_ok());
    assert_eq!(set(&op), WsaBuf { len: 64, buf: 512 });
}

#[test]
fn errors_have_their_words() {
    assert_eq!(IoError::Os(5).message(), None);
    assert_eq!(IoError::InvalidSocket.message(), Some("Invalid socket fd"));
    assert_eq!(IoError::InvalidListenSocket.message(), Some("Invalid listen socket fd"));
    assert_eq!(IoError::SubmissionQueueFull.message(), Some("SQ full"));
    assert_eq!(IoError::BackgroundQueueFull.message(), Some("sq full"));
    assert_eq!(IoError::NotRegistered.message(), Some("Invalid registered file descriptor"));
    let op: Accept = Accept::into_op(handle(4), handle(5));
    let mut payload = AcceptPayload { op, accept_buffer_len: ACCEPT_BUFFER_LEN };
    payload.op.fd = IoFd::Fixed(1);
    assert_eq!(payload.on_complete(0, 0, 0, None), Err(IoError::InvalidListenSocket));
}

#[test]
fn reports_find_those_who_wait() {
    let mut driver = driver();
    let mut woken = Vec::new();
    let mut detached = Vec::new();
    let (key, _) = driver.reserve_op();
    driver.attach_detached_completer(key, 8);
    let op = Timeout { duration: Timespan { secs: 1, nanos: 0 } };
    driver.submit(key, op.into_platform_op(), 0, Vec::new());
    driver.complete(&report(key, 0, 64), &mut woken, &mut detached);
    assert_eq!(detached.len(), 1);
    assert_eq!((detached[0].completer, detached[0].result), (8, Err(IoError::Os(64))));
    let op = Fsync { fd: IoFd::Raw(handle(3)), datasync: false };
    let (key, _) = driver.submit_background(op.into_platform_op(), 0, Vec::new());
    driver.complete(&report(key, 0, 0), &mut woken, &mut detached);
    assert!(woken.is_empty());
    assert_eq!(driver.reserve_op().0, key);
}

#[test]
fn calls_under_way_are_no_errors() {
    let call = IoCall::ReadFile { handle: handle(1), buf: 0, len: 1 };
    assert!(matches!(call_outcome(&call, 0, ERROR_IO_PENDING), Ok(SubmissionResult::Pending)));
    assert!(matches!(call_outcome(&call, 1, 0), Ok(SubmissionResult::Pending)));
    assert!(matches!(call_outcome(&call, 0, 5), Err(IoError::Os(5))));
}

#[test]
fn registered_handles_are_looked_up() {
    let files = [Some(handle(4)), None];
    assert_eq!(resolve_fd(IoFd::Raw(handle(9)), &files), Ok(handle(9)));
    assert_eq!(resolve_fd(IoFd::Fixed(0), &files), Ok(handle(4)));
    assert_eq!(resolve_fd(IoFd::Fixed(1), &files), Err(IoError::NotRegistered));
    assert_eq!(resolve_fd(IoFd::Fixed(2), &files), Err(IoError::NotRegistered));
}

#[test]
fn a_socket_is_bound_before_it_connects() {
    let peer = SocketAddr::V6(SocketAddrV6 { ip: [1; 16], port: 80, flowinfo: 0, scope_id: 0 });
    let (addr, len) = windows::socket_addr_to_storage(peer);
    let connect = Connect { fd: IoFd::Raw(handle(4)), addr, addr_len: len as u32 };
    let wildcard = connect.bind_address(None).unwrap();
    assert_eq!(wildcard.len(), 28);
    assert_eq!(&wildcard[..4], &[23, 0, 0, 0]);
    let unbound = SockAddrStorage::zeroed();
    assert!(connect.bind_address(Some(&unbound)).is_some());
    let own = SocketAddr::V4(SocketAddrV4 { ip: [0; 4], port: 5 });
    let (bound, _) = windows::socket_addr_to_storage(own);
    assert!(connect.bind_address(Some(&bound)).is_none());
    assert_eq!(connect.on_complete(0, 0, 0), Ok(0));
    assert_eq!(connect.on_complete(0, -1, 10057), Err(IoError::Os(10057)));
    let fixed = Connect { fd: IoFd::Fixed(1), addr, addr_len: len as u32 };
    assert_eq!(fixed.on_complete(0, 0, 0), Err(IoError::InvalidSocket));
}

#[test]
fn an_accepted_connection_names_its_peer_here_too() {
    let from = SocketAddr::V4(SocketAddrV4 { ip: [10, 0, 0, 9], port: 4242 });
    let (name, len) = windows::socket_addr_to_storage(from);
    let op: Accept = Accept::into_op(handle(4), handle(5));
    let mut payload = AcceptPayload { op, accept_buffer_len: ACCEPT_BUFFER_LEN };
    assert_eq!(payload.on_complete(0, 0, 0, Some((name, len))), Ok(0));
    assert_eq!(payload.op.remote_addr, Some(from));
    let (fd, addr) = payload.op.into_output(Ok(0)).unwrap();
    assert_eq!(fd, handle(5));
    assert_eq!(addr, from);
}

#[test]
fn an_accept_buffer_may_be_too_small() {
    let op: Accept = Accept::into_op(handle(4), handle(5));
    let mut op: IocpOp = op.into_platform_op();
    match op.submit(&[], info(), Vec::new()) {
        Ok(Submission::Call(IoCall::AcceptEx { split, .. })) => assert_eq!(split, 144),
        _ => panic!("an accept makes a call"),
    }
    let op: Accept = Accept::into_op(handle(4), handle(5));
    let payload = IocpOpPayload::Accept(AcceptPayload { op, accept_buffer_len: ACCEPT_BUFFER_LEN - 1 });
    let mut op = IocpOp { header: OverlappedEntry::new(0), payload };
    assert!(matches!(op.submit(&[], info(), Vec::new()), Err(IoError::AcceptBufferTooSmall)));
    assert_eq!(IoError::AcceptBufferTooSmall.kind(), ErrorKind::InvalidInput);
}

#[test]
fn opening_a_file_gives_its_handle() {
    let task = BlockingTask::Open { path: vec![65, 0], flags: -1073741824, mode: 4, completion: info() };
    match task.run(&[]) {
        TaskStep::Call(call) => assert_eq!(
            call,
            WinCall::CreateFile {
                access: 0xc000_0000,
                share: 0,
                disposition: 4,
                attributes: OPEN_ATTRIBUTES,
            }
        ),
        TaskStep::Done(..) => panic!("nothing was called"),
    }
    match task.run(&[WinReply { value: 44, error: 0 }]) {
        TaskStep::Done(to, result) => {
            assert_eq!(to, info());
            assert_eq!(result, Ok(44));
        }
        TaskStep::Call(_) => panic!("the file is open"),
    }
    match task.run(&[WinReply { value: INVALID_HANDLE_VALUE, error: 2 }]) {
        TaskStep::Done(_, result) => assert_eq!(result, Err(IoError::Os(2))),
        TaskStep::Call(_) => panic!("the file is not there"),
    }
}

#[test]
fn space_is_reserved_before_a_file_grows() {
    let task = BlockingTask::Fallocate { handle: 9, mode: 0, offset: 100, len: 50, completion: info() };
    let yes = WinReply { value: 1, error: 0 };
    assert!(matches!(
        task.run(&[]),
        TaskStep::Call(WinCall::SetAllocationSize { handle: 9, size: 150 })
    ));
    assert!(matches!(task.run(&[yes]), TaskStep::Call(WinCall::SetEndOfFile { handle: 9, size: 150 })));
    assert!(matches!(task.run(&[yes, yes]), TaskStep::Done(_, Ok(0))));
    let no = WinReply { value: 0, error: 112 };
    assert!(matches!(task.run(&[no]), TaskStep::Done(_, Err(IoError::Os(112)))));
    let keep = BlockingTask::Fallocate { handle: 9, mode: 1, offset: 100, len: 50, completion: info() };
    assert!(matches!(keep.run(&[yes]), TaskStep::Done(_, Ok(0))));
}

#[test]
fn threads_come_and_go() {
    let mut threads = pool(1, 2, 1);
    assert_eq!(threads.execute(fsync_task()), Ok(Dispatch::Spawn));
    assert_eq!(threads.execute(fsync_task()), Ok(Dispatch::Spawn));
    assert!(matches!(threads.worker_loop(WorkerEvent::Free), WorkerStep::Run(_)));
    assert!(matches!(threads.worker_loop(WorkerEvent::Free), WorkerStep::Run(_)));
    assert_eq!(threads.execute(fsync_task()), Ok(Dispatch::Notify));
    assert_eq!(threads.execute(fsync_task()), Err(ThreadPoolError::Overloaded));
    assert!(matches!(threads.worker_loop(WorkerEvent::Free), WorkerStep::Run(_)));
    assert!(matches!(threads.worker_loop(WorkerEvent::Free), WorkerStep::Wait));
    assert_eq!(threads.idle_workers, 1);
    assert_eq!(threads.execute(fsync_task()), Ok(Dispatch::Notify));
    assert!(matches!(threads.worker_loop(WorkerEvent::Notified), WorkerStep::Run(_)));
    assert!(matches!(threads.worker_loop(WorkerEvent::Free), WorkerStep::Wait));
    assert!(matches!(threads.worker_loop(WorkerEvent::TimedOut), WorkerStep::Exit));
    assert!(matches!(threads.worker_loop(WorkerEvent::Free), WorkerStep::Wait));
    assert!(matches!(threads.worker_loop(WorkerEvent::TimedOut), WorkerStep::Wait));
    assert_eq!(threads.active_workers, 1);
}

#[test]
fn numbers_are_those_of_windows() {
    assert_eq!(ERROR_IO_PENDING, windows_sys::Win32::Foundation::ERROR_IO_PENDING);
    assert_eq!(windows::AF_INET6, windows_sys::Win32::Networking::WinSock::AF_INET6);
    let flags = windows_sys::Win32::Storage::FileSystem::FILE_FLAG_OVERLAPPED
        | windows_sys::Win32::Storage::FileSystem::FILE_ATTRIBUTE_NORMAL;
    assert_eq!(OPEN_ATTRIBUTES, flags);
}
