//! What the completion port driver does, whatever it is asked.

use crate::error::IoError;
use crate::io::driver::iocp::blocking::{BlockingTask, CompletionInfo, Dispatch, TaskStep, ThreadPool, WinCall, WinReply};
use crate::io::driver::iocp::driver::{self, Entry, IocpDriver, PlatformData, PortReport, SubmitAction};
use crate::io::driver::iocp::op::{Accept, IocpOp, IocpOpPayload};
use crate::io::driver::iocp::submit::{self, IoCall, Submission, SubmissionResult};
use crate::io::driver::platform::IntoPlatformOp;
use crate::io::op::{
    Close, Connect, Fallocate, Fsync, IoFd, OpLifecycle, RawHandle, ReadFixed, Recv, RecvFrom, Send, SendTo,
    SyncFileRange, Timeout, WriteFixed,
};
use crate::io::socket::sockaddr::{self, SockAddrStorage, SocketAddr};
use vstd::prelude::*;

verus! {

/// A raw handle stands for itself, a registered one for what was registered in its
/// place. Without that there is none.
pub proof fn lemma_handle_found(fd: IoFd, registered: Seq<Option<RawHandle>>)
    ensures
        match fd {
            IoFd::Raw(raw) => submit::handle_of(fd, registered) == Ok::<RawHandle, IoError>(raw),
            IoFd::Fixed(i) => {
                &&& i < registered.len() ==> (registered[i as int] matches Some(h) ==> submit::handle_of(
                    fd,
                    registered,
                ) == Ok::<RawHandle, IoError>(h))
                &&& i >= registered.len() || registered[i as int] is None ==> submit::handle_of(fd, registered)
                    == Err::<RawHandle, IoError>(IoError::NotRegistered)
            },
        },
{
}

/// A call for a datagram fails with minus one and with nothing else, any other call with
/// zero and with nothing else.
pub proof fn lemma_failed_calls(call: IoCall, ret: i32)
    ensures
        call is WsaSendTo || call is WsaRecvFrom ==> (submit::call_failed(call, ret) <==> ret == -1),
        call is ReadFile || call is WriteFile || call is AcceptEx || call is ConnectEx ==> (submit::call_failed(
            call,
            ret,
        ) <==> ret == 0),
{
}

/// A socket with the name of an address is bound exactly where the address has a port.
/// One without a name is not.
pub proof fn lemma_bound_by_port(name: SockAddrStorage, addr: SocketAddr)
    requires
        sockaddr::stores(name, addr, 23),
    ensures
        submit::is_bound(Some(name)) <==> (match addr {
            SocketAddr::V4(a) => a.port != 0,
            SocketAddr::V6(a) => a.port != 0,
        }),
        !submit::is_bound(None),
{
    sockaddr::lemma_layout(addr, 23);
    let b = sockaddr::addr_bytes(addr, 23);
    assert(forall|i: int| 0 <= i < 4 ==> name.bytes@[i] == #[trigger] b[i]);
    assert(name.bytes@[0] == b[0] && name.bytes@[1] == b[1] && name.bytes@[2] == b[2] && name.bytes@[3] == b[3]);
}

/// The address of no host and no port is the one whose host and port are zero.
pub proof fn lemma_wildcard_is_nobody(addr: SocketAddr)
    ensures
        match addr {
            SocketAddr::V4(a) => (forall|i: int| 0 <= i < 4 ==> #[trigger] a.ip@[i] == 0) && a.port == 0
                ==> submit::wildcard(2, 16) == sockaddr::addr_bytes(addr, 23),
            SocketAddr::V6(a) => (forall|i: int| 0 <= i < 16 ==> #[trigger] a.ip@[i] == 0) && a.port == 0
                && a.flowinfo == 0 && a.scope_id == 0 ==> submit::wildcard(23, 28) == sockaddr::addr_bytes(addr, 23),
        },
{
    sockaddr::lemma_layout(addr, 23);
    let b = sockaddr::addr_bytes(addr, 23);
    match addr {
        SocketAddr::V4(a) => {
            if (forall|i: int| 0 <= i < 4 ==> #[trigger] a.ip@[i] == 0) && a.port == 0 {
                let w = submit::wildcard(2, 16);
                assert forall|i: int| 0 <= i < 16 implies w[i] == b[i] by {
                    if 4 <= i < 8 {
                        assert(b[4 + (i - 4)] == a.ip@[i - 4]);
                    }
                }
                assert(w =~= b);
            }
        },
        SocketAddr::V6(a) => {
            if (forall|i: int| 0 <= i < 16 ==> #[trigger] a.ip@[i] == 0) && a.port == 0 && a.flowinfo == 0
                && a.scope_id == 0 {
                let w = submit::wildcard(23, 28);
                assert forall|i: int| 0 <= i < 28 implies w[i] == b[i] by {
                    if 8 <= i < 24 {
                        assert(b[8 + (i - 8)] == a.ip@[i - 8]);
                    }
                }
                assert(w =~= b);
            }
        },
    }
}

/// The peer is whoever the system named, and nobody where it named none.
pub proof fn lemma_peer_is_named(name: SockAddrStorage, len: i32, addr: SocketAddr)
    requires
        sockaddr::stores(name, addr, 23),
    ensures
        len > 0 ==> (submit::named_peer(Some((name, len))) matches Some(peer) && sockaddr::same_addr(peer, addr)),
        len <= 0 ==> submit::named_peer(Some((name, len))) is None,
        submit::named_peer(None) is None,
{
    let bytes = sockaddr::addr_bytes(addr, 23);
    let padding = Seq::new((sockaddr::STORAGE_LEN - bytes.len()) as nat, |i: int| 0u8);
    sockaddr::lemma_reads_back(addr, 23, padding);
}

/// What the system sees of an operation: a read or a write starts at the place in the
/// file that it was given, its two halves together. The buffer of a datagram is that of
/// the operation, once its handle is known. All else is as it was.
pub proof fn lemma_system_sees(op: IocpOp, registered: Seq<Option<RawHandle>>)
    ensures
        ({
            let p = op.primed(registered);
            let start = p.header.offset + p.header.offset_high * 0x1_0000_0000;
            &&& p.header.user_data == op.header.user_data
            &&& p.header.blocking_result == op.header.blocking_result
            &&& match (op.payload, p.payload) {
                (IocpOpPayload::ReadFixed(a), IocpOpPayload::ReadFixed(b)) => a == b && start == a.offset,
                (IocpOpPayload::WriteFixed(a), IocpOpPayload::WriteFixed(b)) => a == b && start == a.offset,
                (IocpOpPayload::Recv(a), IocpOpPayload::Recv(b)) => a == b && start == 0,
                (IocpOpPayload::Send(a), IocpOpPayload::Send(b)) => a == b && start == 0,
                (IocpOpPayload::SendTo(a), IocpOpPayload::SendTo(b)) => {
                    &&& b.op == a.op && b.addr == a.addr && b.addr_len == a.addr_len
                    &&& a.op.fd is Raw ==> {
                        &&& b.wsabuf.buf == a.op.buf.offset
                        &&& a.op.buf.len <= u32::MAX ==> b.wsabuf.len == a.op.buf.len
                    }
                },
                (IocpOpPayload::RecvFrom(a), IocpOpPayload::RecvFrom(b)) => {
                    &&& b.op == a.op && b.addr == a.addr && b.addr_len == a.addr_len && b.flags == a.flags
                    &&& a.op.fd is Raw ==> {
                        &&& b.wsabuf.buf == a.op.buf.offset
                        &&& a.op.buf.cap <= u32::MAX ==> b.wsabuf.len == a.op.buf.cap
                    }
                },
                _ => p.payload == op.payload && p.header == op.header,
            }
        }),
{
    if let Some(offset) = op.file_offset() {
        submit::lemma_offset_halves(offset);
    }
}

/// What the system is asked for each operation: the call that fits it, on its handle,
/// with its buffer and all that it was told. Work that blocks goes to a thread, with the
/// place where its result is awaited.
pub proof fn lemma_asks_for_operation(
    op: IocpOp,
    raw: RawHandle,
    registered: Seq<Option<RawHandle>>,
    completion: CompletionInfo,
    path: Seq<u16>,
    how: Result<Submission, IoError>,
)
    requires
        op.submission(registered, completion, path, how),
        op.fd_of() matches Some(fd) ==> fd == IoFd::Raw(raw),
        op.payload matches IocpOpPayload::Accept(p) ==> p.accept_buffer_len >= 288,
        raw.raw >= 0,
        raw.raw <= usize::MAX,
    ensures
        match (op.payload, how) {
            (IocpOpPayload::ReadFixed(o), Ok(Submission::Call(IoCall::ReadFile { handle, buf, len }))) => {
                &&& handle == raw
                &&& buf == o.buf.offset
                &&& o.buf.cap <= u32::MAX ==> len == o.buf.cap
            },
            (IocpOpPayload::WriteFixed(o), Ok(Submission::Call(IoCall::WriteFile { handle, buf, len }))) => {
                &&& handle == raw
                &&& buf == o.buf.offset
                &&& o.buf.len <= u32::MAX ==> len == o.buf.len
            },
            (IocpOpPayload::Recv(o), Ok(Submission::Call(IoCall::ReadFile { handle, buf, len }))) => {
                &&& handle == raw
                &&& buf == o.buf.offset
                &&& o.buf.cap <= u32::MAX ==> len == o.buf.cap
            },
            (IocpOpPayload::Send(o), Ok(Submission::Call(IoCall::WriteFile { handle, buf, len }))) => {
                &&& handle == raw
                &&& buf == o.buf.offset
                &&& o.buf.len <= u32::MAX ==> len == o.buf.len
            },
            (IocpOpPayload::Connect(o), Ok(Submission::Call(IoCall::ConnectEx { handle, addr, addr_len }))) => {
                &&& handle == raw
                &&& addr == o.addr
                &&& o.addr_len <= i32::MAX ==> addr_len == o.addr_len
            },
            (IocpOpPayload::Accept(p), Ok(Submission::Call(IoCall::AcceptEx { handle, accept_socket, split }))) => {
                &&& handle == raw
                &&& accept_socket == p.op.accept_socket
                &&& split == 144
            },
            (
                IocpOpPayload::SendTo(p),
                Ok(Submission::Call(IoCall::WsaSendTo { handle, wsabuf, addr, addr_len })),
            ) => {
                &&& handle == raw
                &&& wsabuf.buf == p.op.buf.offset
                &&& p.op.buf.len <= u32::MAX ==> wsabuf.len == p.op.buf.len
                &&& addr == p.addr
                &&& addr_len == p.addr_len
            },
            (IocpOpPayload::RecvFrom(p), Ok(Submission::Call(IoCall::WsaRecvFrom { handle, wsabuf, addr_len }))) => {
                &&& handle == raw
                &&& wsabuf.buf == p.op.buf.offset
                &&& p.op.buf.cap <= u32::MAX ==> wsabuf.len == p.op.buf.cap
                &&& addr_len == p.addr_len
            },
            (IocpOpPayload::Open(p), Ok(Submission::Other(SubmissionResult::Offload(task)))) => {
                &&& task matches BlockingTask::Open { path: asked, flags, mode, completion: c } && {
                    &&& asked@ == path
                    &&& flags == p.op.flags
                    &&& mode == p.op.mode
                    &&& c == completion
                }
            },
            (IocpOpPayload::Close(_), Ok(Submission::Other(SubmissionResult::Offload(task)))) => {
                task matches BlockingTask::Close { handle, completion: c } && handle == raw.raw && c == completion
            },
            (IocpOpPayload::Fsync(_), Ok(Submission::Other(SubmissionResult::Offload(task)))) => {
                task matches BlockingTask::Fsync { handle, completion: c } && handle == raw.raw && c == completion
            },
            (IocpOpPayload::SyncFileRange(_), Ok(Submission::Other(SubmissionResult::Offload(task)))) => {
                task matches BlockingTask::SyncFileRange { handle, completion: c } && handle == raw.raw && c
                    == completion
            },
            (IocpOpPayload::Fallocate(o), Ok(Submission::Other(SubmissionResult::Offload(task)))) => {
                &&& task matches BlockingTask::Fallocate { handle, mode, offset, len, completion: c } && {
                    &&& handle == raw.raw
                    &&& mode == o.mode
                    &&& offset == o.offset
                    &&& len == o.len
                    &&& c == completion
                }
            },
            (IocpOpPayload::Wakeup(_), Ok(Submission::Other(result))) => result is PostToQueue,
            (IocpOpPayload::Timeout(o), Ok(Submission::Other(result))) => result == SubmissionResult::Timer(
                o.duration,
            ),
            _ => false,
        },
{
}

/// An operation on a registered handle that is not there is refused, and so is a
/// connection without room for both names. Nothing is asked of the system.
pub proof fn lemma_refused_submission(
    op: IocpOp,
    place: u32,
    registered: Seq<Option<RawHandle>>,
    completion: CompletionInfo,
    path: Seq<u16>,
    how: Result<Submission, IoError>,
)
    requires
        op.submission(registered, completion, path, how),
        !(op.payload is Wakeup),
    ensures
        op.payload is Accept && op.payload->Accept_0.accept_buffer_len < 288 ==> how == Err::<Submission, IoError>(
            IoError::AcceptBufferTooSmall,
        ),
        op.fd_of() == Some(IoFd::Fixed(place)) && (place >= registered.len() || registered[place as int] is None)
            && !(op.payload is Accept && op.payload->Accept_0.accept_buffer_len < 288) ==> how == Err::<
            Submission,
            IoError,
        >(IoError::NotRegistered),
{
}

/// What the port's report makes of an operation: what a thread noted comes first, then
/// the error, then the bytes that were moved, zero included. A connection counts only if
/// the socket could be told of it.
pub proof fn lemma_report_means(report: PortReport, op: IocpOp)
    ensures
        op.header.blocking_result matches Some(noted) ==> report.result(op) == noted,
        op.header.blocking_result is None && report.error != 0 ==> (report.result(op) matches Err(IoError::Os(number))
            && (report.error <= i32::MAX ==> number == report.error)),
        op.header.blocking_result is None && report.error == 0 ==> {
            &&& !(op.payload is Connect) && !(op.payload is Accept) ==> report.result(op) == Ok::<usize, IoError>(
                report.bytes,
            )
            &&& op.payload is Connect && op.payload->Connect_0.fd is Raw ==> {
                &&& report.told == 0 ==> report.result(op) == Ok::<usize, IoError>(report.bytes)
                &&& report.told != 0 ==> report.result(op) == Err::<usize, IoError>(IoError::Os(report.told_error))
            }
            &&& op.payload is Connect && op.payload->Connect_0.fd is Fixed ==> report.result(op) == Err::<
                usize,
                IoError,
            >(IoError::InvalidSocket)
            &&& op.payload is Accept && op.payload->Accept_0.op.fd is Raw ==> {
                &&& report.told == 0 ==> report.result(op) == Ok::<usize, IoError>(report.bytes)
                &&& report.told != 0 ==> report.result(op) == Err::<usize, IoError>(IoError::Os(report.told_error))
            }
            &&& op.payload is Accept && op.payload->Accept_0.op.fd is Fixed ==> report.result(op) == Err::<
                usize,
                IoError,
            >(IoError::InvalidListenSocket)
        },
{
}

/// A report leaves an operation as it was, but for its peer: a connection or a datagram
/// that came about knows whom the system named. A failure names nobody.
pub proof fn lemma_report_keeps_operation(
    report: PortReport,
    op: IocpOp,
    name: SockAddrStorage,
    len: i32,
    addr: SocketAddr,
)
    requires
        report.remote == Some((name, len)),
        0 < len <= 128,
        sockaddr::stores(name, addr, 23),
    ensures
        report.finished(op).header == op.header,
        report.finished(op).fd_of() == op.fd_of(),
        match (op.payload, report.finished(op).payload) {
            (IocpOpPayload::Accept(a), IocpOpPayload::Accept(b)) => {
                &&& b.op.accept_socket == a.op.accept_socket
                &&& op.header.blocking_result is None && report.result(op) is Ok ==> (b.op.remote_addr matches Some(
                    peer,
                ) && sockaddr::same_addr(peer, addr))
                &&& report.result(op) is Err ==> b.op.remote_addr == a.op.remote_addr
            },
            (IocpOpPayload::RecvFrom(a), IocpOpPayload::RecvFrom(b)) => {
                &&& b.op == a.op
                &&& b.wsabuf == a.wsabuf
                &&& op.header.blocking_result is None && report.error == 0 ==> b.addr == name && b.addr_len == len
                &&& report.error != 0 ==> b.addr == a.addr && b.addr_len == a.addr_len
            },
            (IocpOpPayload::Accept(_), _) | (IocpOpPayload::RecvFrom(_), _) => false,
            _ => report.finished(op) == op,
        },
{
    lemma_peer_is_named(name, len, addr);
}

/// What becomes of an operation after its submission: where that failed, or no thread
/// could take its work, it is finished with that error; else it is still awaited.
pub proof fn lemma_settles(e: Entry, result: Result<SubmissionResult, IoError>, overloaded: bool)
    ensures
        ({
            let s = IocpDriver::settled(e, result, overloaded);
            &&& result matches Err(error) ==> s.result == Some(Err::<usize, IoError>(error)) && s.waker is None
            &&& result is Ok && result->Ok_0 is Offload && overloaded ==> s.result == Some(
                Err::<usize, IoError>(IoError::Overloaded),
            ) && s.waker is None
            &&& result is Ok && result->Ok_0 is Offload && !overloaded ==> s == e
            &&& result matches Ok(SubmissionResult::Pending) ==> s == e
            &&& result matches Ok(SubmissionResult::PostToQueue) ==> s == e
            &&& result matches Ok(SubmissionResult::Timer(_)) ==> s.platform_data is Timer && s.result == e.result
                && s.waker == e.waker
            &&& s.resources == e.resources
            &&& s.cancelled == e.cancelled
        }),
{
}

/// What is left to do after a submission: a wake-up is posted, a timer is started, and
/// work that blocks goes to a thread: a waiting one, else a new one, else whichever comes
/// free. Where the line is full and all threads are busy, nothing is done.
pub proof fn lemma_left_to_do(result: Result<SubmissionResult, IoError>, pool: ThreadPool)
    requires
        pool.wf(),
    ensures
        ({
            let action = IocpDriver::action_for(result, pool);
            &&& result is Err ==> action is Nothing
            &&& result matches Ok(SubmissionResult::Pending) ==> action is Nothing
            &&& result matches Ok(SubmissionResult::PostToQueue) ==> action is Post
            &&& result matches Ok(SubmissionResult::Timer(span)) ==> action == SubmitAction::StartTimer(span)
            &&& result matches Ok(SubmissionResult::Offload(_)) ==> {
                &&& pool.idle_workers > 0 ==> action == SubmitAction::Dispatch(Dispatch::Notify)
                &&& pool.idle_workers == 0 && pool.active_workers < pool.max_threads ==> action
                    == SubmitAction::Dispatch(Dispatch::Spawn)
                &&& pool.idle_workers == 0 && pool.active_workers == pool.max_threads && pool.queue@.len()
                    < pool.queue_capacity ==> action == SubmitAction::Dispatch(Dispatch::Notify)
                &&& pool.idle_workers == 0 && pool.active_workers == pool.max_threads && pool.queue@.len()
                    >= pool.queue_capacity ==> action is Nothing && pool.overloaded()
            }
        }),
{
}

/// A task is refused only if no thread waits, none may be added, and the line is full.
pub proof fn lemma_refuses_only_when_full(pool: ThreadPool)
    ensures
        pool.idle_workers > 0 ==> !pool.overloaded(),
        pool.active_workers < pool.max_threads ==> !pool.overloaded(),
        pool.queue@.len() < pool.queue_capacity ==> !pool.overloaded(),
        pool.idle_workers == 0 && pool.active_workers == pool.max_threads && pool.queue@.len()
            == pool.queue_capacity ==> pool.overloaded(),
{
}

/// A new entry has nothing yet, and nobody waits for it.
pub proof fn lemma_new_entry(user_data: usize, op: IocpOp, registered: Seq<Option<RawHandle>>)
    ensures
        ({
            let e = driver::new_entry();
            e.waker is None && e.result is None && e.resources is None && !e.cancelled && e.platform_data is Plain
        }),
        ({
            let e = driver::loaded(driver::new_entry(), user_data, op, registered);
            &&& e.resources matches Some(held) && {
                &&& held.header.user_data == user_data
                &&& held.fd_of() == op.fd_of()
                &&& held.header.blocking_result == op.header.blocking_result
            }
            &&& e.waker is None && e.result is None && !e.cancelled && e.platform_data is Plain
        }),
{
}

/// The calls of a task: a file is opened with the access and the disposition that it was
/// given, closed and flushed by its handle. Space is reserved up to the end of the range;
/// the file grows to it exactly where the mode is zero.
pub proof fn lemma_calls_of_task(task: BlockingTask)
    ensures
        match task {
            BlockingTask::Open { flags, mode, .. } => {
                &&& task.calls().len() == 1
                &&& task.calls()[0] matches WinCall::CreateFile { access, share, disposition, attributes } && {
                    &&& flags >= 0 ==> access == flags
                    &&& share == 0
                    &&& disposition == mode
                    &&& attributes == 0x4000_0080
                }
            },
            BlockingTask::Close { handle, .. } => {
                &&& task.calls().len() == 1
                &&& task.calls()[0] == (WinCall::CloseHandle { handle })
            },
            BlockingTask::Fsync { handle, .. } => {
                &&& task.calls().len() == 1
                &&& task.calls()[0] == (WinCall::FlushFileBuffers { handle })
            },
            BlockingTask::SyncFileRange { handle, .. } => {
                &&& task.calls().len() == 1
                &&& task.calls()[0] == (WinCall::FlushFileBuffers { handle })
            },
            BlockingTask::Fallocate { handle, mode, offset, len, .. } => {
                &&& task.calls()[0] matches WinCall::SetAllocationSize { handle: h, size } && h == handle && (offset
                    + len <= i64::MAX ==> size == offset + len)
                &&& mode != 0 ==> task.calls().len() == 1
                &&& mode == 0 ==> {
                    &&& task.calls().len() == 2
                    &&& task.calls()[1] matches WinCall::SetEndOfFile { handle: h, size } && h == handle && (offset
                        + len <= i64::MAX ==> size == offset + len)
                }
            },
        },
{
}

/// What a task gives: the error of its first call that failed, and no call after it; the
/// handle of a file that it opened; zero for all else that succeeded. It goes where it
/// is awaited.
pub proof fn lemma_task_gives(task: BlockingTask, replies: Seq<WinReply>)
    requires
        task.under_way(replies),
    ensures
        replies.len() == 0 ==> task.step(replies) == TaskStep::Call(task.calls()[0]),
        task.step(replies) matches TaskStep::Done(to, _) ==> to == task.completion(),
        replies.len() > 0 && task is Open ==> {
            &&& replies.last().value == usize::MAX && replies.last().error <= i32::MAX ==> task.step(replies)
                == TaskStep::Done(task.completion(), Err(IoError::Os(replies.last().error as i32)))
            &&& replies.last().value < usize::MAX ==> task.step(replies) == TaskStep::Done(
                task.completion(),
                Ok(replies.last().value),
            )
        },
        replies.len() > 0 && !(task is Open) && replies.last().value == 0 && replies.last().error <= i32::MAX
            ==> task.step(replies) == TaskStep::Done(
            task.completion(),
            Err(IoError::Os(replies.last().error as i32)),
        ),
        replies.len() > 0 && !(task is Open) && replies.last().value != 0 ==> task.step(replies) == (
        if replies.len() == task.calls().len() {
            TaskStep::Done(task.completion(), Ok(0))
        } else {
            TaskStep::Call(task.calls()[replies.len() as int])
        }),
{
}

/// The place where a task's result is awaited is the one it was given.
pub proof fn lemma_awaited_where_asked(task: BlockingTask)
    ensures
        match task {
            BlockingTask::Open { completion, .. } => task.completion() == completion,
            BlockingTask::Close { completion, .. } => task.completion() == completion,
            BlockingTask::Fsync { completion, .. } => task.completion() == completion,
            BlockingTask::SyncFileRange { completion, .. } => task.completion() == completion,
            BlockingTask::Fallocate { completion, .. } => task.completion() == completion,
        },
{
}

/// An operation reaches the driver whole, and comes back whole where the driver did
/// nothing.
pub proof fn lemma_carried_whole(
    p: IocpOp,
    read: ReadFixed,
    write: WriteFixed,
    recv: Recv,
    send: Send,
    connect: Connect,
    close: Close,
    fsync: Fsync,
    sync: SyncFileRange,
    fallocate: Fallocate,
    timeout: Timeout,
)
    ensures
        read.carried_by(p) ==> p.payload == IocpOpPayload::ReadFixed(read) && ReadFixed::carried(p) == read,
        write.carried_by(p) ==> p.payload == IocpOpPayload::WriteFixed(write) && WriteFixed::carried(p) == write,
        recv.carried_by(p) ==> p.payload == IocpOpPayload::Recv(recv) && Recv::carried(p) == recv,
        send.carried_by(p) ==> p.payload == IocpOpPayload::Send(send) && Send::carried(p) == send,
        connect.carried_by(p) ==> p.payload == IocpOpPayload::Connect(connect) && Connect::carried(p) == connect,
        close.carried_by(p) ==> p.payload == IocpOpPayload::Close(close) && Close::carried(p) == close,
        fsync.carried_by(p) ==> p.payload == IocpOpPayload::Fsync(fsync) && Fsync::carried(p) == fsync,
        sync.carried_by(p) ==> p.payload == IocpOpPayload::SyncFileRange(sync) && SyncFileRange::carried(p) == sync,
        fallocate.carried_by(p) ==> p.payload == IocpOpPayload::Fallocate(fallocate) && Fallocate::carried(p)
            == fallocate,
        timeout.carried_by(p) ==> p.payload == IocpOpPayload::Timeout(timeout) && Timeout::carried(p) == timeout,
        read.carried_by(p) || write.carried_by(p) || recv.carried_by(p) || send.carried_by(p) || connect.carried_by(
            p,
        ) || close.carried_by(p) || fsync.carried_by(p) || timeout.carried_by(p) ==> p.header.blocking_result is None,
{
}

/// A datagram to an address names that address and holds what its buffer holds. One from
/// anybody has the room of its buffer and all the room there is for a name, and comes
/// back with whoever sent it.
pub proof fn lemma_datagrams_carried(p: IocpOp, send_to: SendTo, recv_from: RecvFrom, sender: SocketAddr)
    ensures
        send_to.carried_by(p) ==> {
            &&& SendTo::carried(p) == send_to
            &&& p.payload matches IocpOpPayload::SendTo(q) && {
                &&& q.addr_len == (if send_to.addr is V4 {
                    16int
                } else {
                    28
                })
                &&& sockaddr::addr_in(q.addr.bytes@, 23) matches Ok(a) && sockaddr::same_addr(a, send_to.addr)
                &&& q.wsabuf.buf == send_to.buf.offset
                &&& send_to.buf.len <= u32::MAX ==> q.wsabuf.len == send_to.buf.len
            }
        },
        recv_from.carried_by(p) ==> {
            &&& p.payload matches IocpOpPayload::RecvFrom(q) && {
                &&& q.op == recv_from
                &&& q.addr_len == 128
                &&& q.flags == 0
                &&& q.wsabuf.buf == recv_from.buf.offset
                &&& recv_from.buf.cap <= u32::MAX ==> q.wsabuf.len == recv_from.buf.cap
            }
        },
        p.payload is RecvFrom && p.payload->RecvFrom_0.addr_len == 128 && sockaddr::stores(
            p.payload->RecvFrom_0.addr,
            sender,
            23,
        ) ==> {
            let back = RecvFrom::carried(p);
            &&& back.fd == p.payload->RecvFrom_0.op.fd
            &&& back.buf == p.payload->RecvFrom_0.op.buf
            &&& back.addr matches Some(a) && sockaddr::same_addr(a, sender)
        },
{
    if send_to.carried_by(p) {
        let bytes = sockaddr::addr_bytes(send_to.addr, 23);
        let padding = Seq::new((sockaddr::STORAGE_LEN - bytes.len()) as nat, |i: int| 0u8);
        sockaddr::lemma_addr_len(send_to.addr, 23);
        sockaddr::lemma_reads_back(send_to.addr, 23, padding);
    }
    if let IocpOpPayload::RecvFrom(q) = p.payload {
        if q.addr_len == 128 && sockaddr::stores(q.addr, sender, 23) {
            let bytes = sockaddr::addr_bytes(sender, 23);
            let padding = Seq::new((sockaddr::STORAGE_LEN - bytes.len()) as nat, |i: int| 0u8);
            sockaddr::lemma_reads_back(sender, 23, padding);
            assert(q.addr.bytes@.subrange(0, 128) =~= q.addr.bytes@);
        }
    }
}

/// Accepting on Windows is asked of the listening socket, into the socket that was made
/// beforehand. Where it succeeds, that socket is the connection, and its other end is the
/// peer that the operation knows.
pub proof fn lemma_accepts_into_socket(
    op: Accept,
    fd: RawHandle,
    socket: RawHandle,
    res: Result<usize, IoError>,
    output: Result<(RawHandle, SocketAddr), IoError>,
)
    ensures
        op.is_op(fd, socket) ==> op.fd == IoFd::Raw(fd) && op.accept_socket == socket && op.remote_addr is None,
        op.gives(res, output) ==> {
            &&& output is Ok <==> res is Ok
            &&& res is Ok ==> output->Ok_0.0 == op.accept_socket
            &&& res is Ok ==> (op.remote_addr matches Some(peer) ==> output->Ok_0.1 == peer)
            &&& res matches Err(e) ==> output == Err::<(RawHandle, SocketAddr), IoError>(e)
        },
{
}

/// A task that is taken adds a thread exactly where one is started for it, and changes no
/// limit.
pub proof fn lemma_threads_counted(pool: ThreadPool, after: ThreadPool, started: bool)
    requires
        pool.executed(after, started),
    ensures
        started ==> after.active_workers == pool.active_workers + 1,
        !started ==> after.active_workers == pool.active_workers,
        after.idle_workers == pool.idle_workers,
        after.core_threads == pool.core_threads,
        after.max_threads == pool.max_threads,
        after.queue_capacity == pool.queue_capacity,
        after.keep_alive == pool.keep_alive,
{
}

} // verus!
