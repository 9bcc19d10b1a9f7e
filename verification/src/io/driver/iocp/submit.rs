//! What the system is asked for each operation, and what its answers mean.

use crate::error::IoError;
use crate::io::driver::iocp::blocking::{BlockingTask, CompletionInfo};
use crate::io::driver::iocp::op::{Accept, AcceptPayload, IocpOp, IocpOpPayload, OverlappedEntry, WsaBuf};
use crate::io::op::{Connect, IoFd, RawHandle, Timespan};
use crate::io::socket::sockaddr::{self, SockAddrStorage, SocketAddr, AF_INET, SOCKADDR_IN6_LEN, SOCKADDR_IN_LEN};
use crate::io::socket::windows::AF_INET6;
use vstd::prelude::*;

verus! {

/// Error number: the operation is under way.
pub const ERROR_IO_PENDING: u32 = 997;

/// Bytes for each of the two names of a connection: an address of any family, and
/// what the system adds.
pub const MIN_ADDR_LEN: usize = 144;

/// What becomes of an operation that was submitted.
pub enum SubmissionResult {
    /// The port will report on it.
    Pending,
    /// It is posted to the port at once.
    PostToQueue,
    /// A thread that may block runs it.
    Offload(BlockingTask),
    /// It ends after a time.
    Timer(Timespan),
}

/// A call that starts an operation.
#[derive(Clone, Copy)]
#[allow(inconsistent_fields)]
pub enum IoCall {
    ReadFile { handle: RawHandle, buf: usize, len: u32 },
    WriteFile { handle: RawHandle, buf: usize, len: u32 },
    AcceptEx { handle: RawHandle, accept_socket: RawHandle, split: u32 },
    ConnectEx { handle: RawHandle, addr: SockAddrStorage, addr_len: i32 },
    WsaSendTo { handle: RawHandle, wsabuf: WsaBuf, addr: SockAddrStorage, addr_len: i32 },
    WsaRecvFrom { handle: RawHandle, wsabuf: WsaBuf, addr_len: i32 },
}

/// How an operation is submitted: by a call, or by other means.
pub enum Submission {
    Call(IoCall),
    Other(SubmissionResult),
}

/// The handle that an operation works on.
pub open spec fn handle_of(fd: IoFd, registered: Seq<Option<RawHandle>>) -> Result<RawHandle, IoError> {
    match fd {
        IoFd::Raw(h) => Ok(h),
        IoFd::Fixed(idx) => if idx < registered.len() && registered[idx as int] is Some {
            Ok(registered[idx as int]->0)
        } else {
            Err(IoError::NotRegistered)
        },
    }
}

/// Looks a handle up, where it is known by its registration.
pub fn resolve_fd(fd: IoFd, registered_files: &[Option<RawHandle>]) -> (handle: Result<RawHandle, IoError>)
    ensures
        handle == handle_of(fd, registered_files@),
{
    match fd {
        IoFd::Raw(h) => Ok(h),
        IoFd::Fixed(idx) => {
            if (idx as usize) < registered_files.len() {
                match registered_files[idx as usize] {
                    Some(h) => Ok(h),
                    None => Err(IoError::NotRegistered),
                }
            } else {
                Err(IoError::NotRegistered)
            }
        },
    }
}

/// The low and the high half of an offset make up the offset.
pub proof fn lemma_offset_halves(offset: u64)
    ensures
        (offset as u32) + ((offset >> 32) as u32) * 0x1_0000_0000 == offset,
{
    assert((offset as u32) + ((offset >> 32) as u32) * 0x1_0000_0000 == offset) by (bit_vector);
}

/// Whether a call failed: file calls return zero, socket calls minus one.
pub open spec fn call_failed(call: IoCall, ret: i32) -> bool {
    match call {
        IoCall::WsaSendTo { .. } | IoCall::WsaRecvFrom { .. } => ret == -1,
        _ => ret == 0,
    }
}

/// What the answer to a call means. That the operation is under way is no error.
pub fn call_outcome(call: &IoCall, ret: i32, error: u32) -> (outcome: Result<SubmissionResult, IoError>)
    ensures
        outcome == (if call_failed(*call, ret) && error != ERROR_IO_PENDING {
            Err(IoError::Os(error as i32))
        } else {
            Ok(SubmissionResult::Pending)
        }),
{
    let failed: bool = match call {
        IoCall::WsaSendTo { .. } | IoCall::WsaRecvFrom { .. } => ret == -1,
        _ => ret == 0,
    };
    if failed {
        if error != ERROR_IO_PENDING {
            return Err(IoError::Os(error as i32));
        }
    }
    Ok(SubmissionResult::Pending)
}

/// Family of the address in storage.
pub open spec fn family_of(storage: SockAddrStorage) -> int {
    sockaddr::from_le16(storage.bytes@)
}

/// Whether a socket has a port: `name` is its name, if it has one.
pub open spec fn is_bound(name: Option<SockAddrStorage>) -> bool {
    &&& name is Some
    &&& family_of(name->0) == AF_INET || family_of(name->0) == AF_INET6
    &&& name->0.bytes@[2] != 0 || name->0.bytes@[3] != 0
}

/// The address without host and port, of the given length.
pub open spec fn wildcard(family: u16, len: nat) -> Seq<u8> {
    sockaddr::le16(family) + Seq::new((len - 2) as nat, |i: int| 0u8)
}

impl Connect {
    /// The address to bind the socket to before it connects, unless it is bound:
    /// any host and any port, of the family that it connects to.
    pub fn bind_address(&self, name: Option<&SockAddrStorage>) -> (addr: Option<Vec<u8>>)
        ensures
            ({
                let bound = match name {
                    Some(n) => is_bound(Some(*n)),
                    None => false,
                };
                match addr {
                    None => bound,
                    Some(a) => {
                        &&& !bound
                        &&& a@ == (if family_of(self.addr) == AF_INET {
                            wildcard(AF_INET, SOCKADDR_IN_LEN as nat)
                        } else {
                            wildcard(AF_INET6, SOCKADDR_IN6_LEN as nat)
                        })
                    },
                }
            }),
    {
        let mut need_bind: bool = true;
        if let Some(name) = name {
            let family: u16 = name.bytes[0] as u16 + (name.bytes[1] as u16) * 256;
            if family == AF_INET || family == AF_INET6 {
                if name.bytes[2] != 0 || name.bytes[3] != 0 {
                    need_bind = false;
                }
            }
        }
        if !need_bind {
            return None;
        }
        let family: u16 = self.addr.bytes[0] as u16 + (self.addr.bytes[1] as u16) * 256;
        let (bind_family, len): (u16, usize) = if family == AF_INET {
            (AF_INET, SOCKADDR_IN_LEN)
        } else {
            (AF_INET6, SOCKADDR_IN6_LEN)
        };
        let mut bytes: Vec<u8> = Vec::new();
        bytes.push((bind_family % 256) as u8);
        bytes.push((bind_family / 256) as u8);
        let mut i: usize = 2;
        while i < len
            invariant
                2 <= i <= len,
                bytes@ == wildcard(bind_family, i as nat),
            decreases len - i,
        {
            bytes.push(0);
            i += 1;
            assert(bytes@ =~= wildcard(bind_family, i as nat));
        }
        Some(bytes)
    }

    /// What a connection that came about reports, after the socket was told of it
    /// with answer `ret` and error number `error`.
    pub fn on_complete(&self, result: usize, ret: i32, error: i32) -> (outcome: Result<usize, IoError>)
        ensures
            outcome == (if self.fd is Fixed {
                Err(IoError::InvalidSocket)
            } else if ret != 0 {
                Err(IoError::Os(error))
            } else {
                Ok(result)
            }),
    {
        if self.fd.raw().is_none() {
            return Err(IoError::InvalidSocket);
        }
        if ret != 0 {
            return Err(IoError::Os(error));
        }
        Ok(result)
    }
}

/// The peer that storage names, if it names one.
pub open spec fn named_peer(remote: Option<(SockAddrStorage, i32)>) -> Option<SocketAddr> {
    match remote {
        Some((name, len)) => if len > 0 {
            sockaddr::addr_in(name.bytes@, AF_INET6).ok()
        } else {
            None
        },
        None => None,
    }
}

impl AcceptPayload {
    /// What an accepted connection reports, after the socket was told of it with
    /// answer `ret` and error number `error`. `remote` is the name of the peer that
    /// the system found in the buffer.
    pub fn on_complete(
        &mut self,
        result: usize,
        ret: i32,
        error: i32,
        remote: Option<(SockAddrStorage, i32)>,
    ) -> (outcome: Result<usize, IoError>)
        ensures
            outcome == (if old(self).op.fd is Fixed {
                Err(IoError::InvalidListenSocket)
            } else if ret != 0 {
                Err(IoError::Os(error))
            } else {
                Ok(result)
            }),
            *final(self) == (if outcome is Ok && named_peer(remote) is Some {
                AcceptPayload { op: Accept { remote_addr: named_peer(remote), ..old(self).op }, ..*old(self) }
            } else {
                *old(self)
            }),
    {
        if self.op.fd.raw().is_none() {
            return Err(IoError::InvalidListenSocket);
        }
        if ret != 0 {
            return Err(IoError::Os(error));
        }
        if let Some((name, len)) = remote {
            if len > 0 {
                let parsed = sockaddr::parse_storage(&name, 128, AF_INET6);
                assert(name.bytes@.subrange(0, 128) =~= name.bytes@);
                if let Ok(addr) = parsed {
                    self.op.remote_addr = Some(addr);
                }
            }
        }
        Ok(result)
    }
}

impl IocpOp {
    /// Where in the file the operation starts, as the system sees it.
    pub open spec fn file_offset(self) -> Option<u64> {
        match self.payload {
            IocpOpPayload::ReadFixed(op) => Some(op.offset),
            IocpOpPayload::WriteFixed(op) => Some(op.offset),
            IocpOpPayload::Recv(_) | IocpOpPayload::Send(_) => Some(0),
            _ => None,
        }
    }

    /// Whether the handle that the operation works on is known.
    pub open spec fn resolves(self, registered: Seq<Option<RawHandle>>) -> bool {
        self.fd_of() matches Some(fd) && handle_of(fd, registered) is Ok
    }

    /// The operation with what the system sees filled in: where in the file it starts,
    /// and the buffer of a datagram, once its handle is known.
    pub open spec fn primed(self, registered: Seq<Option<RawHandle>>) -> IocpOp {
        let header = match self.file_offset() {
            Some(offset) => OverlappedEntry {
                offset: offset as u32,
                offset_high: (offset >> 32) as u32,
                ..self.header
            },
            None => self.header,
        };
        let payload = match self.payload {
            IocpOpPayload::SendTo(p) if self.resolves(registered) => IocpOpPayload::SendTo(
                crate::io::driver::iocp::op::SendToPayload {
                    wsabuf: WsaBuf { len: p.op.buf.len as u32, buf: p.op.buf.offset },
                    ..p
                },
            ),
            IocpOpPayload::RecvFrom(p) if self.resolves(registered) => IocpOpPayload::RecvFrom(
                crate::io::driver::iocp::op::RecvFromPayload {
                    wsabuf: WsaBuf { len: p.op.buf.cap as u32, buf: p.op.buf.offset },
                    ..p
                },
            ),
            other => other,
        };
        IocpOp { header, payload }
    }

    /// How the operation is submitted. `path` is what its buffer holds, where it
    /// opens a file.
    pub open spec fn submission(
        self,
        registered: Seq<Option<RawHandle>>,
        completion: CompletionInfo,
        path: Seq<u16>,
        how: Result<Submission, IoError>,
    ) -> bool {
        let handle = match self.fd_of() {
            Some(fd) => handle_of(fd, registered),
            None => Err(IoError::NotRegistered),
        };
        match self.payload {
            IocpOpPayload::Wakeup(_) => how == Ok::<Submission, IoError>(
                Submission::Other(SubmissionResult::PostToQueue),
            ),
            IocpOpPayload::Timeout(op) => how == Ok::<Submission, IoError>(
                Submission::Other(SubmissionResult::Timer(op.duration)),
            ),
            IocpOpPayload::Open(p) => {
                &&& how matches Ok(Submission::Other(SubmissionResult::Offload(task)))
                &&& task matches BlockingTask::Open { path: task_path, flags, mode, completion: c }
                &&& task_path@ == path && flags == p.op.flags && mode == p.op.mode && c == completion
            },
            IocpOpPayload::Accept(p) if p.accept_buffer_len < 2 * MIN_ADDR_LEN => how == Err::<Submission, IoError>(
                IoError::AcceptBufferTooSmall,
            ),
            _ => match handle {
                Err(e) => how == Err::<Submission, IoError>(e),
                Ok(h) => how == Ok::<Submission, IoError>(self.submission_on(h, completion)),
            },
        }
    }

    /// How an operation on an open handle is submitted.
    pub open spec fn submission_on(self, handle: RawHandle, completion: CompletionInfo) -> Submission {
        match self.payload {
            IocpOpPayload::ReadFixed(op) => Submission::Call(
                IoCall::ReadFile { handle, buf: op.buf.offset, len: op.buf.cap as u32 },
            ),
            IocpOpPayload::WriteFixed(op) => Submission::Call(
                IoCall::WriteFile { handle, buf: op.buf.offset, len: op.buf.len as u32 },
            ),
            IocpOpPayload::Recv(op) => Submission::Call(
                IoCall::ReadFile { handle, buf: op.buf.offset, len: op.buf.cap as u32 },
            ),
            IocpOpPayload::Send(op) => Submission::Call(
                IoCall::WriteFile { handle, buf: op.buf.offset, len: op.buf.len as u32 },
            ),
            IocpOpPayload::Connect(op) => Submission::Call(
                IoCall::ConnectEx { handle, addr: op.addr, addr_len: op.addr_len as i32 },
            ),
            IocpOpPayload::Accept(p) => Submission::Call(
                IoCall::AcceptEx { handle, accept_socket: p.op.accept_socket, split: MIN_ADDR_LEN as u32 },
            ),
            IocpOpPayload::SendTo(p) => Submission::Call(
                IoCall::WsaSendTo {
                    handle,
                    wsabuf: WsaBuf { len: p.op.buf.len as u32, buf: p.op.buf.offset },
                    addr: p.addr,
                    addr_len: p.addr_len,
                },
            ),
            IocpOpPayload::RecvFrom(p) => Submission::Call(
                IoCall::WsaRecvFrom {
                    handle,
                    wsabuf: WsaBuf { len: p.op.buf.cap as u32, buf: p.op.buf.offset },
                    addr_len: p.addr_len,
                },
            ),
            IocpOpPayload::Close(_) => Submission::Other(
                SubmissionResult::Offload(BlockingTask::Close { handle: handle.raw as usize, completion }),
            ),
            IocpOpPayload::Fsync(_) => Submission::Other(
                SubmissionResult::Offload(BlockingTask::Fsync { handle: handle.raw as usize, completion }),
            ),
            IocpOpPayload::SyncFileRange(_) => Submission::Other(
                SubmissionResult::Offload(BlockingTask::SyncFileRange { handle: handle.raw as usize, completion }),
            ),
            IocpOpPayload::Fallocate(op) => Submission::Other(
                SubmissionResult::Offload(
                    BlockingTask::Fallocate {
                        handle: handle.raw as usize,
                        mode: op.mode,
                        offset: op.offset,
                        len: op.len,
                        completion,
                    },
                ),
            ),
            IocpOpPayload::Open(_) | IocpOpPayload::Wakeup(_) | IocpOpPayload::Timeout(_) => Submission::Other(
                SubmissionResult::Pending,
            ),
        }
    }

    /// Fills in what the system sees, and tells how the operation is submitted.
    pub fn submit(
        &mut self,
        registered_files: &[Option<RawHandle>],
        completion: CompletionInfo,
        path: Vec<u16>,
    ) -> (how: Result<Submission, IoError>)
        ensures
            *final(self) == old(self).primed(registered_files@),
            old(self).submission(registered_files@, completion, path@, how),
    {
        match &mut self.payload {
            IocpOpPayload::ReadFixed(op) => {
                self.header.offset = op.offset as u32;
                self.header.offset_high = (op.offset >> 32) as u32;
                match resolve_fd(op.fd, registered_files) {
                    Ok(handle) => Ok(
                        Submission::Call(
                            IoCall::ReadFile { handle, buf: op.buf.offset, len: op.buf.capacity() as u32 },
                        ),
                    ),
                    Err(e) => Err(e),
                }
            },
            IocpOpPayload::WriteFixed(op) => {
                self.header.offset = op.offset as u32;
                self.header.offset_high = (op.offset >> 32) as u32;
                match resolve_fd(op.fd, registered_files) {
                    Ok(handle) => Ok(
                        Submission::Call(
                            IoCall::WriteFile { handle, buf: op.buf.offset, len: op.buf.len() as u32 },
                        ),
                    ),
                    Err(e) => Err(e),
                }
            },
            IocpOpPayload::Recv(op) => {
                proof {
                    assert(0u64 >> 32 == 0) by (bit_vector);
                }
                self.header.offset = 0;
                self.header.offset_high = 0;
                match resolve_fd(op.fd, registered_files) {
                    Ok(handle) => Ok(
                        Submission::Call(
                            IoCall::ReadFile { handle, buf: op.buf.offset, len: op.buf.capacity() as u32 },
                        ),
                    ),
                    Err(e) => Err(e),
                }
            },
            IocpOpPayload::Send(op) => {
                proof {
                    assert(0u64 >> 32 == 0) by (bit_vector);
                }
                self.header.offset = 0;
                self.header.offset_high = 0;
                match resolve_fd(op.fd, registered_files) {
                    Ok(handle) => Ok(
                        Submission::Call(
                            IoCall::WriteFile { handle, buf: op.buf.offset, len: op.buf.len() as u32 },
                        ),
                    ),
                    Err(e) => Err(e),
                }
            },
            IocpOpPayload::Accept(p) => {
                if p.accept_buffer_len < 2 * MIN_ADDR_LEN {
                    return Err(IoError::AcceptBufferTooSmall);
                }
                match resolve_fd(p.op.fd, registered_files) {
                    Ok(handle) => Ok(
                        Submission::Call(
                            IoCall::AcceptEx {
                                handle,
                                accept_socket: p.op.accept_socket,
                                split: MIN_ADDR_LEN as u32,
                            },
                        ),
                    ),
                    Err(e) => Err(e),
                }
            },
            IocpOpPayload::Connect(op) => match resolve_fd(op.fd, registered_files) {
                Ok(handle) => Ok(
                    Submission::Call(IoCall::ConnectEx { handle, addr: op.addr, addr_len: op.addr_len as i32 }),
                ),
                Err(e) => Err(e),
            },
            IocpOpPayload::SendTo(p) => {
                match resolve_fd(p.op.fd, registered_files) {
                    Ok(handle) => {
                        p.wsabuf = WsaBuf { len: p.op.buf.len() as u32, buf: p.op.buf.offset };
                        Ok(
                            Submission::Call(
                                IoCall::WsaSendTo {
                                    handle,
                                    wsabuf: p.wsabuf,
                                    addr: p.addr,
                                    addr_len: p.addr_len,
                                },
                            ),
                        )
                    },
                    Err(e) => Err(e),
                }
            },
            IocpOpPayload::RecvFrom(p) => {
                match resolve_fd(p.op.fd, registered_files) {
                    Ok(handle) => {
                        p.wsabuf = WsaBuf { len: p.op.buf.capacity() as u32, buf: p.op.buf.offset };
                        Ok(
                            Submission::Call(
                                IoCall::WsaRecvFrom { handle, wsabuf: p.wsabuf, addr_len: p.addr_len },
                            ),
                        )
                    },
                    Err(e) => Err(e),
                }
            },
            IocpOpPayload::Open(p) => {
                let task = BlockingTask::Open { path, flags: p.op.flags, mode: p.op.mode, completion };
                Ok(Submission::Other(SubmissionResult::Offload(task)))
            },
            IocpOpPayload::Close(op) => match resolve_fd(op.fd, registered_files) {
                Ok(handle) => {
                    let task = BlockingTask::Close { handle: handle.raw as usize, completion };
                    Ok(Submission::Other(SubmissionResult::Offload(task)))
                },
                Err(e) => Err(e),
            },
            IocpOpPayload::Fsync(op) => match resolve_fd(op.fd, registered_files) {
                Ok(handle) => {
                    let task = BlockingTask::Fsync { handle: handle.raw as usize, completion };
                    Ok(Submission::Other(SubmissionResult::Offload(task)))
                },
                Err(e) => Err(e),
            },
            IocpOpPayload::SyncFileRange(op) => match resolve_fd(op.fd, registered_files) {
                Ok(handle) => {
                    let task = BlockingTask::SyncFileRange { handle: handle.raw as usize, completion };
                    Ok(Submission::Other(SubmissionResult::Offload(task)))
                },
                Err(e) => Err(e),
            },
            IocpOpPayload::Fallocate(op) => match resolve_fd(op.fd, registered_files) {
                Ok(handle) => {
                    let task = BlockingTask::Fallocate {
                        handle: handle.raw as usize,
                        mode: op.mode,
                        offset: op.offset,
                        len: op.len,
                        completion,
                    };
                    Ok(Submission::Other(SubmissionResult::Offload(task)))
                },
                Err(e) => Err(e),
            },
            IocpOpPayload::Wakeup(_) => Ok(Submission::Other(SubmissionResult::PostToQueue)),
            IocpOpPayload::Timeout(op) => Ok(Submission::Other(SubmissionResult::Timer(op.duration))),
        }
    }

    /// What an operation that the port reports came to. `ret` and `error` are the
    /// answer of the socket that was told of its connection, for those that make one.
    pub open spec fn outcome(self, result: usize, ret: i32, error: i32) -> Result<usize, IoError> {
        let told = if ret != 0 {
            Err(IoError::Os(error))
        } else {
            Ok(result)
        };
        match self.payload {
            IocpOpPayload::Connect(op) => if op.fd is Fixed {
                Err(IoError::InvalidSocket)
            } else {
                told
            },
            IocpOpPayload::Accept(p) => if p.op.fd is Fixed {
                Err(IoError::InvalidListenSocket)
            } else {
                told
            },
            _ => Ok(result),
        }
    }

    /// The operation after that: an accepted connection knows its peer, if `remote`
    /// names one.
    pub open spec fn finished(
        self,
        result: usize,
        ret: i32,
        error: i32,
        remote: Option<(SockAddrStorage, i32)>,
    ) -> IocpOp {
        match self.payload {
            IocpOpPayload::Accept(p) => if self.outcome(result, ret, error) is Ok && named_peer(remote) is Some {
                IocpOp {
                    payload: IocpOpPayload::Accept(
                        AcceptPayload { op: Accept { remote_addr: named_peer(remote), ..p.op }, ..p },
                    ),
                    ..self
                }
            } else {
                self
            },
            _ => self,
        }
    }

    /// What the operation reports once it is done. Connections are told of first,
    /// with answer `ret` and error number `error`.
    pub fn on_complete(
        &mut self,
        result: usize,
        ret: i32,
        error: i32,
        remote: Option<(SockAddrStorage, i32)>,
    ) -> (outcome: Result<usize, IoError>)
        ensures
            outcome == old(self).outcome(result, ret, error),
            *final(self) == old(self).finished(result, ret, error, remote),
    {
        match &mut self.payload {
            IocpOpPayload::Connect(op) => op.on_complete(result, ret, error),
            IocpOpPayload::Accept(p) => p.on_complete(result, ret, error, remote),
            _ => Ok(result),
        }
    }
}

} // verus!
