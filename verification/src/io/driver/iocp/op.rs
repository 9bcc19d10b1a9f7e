//! Operations in the form that the completion port driver takes.

use crate::error::IoError;
use crate::io::driver::platform::IntoPlatformOp;
use crate::io::driver::PlatformOp;
use crate::io::op::{
    Close, Connect, Fallocate, Fsync, IoFd, Open, OpLifecycle, RawHandle, ReadFixed, Recv, RecvFrom, Send, SendTo,
    SyncFileRange, Timeout, Wakeup, WriteFixed,
};
use crate::io::socket::sockaddr::{self, SockAddrStorage, SocketAddr};
use crate::io::socket::windows;
use vstd::prelude::*;

verus! {

/// Bytes in which a connection's two names are stored.
pub const ACCEPT_BUFFER_LEN: usize = 288;

/// The part of an operation that the system sees: where in the file it starts, and
/// the key it is reported under.
#[derive(Debug, Clone, Copy)]
pub struct OverlappedEntry {
    pub offset: u32,
    pub offset_high: u32,
    pub user_data: usize,
    pub blocking_result: Option<Result<usize, IoError>>,
}

impl OverlappedEntry {
    pub fn new(user_data: usize) -> (entry: Self)
        ensures
            entry == (OverlappedEntry { offset: 0, offset_high: 0, user_data, blocking_result: None }),
    {
        OverlappedEntry { offset: 0, offset_high: 0, user_data, blocking_result: None }
    }
}

/// A buffer as sockets take it.
#[derive(Debug, Clone, Copy, PartialEq, Eq, Structural)]
pub struct WsaBuf {
    pub len: u32,
    pub buf: usize,
}

/// Accept a connection on a socket that is made beforehand.
pub struct Accept {
    pub fd: IoFd,
    pub remote_addr: Option<SocketAddr>,
    pub accept_socket: RawHandle,
}

pub struct AcceptPayload {
    pub op: Accept,
    pub accept_buffer_len: usize,
}

pub struct SendToPayload {
    pub op: SendTo,
    pub wsabuf: WsaBuf,
    pub addr: SockAddrStorage,
    pub addr_len: i32,
}

pub struct RecvFromPayload {
    pub op: RecvFrom,
    pub wsabuf: WsaBuf,
    pub flags: u32,
    pub addr: SockAddrStorage,
    pub addr_len: i32,
}

impl RecvFromPayload {
    /// How long the sender's name is.
    pub fn get_addr_len(&self) -> (len: usize)
        requires
            0 <= self.addr_len,
        ensures
            len == self.addr_len,
    {
        self.addr_len as usize
    }
}

pub struct OpenPayload {
    pub op: Open,
}

pub struct WakeupPayload {
    pub op: Wakeup,
}

/// What an operation works with.
pub enum IocpOpPayload {
    ReadFixed(ReadFixed),
    WriteFixed(WriteFixed),
    Recv(Recv),
    Send(Send),
    Connect(Connect),
    Accept(AcceptPayload),
    SendTo(SendToPayload),
    RecvFrom(RecvFromPayload),
    Open(OpenPayload),
    Close(Close),
    Fsync(Fsync),
    SyncFileRange(SyncFileRange),
    Fallocate(Fallocate),
    Wakeup(WakeupPayload),
    Timeout(Timeout),
}

/// An operation of the completion port driver.
pub struct IocpOp {
    pub header: OverlappedEntry,
    pub payload: IocpOpPayload,
}

pub open spec fn blank_header() -> OverlappedEntry {
    OverlappedEntry { offset: 0, offset_high: 0, user_data: 0, blocking_result: None }
}

impl PlatformOp for IocpOp {
    open spec fn acceptable(self) -> bool {
        self.sound()
    }
}

impl IocpOp {
    /// Names fit into their storage, and ranges end below the largest number.
    pub open spec fn sound(self) -> bool {
        match self.payload {
            IocpOpPayload::RecvFrom(p) => 0 <= p.addr_len <= sockaddr::STORAGE_LEN,
            IocpOpPayload::Fallocate(op) => op.offset + op.len <= u64::MAX,
            _ => true,
        }
    }

    /// The part of the operation that the system sees.
    pub fn entry_mut(&mut self) -> (entry: Option<&mut OverlappedEntry>)
        ensures
            entry is Some,
            *entry->0 == old(self).header,
            *final(self) == (IocpOp { header: *final(entry->0), ..*old(self) }),
    {
        Some(&mut self.header)
    }

    /// What the operation works on, where it works on something open.
    pub open spec fn fd_of(self) -> Option<IoFd> {
        match self.payload {
            IocpOpPayload::ReadFixed(op) => Some(op.fd),
            IocpOpPayload::WriteFixed(op) => Some(op.fd),
            IocpOpPayload::Recv(op) => Some(op.fd),
            IocpOpPayload::Send(op) => Some(op.fd),
            IocpOpPayload::Connect(op) => Some(op.fd),
            IocpOpPayload::Accept(p) => Some(p.op.fd),
            IocpOpPayload::SendTo(p) => Some(p.op.fd),
            IocpOpPayload::RecvFrom(p) => Some(p.op.fd),
            IocpOpPayload::Close(op) => Some(op.fd),
            IocpOpPayload::Fsync(op) => Some(op.fd),
            IocpOpPayload::SyncFileRange(op) => Some(op.fd),
            IocpOpPayload::Fallocate(op) => Some(op.fd),
            IocpOpPayload::Wakeup(p) => Some(p.op.fd),
            IocpOpPayload::Open(_) | IocpOpPayload::Timeout(_) => None,
        }
    }

    pub fn get_fd(&self) -> (fd: Option<IoFd>)
        ensures
            fd == self.fd_of(),
    {
        match &self.payload {
            IocpOpPayload::ReadFixed(op) => Some(op.fd),
            IocpOpPayload::WriteFixed(op) => Some(op.fd),
            IocpOpPayload::Recv(op) => Some(op.fd),
            IocpOpPayload::Send(op) => Some(op.fd),
            IocpOpPayload::Connect(op) => Some(op.fd),
            IocpOpPayload::Accept(p) => Some(p.op.fd),
            IocpOpPayload::SendTo(p) => Some(p.op.fd),
            IocpOpPayload::RecvFrom(p) => Some(p.op.fd),
            IocpOpPayload::Close(op) => Some(op.fd),
            IocpOpPayload::Fsync(op) => Some(op.fd),
            IocpOpPayload::SyncFileRange(op) => Some(op.fd),
            IocpOpPayload::Fallocate(op) => Some(op.fd),
            IocpOpPayload::Wakeup(p) => Some(p.op.fd),
            IocpOpPayload::Open(_) | IocpOpPayload::Timeout(_) => None,
        }
    }
}

impl OpLifecycle for Accept {
    type PreAlloc = RawHandle;

    type Output = (RawHandle, SocketAddr);

    open spec fn is_op(self, fd: RawHandle, pre: RawHandle) -> bool {
        self == (Accept { fd: IoFd::Raw(fd), remote_addr: None, accept_socket: pre })
    }

    open spec fn finished(self) -> bool {
        true
    }

    open spec fn gives(self, res: Result<usize, IoError>, output: Result<(RawHandle, SocketAddr), IoError>) -> bool {
        match res {
            Ok(_) => {
                &&& output is Ok
                &&& output->Ok_0.0 == self.accept_socket
                &&& match self.remote_addr {
                    Some(a) => output->Ok_0.1 == a,
                    None => sockaddr::is_unspecified(output->Ok_0.1),
                }
            },
            Err(e) => output == Err::<(RawHandle, SocketAddr), IoError>(e),
        }
    }

    fn into_op(fd: RawHandle, pre: RawHandle) -> Self {
        Accept { fd: IoFd::Raw(fd), remote_addr: None, accept_socket: pre }
    }

    fn into_output(self, res: Result<usize, IoError>) -> Result<(RawHandle, SocketAddr), IoError> {
        match res {
            Ok(_) => {
                let addr: SocketAddr = match self.remote_addr {
                    Some(a) => a,
                    None => SocketAddr::unspecified(),
                };
                Ok((self.accept_socket, addr))
            },
            Err(e) => Err(e),
        }
    }
}

impl IntoPlatformOp<IocpOp> for ReadFixed {
    open spec fn carried_by(self, op: IocpOp) -> bool {
        op == (IocpOp { header: blank_header(), payload: IocpOpPayload::ReadFixed(self) })
    }

    open spec fn fit(self) -> bool {
        true
    }

    open spec fn kind_of(op: IocpOp) -> bool {
        op.payload is ReadFixed
    }

    open spec fn carried(op: IocpOp) -> Self {
        op.payload->ReadFixed_0
    }

    open spec fn untouched(self) -> Self {
        self
    }

    fn into_platform_op(self) -> IocpOp {
        IocpOp { header: OverlappedEntry::new(0), payload: IocpOpPayload::ReadFixed(self) }
    }

    fn from_platform_op(op: IocpOp) -> Self {
        match op.payload {
            IocpOpPayload::ReadFixed(inner) => inner,
            _ => vstd::pervasive::unreached(),
        }
    }
}

impl IntoPlatformOp<IocpOp> for WriteFixed {
    open spec fn carried_by(self, op: IocpOp) -> bool {
        op == (IocpOp { header: blank_header(), payload: IocpOpPayload::WriteFixed(self) })
    }

    open spec fn fit(self) -> bool {
        true
    }

    open spec fn kind_of(op: IocpOp) -> bool {
        op.payload is WriteFixed
    }

    open spec fn carried(op: IocpOp) -> Self {
        op.payload->WriteFixed_0
    }

    open spec fn untouched(self) -> Self {
        self
    }

    fn into_platform_op(self) -> IocpOp {
        IocpOp { header: OverlappedEntry::new(0), payload: IocpOpPayload::WriteFixed(self) }
    }

    fn from_platform_op(op: IocpOp) -> Self {
        match op.payload {
            IocpOpPayload::WriteFixed(inner) => inner,
            _ => vstd::pervasive::unreached(),
        }
    }
}

impl IntoPlatformOp<IocpOp> for Recv {
    open spec fn carried_by(self, op: IocpOp) -> bool {
        op == (IocpOp { header: blank_header(), payload: IocpOpPayload::Recv(self) })
    }

    open spec fn fit(self) -> bool {
        true
    }

    open spec fn kind_of(op: IocpOp) -> bool {
        op.payload is Recv
    }

    open spec fn carried(op: IocpOp) -> Self {
        op.payload->Recv_0
    }

    open spec fn untouched(self) -> Self {
        self
    }

    fn into_platform_op(self) -> IocpOp {
        IocpOp { header: OverlappedEntry::new(0), payload: IocpOpPayload::Recv(self) }
    }

    fn from_platform_op(op: IocpOp) -> Self {
        match op.payload {
            IocpOpPayload::Recv(inner) => inner,
            _ => vstd::pervasive::unreached(),
        }
    }
}

impl IntoPlatformOp<IocpOp> for Send {
    open spec fn carried_by(self, op: IocpOp) -> bool {
        op == (IocpOp { header: blank_header(), payload: IocpOpPayload::Send(self) })
    }

    open spec fn fit(self) -> bool {
        true
    }

    open spec fn kind_of(op: IocpOp) -> bool {
        op.payload is Send
    }

    open spec fn carried(op: IocpOp) -> Self {
        op.payload->Send_0
    }

    open spec fn untouched(self) -> Self {
        self
    }

    fn into_platform_op(self) -> IocpOp {
        IocpOp { header: OverlappedEntry::new(0), payload: IocpOpPayload::Send(self) }
    }

    fn from_platform_op(op: IocpOp) -> Self {
        match op.payload {
            IocpOpPayload::Send(inner) => inner,
            _ => vstd::pervasive::unreached(),
        }
    }
}

impl IntoPlatformOp<IocpOp> for Connect {
    open spec fn carried_by(self, op: IocpOp) -> bool {
        op == (IocpOp { header: blank_header(), payload: IocpOpPayload::Connect(self) })
    }

    open spec fn fit(self) -> bool {
        true
    }

    open spec fn kind_of(op: IocpOp) -> bool {
        op.payload is Connect
    }

    open spec fn carried(op: IocpOp) -> Self {
        op.payload->Connect_0
    }

    open spec fn untouched(self) -> Self {
        self
    }

    fn into_platform_op(self) -> IocpOp {
        IocpOp { header: OverlappedEntry::new(0), payload: IocpOpPayload::Connect(self) }
    }

    fn from_platform_op(op: IocpOp) -> Self {
        match op.payload {
            IocpOpPayload::Connect(inner) => inner,
            _ => vstd::pervasive::unreached(),
        }
    }
}

impl IntoPlatformOp<IocpOp> for Close {
    open spec fn carried_by(self, op: IocpOp) -> bool {
        op == (IocpOp { header: blank_header(), payload: IocpOpPayload::Close(self) })
    }

    open spec fn fit(self) -> bool {
        true
    }

    open spec fn kind_of(op: IocpOp) -> bool {
        op.payload is Close
    }

    open spec fn carried(op: IocpOp) -> Self {
        op.payload->Close_0
    }

    open spec fn untouched(self) -> Self {
        self
    }

    fn into_platform_op(self) -> IocpOp {
        IocpOp { header: OverlappedEntry::new(0), payload: IocpOpPayload::Close(self) }
    }

    fn from_platform_op(op: IocpOp) -> Self {
        match op.payload {
            IocpOpPayload::Close(inner) => inner,
            _ => vstd::pervasive::unreached(),
        }
    }
}

impl IntoPlatformOp<IocpOp> for Fsync {
    open spec fn carried_by(self, op: IocpOp) -> bool {
        op == (IocpOp { header: blank_header(), payload: IocpOpPayload::Fsync(self) })
    }

    open spec fn fit(self) -> bool {
        true
    }

    open spec fn kind_of(op: IocpOp) -> bool {
        op.payload is Fsync
    }

    open spec fn carried(op: IocpOp) -> Self {
        op.payload->Fsync_0
    }

    open spec fn untouched(self) -> Self {
        self
    }

    fn into_platform_op(self) -> IocpOp {
        IocpOp { header: OverlappedEntry::new(0), payload: IocpOpPayload::Fsync(self) }
    }

    fn from_platform_op(op: IocpOp) -> Self {
        match op.payload {
            IocpOpPayload::Fsync(inner) => inner,
            _ => vstd::pervasive::unreached(),
        }
    }
}

impl IntoPlatformOp<IocpOp> for SyncFileRange {
    open spec fn carried_by(self, op: IocpOp) -> bool {
        op == (IocpOp { header: blank_header(), payload: IocpOpPayload::SyncFileRange(self) })
    }

    open spec fn fit(self) -> bool {
        true
    }

    open spec fn kind_of(op: IocpOp) -> bool {
        op.payload is SyncFileRange
    }

    open spec fn carried(op: IocpOp) -> Self {
        op.payload->SyncFileRange_0
    }

    open spec fn untouched(self) -> Self {
        self
    }

    fn into_platform_op(self) -> IocpOp {
        IocpOp { header: OverlappedEntry::new(0), payload: IocpOpPayload::SyncFileRange(self) }
    }

    fn from_platform_op(op: IocpOp) -> Self {
        match op.payload {
            IocpOpPayload::SyncFileRange(inner) => inner,
            _ => vstd::pervasive::unreached(),
        }
    }
}

impl IntoPlatformOp<IocpOp> for Fallocate {
    open spec fn carried_by(self, op: IocpOp) -> bool {
        op == (IocpOp { header: blank_header(), payload: IocpOpPayload::Fallocate(self) })
    }

    open spec fn fit(self) -> bool {
        self.offset + self.len <= u64::MAX
    }

    open spec fn kind_of(op: IocpOp) -> bool {
        op.payload is Fallocate
    }

    open spec fn carried(op: IocpOp) -> Self {
        op.payload->Fallocate_0
    }

    open spec fn untouched(self) -> Self {
        self
    }

    fn into_platform_op(self) -> IocpOp {
        IocpOp { header: OverlappedEntry::new(0), payload: IocpOpPayload::Fallocate(self) }
    }

    fn from_platform_op(op: IocpOp) -> Self {
        match op.payload {
            IocpOpPayload::Fallocate(inner) => inner,
            _ => vstd::pervasive::unreached(),
        }
    }
}

impl IntoPlatformOp<IocpOp> for Timeout {
    open spec fn carried_by(self, op: IocpOp) -> bool {
        op == (IocpOp { header: blank_header(), payload: IocpOpPayload::Timeout(self) })
    }

    open spec fn fit(self) -> bool {
        true
    }

    open spec fn kind_of(op: IocpOp) -> bool {
        op.payload is Timeout
    }

    open spec fn carried(op: IocpOp) -> Self {
        op.payload->Timeout_0
    }

    open spec fn untouched(self) -> Self {
        self
    }

    fn into_platform_op(self) -> IocpOp {
        IocpOp { header: OverlappedEntry::new(0), payload: IocpOpPayload::Timeout(self) }
    }

    fn from_platform_op(op: IocpOp) -> Self {
        match op.payload {
            IocpOpPayload::Timeout(inner) => inner,
            _ => vstd::pervasive::unreached(),
        }
    }
}

impl IntoPlatformOp<IocpOp> for Open {
    open spec fn carried_by(self, op: IocpOp) -> bool {
        op == (IocpOp { header: blank_header(), payload: IocpOpPayload::Open(OpenPayload { op: self }) })
    }

    open spec fn fit(self) -> bool {
        true
    }

    open spec fn kind_of(op: IocpOp) -> bool {
        op.payload is Open
    }

    open spec fn carried(op: IocpOp) -> Self {
        op.payload->Open_0.op
    }

    open spec fn untouched(self) -> Self {
        self
    }

    fn into_platform_op(self) -> IocpOp {
        IocpOp { header: OverlappedEntry::new(0), payload: IocpOpPayload::Open(OpenPayload { op: self }) }
    }

    fn from_platform_op(op: IocpOp) -> Self {
        match op.payload {
            IocpOpPayload::Open(p) => p.op,
            _ => vstd::pervasive::unreached(),
        }
    }
}

impl IntoPlatformOp<IocpOp> for Wakeup {
    open spec fn carried_by(self, op: IocpOp) -> bool {
        op == (IocpOp { header: blank_header(), payload: IocpOpPayload::Wakeup(WakeupPayload { op: self }) })
    }

    open spec fn fit(self) -> bool {
        true
    }

    open spec fn kind_of(op: IocpOp) -> bool {
        op.payload is Wakeup
    }

    open spec fn carried(op: IocpOp) -> Self {
        op.payload->Wakeup_0.op
    }

    open spec fn untouched(self) -> Self {
        self
    }

    fn into_platform_op(self) -> IocpOp {
        IocpOp { header: OverlappedEntry::new(0), payload: IocpOpPayload::Wakeup(WakeupPayload { op: self }) }
    }

    fn from_platform_op(op: IocpOp) -> Self {
        match op.payload {
            IocpOpPayload::Wakeup(p) => p.op,
            _ => vstd::pervasive::unreached(),
        }
    }
}

impl IntoPlatformOp<IocpOp> for Accept {
    open spec fn carried_by(self, op: IocpOp) -> bool {
        op == (IocpOp {
            header: blank_header(),
            payload: IocpOpPayload::Accept(AcceptPayload { op: self, accept_buffer_len: ACCEPT_BUFFER_LEN }),
        })
    }

    open spec fn fit(self) -> bool {
        true
    }

    open spec fn kind_of(op: IocpOp) -> bool {
        op.payload is Accept
    }

    open spec fn carried(op: IocpOp) -> Self {
        op.payload->Accept_0.op
    }

    open spec fn untouched(self) -> Self {
        self
    }

    fn into_platform_op(self) -> IocpOp {
        IocpOp {
            header: OverlappedEntry::new(0),
            payload: IocpOpPayload::Accept(AcceptPayload { op: self, accept_buffer_len: ACCEPT_BUFFER_LEN }),
        }
    }

    fn from_platform_op(op: IocpOp) -> Self {
        match op.payload {
            IocpOpPayload::Accept(p) => p.op,
            _ => vstd::pervasive::unreached(),
        }
    }
}

impl IntoPlatformOp<IocpOp> for SendTo {
    open spec fn carried_by(self, op: IocpOp) -> bool {
        &&& op.header == blank_header()
        &&& op.payload matches IocpOpPayload::SendTo(p)
        &&& p.op == self
        &&& p.wsabuf == (WsaBuf { len: self.buf.len as u32, buf: self.buf.offset })
        &&& sockaddr::stores(p.addr, self.addr, windows::AF_INET6)
        &&& p.addr_len == sockaddr::addr_bytes(self.addr, windows::AF_INET6).len()
    }

    open spec fn fit(self) -> bool {
        true
    }

    open spec fn kind_of(op: IocpOp) -> bool {
        op.payload is SendTo
    }

    open spec fn carried(op: IocpOp) -> Self {
        op.payload->SendTo_0.op
    }

    open spec fn untouched(self) -> Self {
        self
    }

    fn into_platform_op(self) -> IocpOp {
        let (addr, addr_len) = windows::socket_addr_to_storage(self.addr);
        let wsabuf = WsaBuf { len: self.buf.len() as u32, buf: self.buf.offset };
        IocpOp {
            header: OverlappedEntry::new(0),
            payload: IocpOpPayload::SendTo(SendToPayload { op: self, wsabuf, addr, addr_len }),
        }
    }

    fn from_platform_op(op: IocpOp) -> Self {
        match op.payload {
            IocpOpPayload::SendTo(p) => p.op,
            _ => vstd::pervasive::unreached(),
        }
    }
}

impl IntoPlatformOp<IocpOp> for RecvFrom {
    open spec fn carried_by(self, op: IocpOp) -> bool {
        &&& op.header == blank_header()
        &&& op.payload matches IocpOpPayload::RecvFrom(p)
        &&& p.op == self
        &&& p.wsabuf == (WsaBuf { len: self.buf.cap as u32, buf: self.buf.offset })
        &&& p.flags == 0
        &&& p.addr.bytes@ == Seq::new(sockaddr::STORAGE_LEN as nat, |i: int| 0u8)
        &&& p.addr_len == sockaddr::STORAGE_LEN
    }

    open spec fn fit(self) -> bool {
        true
    }

    open spec fn kind_of(op: IocpOp) -> bool {
        op.payload is RecvFrom && op.sound()
    }

    open spec fn carried(op: IocpOp) -> Self {
        let p = op.payload->RecvFrom_0;
        RecvFrom {
            addr: sockaddr::addr_in(p.addr.bytes@.subrange(0, p.addr_len as int), windows::AF_INET6).ok(),
            ..p.op
        }
    }

    open spec fn untouched(self) -> Self {
        RecvFrom { addr: None, ..self }
    }

    fn into_platform_op(self) -> IocpOp {
        let wsabuf = WsaBuf { len: self.buf.capacity() as u32, buf: self.buf.offset };
        let addr = SockAddrStorage::zeroed();
        proof {
            let zeros = addr.bytes@.subrange(0, 128);
            assert(zeros =~= addr.bytes@);
            assert(sockaddr::from_le16(zeros) == 0);
            sockaddr::lemma_addr_in(zeros, windows::AF_INET6, Err(IoError::UnsupportedAddressFamily));
        }
        IocpOp {
            header: OverlappedEntry::new(0),
            payload: IocpOpPayload::RecvFrom(RecvFromPayload { op: self, wsabuf, flags: 0, addr, addr_len: 128 }),
        }
    }

    fn from_platform_op(op: IocpOp) -> Self {
        match op.payload {
            IocpOpPayload::RecvFrom(p) => {
                let addr: Option<SocketAddr> = match sockaddr::parse_storage(
                    &p.addr,
                    p.addr_len as u32,
                    windows::AF_INET6,
                ) {
                    Ok(a) => Some(a),
                    Err(_) => None,
                };
                RecvFrom { addr, ..p.op }
            },
            _ => vstd::pervasive::unreached(),
        }
    }
}

} // verus!
