//! Operations in the form that the io_uring driver takes.

use crate::error::{self, IoError};
use crate::io::buffer::fixed_buf::NO_REGISTRATION_INDEX;
use crate::io::driver::platform::IntoPlatformOp;
use crate::io::driver::uring::queue::{Cqe, SqeEntry};
use crate::io::driver::PlatformOp;
use crate::io::op::{
    Accept, Close, Connect, Fallocate, Fsync, IoFd, Open, ReadFixed, Recv, RecvFrom, Send, SendTo, SyncFileRange,
    Timeout, Wakeup, WriteFixed,
};
use crate::io::socket::sockaddr::{self, SockAddrStorage};
use crate::io::socket::unix;
use vstd::prelude::*;

verus! {

/// The directory that relative paths start from.
pub const AT_FDCWD: i32 = -100;

/// A stretch of memory in a message.
#[derive(Debug, Clone, Copy, PartialEq, Eq, Structural)]
pub struct IoVec {
    pub base: usize,
    pub len: usize,
}

/// Head of a message: the length of the peer's name, and the number of stretches.
#[derive(Debug, Clone, Copy, PartialEq, Eq, Structural)]
pub struct MsgHdr {
    pub name_len: u32,
    pub iov_len: usize,
}

/// A datagram to send, with its destination.
pub struct SendToPayload {
    pub op: SendTo,
    pub msg_name: SockAddrStorage,
    pub msg_namelen: u32,
    pub iovec: IoVec,
    pub msghdr: MsgHdr,
}

/// A datagram to receive, with storage for its source.
pub struct RecvFromPayload {
    pub op: RecvFrom,
    pub msg_name: SockAddrStorage,
    pub msg_namelen: u32,
    pub iovec: IoVec,
    pub msghdr: MsgHdr,
}

pub struct OpenPayload {
    pub op: Open,
}

pub struct WakeupPayload {
    pub op: Wakeup,
    pub buf: [u8; 8],
}

/// A timeout in the form the kernel reads: seconds, and nanoseconds behind them.
pub struct TimeoutPayload {
    pub op: Timeout,
    pub ts: [i64; 2],
}

/// An operation of the io_uring driver.
pub enum UringOp {
    ReadFixed(ReadFixed),
    WriteFixed(WriteFixed),
    Recv(Recv),
    Send(Send),
    Connect(Connect),
    Close(Close),
    Fsync(Fsync),
    SyncFileRange(SyncFileRange),
    Fallocate(Fallocate),
    Accept(Accept),
    SendTo(SendToPayload),
    RecvFrom(RecvFromPayload),
    Open(OpenPayload),
    Timeout(TimeoutPayload),
    Wakeup(WakeupPayload),
}

impl PlatformOp for UringOp {
    open spec fn acceptable(self) -> bool {
        self.ready()
    }
}

/// The array of two numbers.
pub open spec fn pair_of(a: i64, b: i64) -> [i64; 2] {
    choose|p: [i64; 2]| #[trigger] p@ == seq![a, b]
}

pub proof fn lemma_pair(p: [i64; 2])
    ensures
        p == pair_of(p@[0], p@[1]),
{
    assert(p@ =~= seq![p@[0], p@[1]]);
    assert(p =~= pair_of(p@[0], p@[1]));
}

/// There is such an array.
pub proof fn lemma_pair_of(a: i64, b: i64)
    ensures
        pair_of(a, b)@ == seq![a, b],
{
    let p: [i64; 2] = [a, b];
    assert(p@ =~= seq![a, b]);
}

/// The array of eight zeros.
pub open spec fn zeros() -> [u8; 8] {
    choose|p: [u8; 8]| #[trigger] p@ == seq![0u8, 0u8, 0u8, 0u8, 0u8, 0u8, 0u8, 0u8]
}

proof fn lemma_zeros(p: [u8; 8])
    requires
        p@ == seq![0u8, 0u8, 0u8, 0u8, 0u8, 0u8, 0u8, 0u8],
    ensures
        p == zeros(),
{
    assert(p =~= zeros());
}

pub open spec fn read_entry(op: ReadFixed) -> SqeEntry {
    if op.buf.index == NO_REGISTRATION_INDEX {
        SqeEntry::Read { fd: op.fd, buf: op.buf.offset, len: op.buf.cap as u32, offset: op.offset }
    } else {
        SqeEntry::ReadFixed {
            fd: op.fd,
            buf: op.buf.offset,
            len: op.buf.cap as u32,
            buf_index: op.buf.index,
            offset: op.offset,
        }
    }
}

pub open spec fn write_entry(op: WriteFixed) -> SqeEntry {
    if op.buf.index == NO_REGISTRATION_INDEX {
        SqeEntry::Write { fd: op.fd, buf: op.buf.offset, len: op.buf.len as u32, offset: op.offset }
    } else {
        SqeEntry::WriteFixed {
            fd: op.fd,
            buf: op.buf.offset,
            len: op.buf.len as u32,
            buf_index: op.buf.index,
            offset: op.offset,
        }
    }
}

impl ReadFixed {
    /// Asks for a read into the whole buffer, through its registration where it
    /// has one.
    pub fn make_sqe(&self) -> (entry: SqeEntry)
        ensures
            entry == read_entry(*self),
            match entry {
                SqeEntry::Read { fd, buf, len, offset } => {
                    &&& fd == self.fd && buf == self.buf.offset && offset == self.offset
                    &&& self.buf.cap <= u32::MAX ==> len == self.buf.cap
                },
                SqeEntry::ReadFixed { fd, buf, len, buf_index, offset } => {
                    &&& fd == self.fd && buf == self.buf.offset && offset == self.offset
                    &&& buf_index == self.buf.index
                    &&& self.buf.cap <= u32::MAX ==> len == self.buf.cap
                },
                _ => false,
            },
    {
        let buf_index: u16 = self.buf.buf_index();
        if buf_index == NO_REGISTRATION_INDEX {
            SqeEntry::Read {
                fd: self.fd,
                buf: self.buf.offset,
                len: self.buf.capacity() as u32,
                offset: self.offset,
            }
        } else {
            SqeEntry::ReadFixed {
                fd: self.fd,
                buf: self.buf.offset,
                len: self.buf.capacity() as u32,
                buf_index,
                offset: self.offset,
            }
        }
    }
}

impl WriteFixed {
    /// Asks for a write of the used part of the buffer, through its registration
    /// where it has one.
    pub fn make_sqe(&self) -> (entry: SqeEntry)
        ensures
            entry == write_entry(*self),
            match entry {
                SqeEntry::Write { fd, buf, len, offset } => {
                    &&& fd == self.fd && buf == self.buf.offset && offset == self.offset
                    &&& self.buf.len <= u32::MAX ==> len == self.buf.len
                },
                SqeEntry::WriteFixed { fd, buf, len, buf_index, offset } => {
                    &&& fd == self.fd && buf == self.buf.offset && offset == self.offset
                    &&& buf_index == self.buf.index
                    &&& self.buf.len <= u32::MAX ==> len == self.buf.len
                },
                _ => false,
            },
    {
        let buf_index: u16 = self.buf.buf_index();
        if buf_index == NO_REGISTRATION_INDEX {
            SqeEntry::Write { fd: self.fd, buf: self.buf.offset, len: self.buf.len() as u32, offset: self.offset }
        } else {
            SqeEntry::WriteFixed {
                fd: self.fd,
                buf: self.buf.offset,
                len: self.buf.len() as u32,
                buf_index,
                offset: self.offset,
            }
        }
    }
}

/// An accepting operation once the kernel has stored the peer's name.
pub open spec fn accepted(op: Accept, cqe: Cqe) -> Accept {
    let stored = match cqe.peer {
        Some((name, len)) => Accept { addr: name, addr_len: len, ..op },
        None => op,
    };
    if cqe.result >= 0 {
        match sockaddr::addr_in(stored.addr.bytes@.subrange(0, stored.addr_len as int), unix::AF_INET6) {
            Ok(a) => Accept { remote_addr: Some(a), ..stored },
            Err(_) => stored,
        }
    } else {
        stored
    }
}

impl Accept {
    /// Stores the peer's name, and reads it where the connection succeeded.
    pub fn on_complete(&mut self, cqe: &Cqe) -> (outcome: Result<usize, IoError>)
        requires
            cqe.valid(),
            old(self).addr_len <= sockaddr::STORAGE_LEN,
        ensures
            outcome == error::kernel_outcome(cqe.result),
            *final(self) == accepted(*old(self), *cqe),
            final(self).addr_len <= sockaddr::STORAGE_LEN,
    {
        if let Some((name, len)) = cqe.peer {
            self.addr = name;
            self.addr_len = len;
        }
        if cqe.result >= 0 {
            if let Ok(addr) = sockaddr::parse_storage(&self.addr, self.addr_len, unix::AF_INET6) {
                self.remote_addr = Some(addr);
            }
        }
        error::from_kernel(cqe.result)
    }
}

/// A receiving operation once the kernel has stored the sender's name.
pub open spec fn received(p: RecvFromPayload, cqe: Cqe) -> RecvFromPayload {
    let stored = match cqe.peer {
        Some((name, len)) => RecvFromPayload { msg_name: name, msg_namelen: len, ..p },
        None => p,
    };
    if cqe.result >= 0 {
        match sockaddr::addr_in(stored.msg_name.bytes@.subrange(0, stored.msg_namelen as int), unix::AF_INET6) {
            Ok(a) => RecvFromPayload { op: RecvFrom { addr: Some(a), ..stored.op }, ..stored },
            Err(_) => stored,
        }
    } else {
        stored
    }
}

impl RecvFromPayload {
    /// How long the sender's name is.
    pub fn get_addr_len(&self) -> (len: usize)
        ensures
            len == self.msghdr.name_len,
    {
        self.msghdr.name_len as usize
    }

    /// Stores the sender's name, and reads it where something was received.
    pub fn on_complete(&mut self, cqe: &Cqe) -> (outcome: Result<usize, IoError>)
        requires
            cqe.valid(),
            old(self).msg_namelen <= sockaddr::STORAGE_LEN,
        ensures
            outcome == error::kernel_outcome(cqe.result),
            *final(self) == received(*old(self), *cqe),
            final(self).msg_namelen <= sockaddr::STORAGE_LEN,
    {
        if let Some((name, len)) = cqe.peer {
            self.msg_name = name;
            self.msg_namelen = len;
        }
        if cqe.result >= 0 {
            if let Ok(addr) = sockaddr::parse_storage(&self.msg_name, self.msg_namelen, unix::AF_INET6) {
                self.op.addr = Some(addr);
            }
        }
        error::from_kernel(cqe.result)
    }
}

impl UringOp {
    /// The event loop is woken through a raw handle, and names fit into their
    /// storage.
    pub open spec fn ready(self) -> bool {
        match self {
            UringOp::Wakeup(p) => p.op.fd is Raw,
            UringOp::Accept(op) => op.addr_len <= sockaddr::STORAGE_LEN,
            UringOp::RecvFrom(p) => p.msg_namelen <= sockaddr::STORAGE_LEN,
            _ => true,
        }
    }

    /// What the kernel is asked to do for the operation.
    pub open spec fn entry(self) -> SqeEntry {
        match self {
            UringOp::ReadFixed(op) => read_entry(op),
            UringOp::WriteFixed(op) => write_entry(op),
            UringOp::Recv(op) => SqeEntry::Recv { fd: op.fd, buf: op.buf.offset, len: op.buf.cap as u32 },
            UringOp::Send(op) => SqeEntry::Send { fd: op.fd, buf: op.buf.offset, len: op.buf.len as u32 },
            UringOp::Connect(op) => SqeEntry::Connect { fd: op.fd, addr: op.addr, addr_len: op.addr_len },
            UringOp::Close(op) => SqeEntry::Close { fd: op.fd },
            UringOp::Fsync(op) => SqeEntry::Fsync { fd: op.fd, datasync: op.datasync },
            UringOp::SyncFileRange(op) => SqeEntry::SyncFileRange {
                fd: op.fd,
                len: op.nbytes as u32,
                offset: op.offset,
                flags: op.flags,
            },
            UringOp::Fallocate(op) => SqeEntry::Fallocate {
                fd: op.fd,
                len: op.len,
                offset: op.offset,
                mode: op.mode,
            },
            UringOp::Accept(op) => SqeEntry::Accept { fd: op.fd, addr_len: op.addr_len },
            UringOp::SendTo(p) => SqeEntry::SendMsg {
                fd: p.op.fd,
                name: p.msg_name,
                name_len: p.msg_namelen,
                buf: p.op.buf.offset,
                len: p.op.buf.len,
            },
            UringOp::RecvFrom(p) => SqeEntry::RecvMsg {
                fd: p.op.fd,
                name_len: 128,
                buf: p.op.buf.offset,
                len: p.op.buf.cap,
            },
            UringOp::Open(p) => SqeEntry::OpenAt {
                dir_fd: AT_FDCWD,
                path: p.op.path.offset,
                flags: p.op.flags,
                mode: p.op.mode,
            },
            UringOp::Timeout(p) => SqeEntry::Timeout {
                secs: p.op.duration.secs as i64,
                nanos: p.op.duration.nanos as i64,
            },
            UringOp::Wakeup(p) => SqeEntry::ReadToken { fd: p.op.fd->Raw_0, len: 8 },
        }
    }

    /// The operation with what the kernel reads filled in.
    pub open spec fn prepared(self) -> UringOp {
        match self {
            UringOp::SendTo(p) => UringOp::SendTo(
                SendToPayload {
                    iovec: IoVec { base: p.op.buf.offset, len: p.op.buf.len },
                    msghdr: MsgHdr { name_len: p.msg_namelen, iov_len: 1 },
                    ..p
                },
            ),
            UringOp::RecvFrom(p) => UringOp::RecvFrom(
                RecvFromPayload {
                    iovec: IoVec { base: p.op.buf.offset, len: p.op.buf.cap },
                    msghdr: MsgHdr { name_len: 128, iov_len: 1 },
                    ..p
                },
            ),
            UringOp::Timeout(p) => UringOp::Timeout(
                TimeoutPayload {
                    ts: pair_of(p.op.duration.secs as i64, p.op.duration.nanos as i64),
                    ..p
                },
            ),
            _ => self,
        }
    }

    /// The operation once the kernel has reported on it.
    pub open spec fn completed(self, cqe: Cqe) -> UringOp {
        match self {
            UringOp::Accept(op) => UringOp::Accept(accepted(op, cqe)),
            UringOp::RecvFrom(p) => UringOp::RecvFrom(received(p, cqe)),
            _ => self,
        }
    }

    /// Fills in what the kernel reads, and tells what the kernel is asked to do.
    pub fn make_sqe(&mut self) -> (entry: SqeEntry)
        requires
            old(self).ready(),
        ensures
            entry == old(self).entry(),
            *final(self) == old(self).prepared(),
            final(self).ready(),
            final(self).entry() == entry,
    {
        match self {
            UringOp::ReadFixed(op) => op.make_sqe(),
            UringOp::WriteFixed(op) => op.make_sqe(),
            UringOp::Recv(op) => SqeEntry::Recv {
                fd: op.fd,
                buf: op.buf.offset,
                len: op.buf.capacity() as u32,
            },
            UringOp::Send(op) => SqeEntry::Send { fd: op.fd, buf: op.buf.offset, len: op.buf.len() as u32 },
            UringOp::Connect(op) => SqeEntry::Connect { fd: op.fd, addr: op.addr, addr_len: op.addr_len },
            UringOp::Close(op) => SqeEntry::Close { fd: op.fd },
            UringOp::Fsync(op) => SqeEntry::Fsync { fd: op.fd, datasync: op.datasync },
            UringOp::SyncFileRange(op) => SqeEntry::SyncFileRange {
                fd: op.fd,
                len: op.nbytes as u32,
                offset: op.offset,
                flags: op.flags,
            },
            UringOp::Fallocate(op) => SqeEntry::Fallocate {
                fd: op.fd,
                len: op.len,
                offset: op.offset,
                mode: op.mode,
            },
            UringOp::Accept(op) => SqeEntry::Accept { fd: op.fd, addr_len: op.addr_len },
            UringOp::SendTo(p) => {
                p.iovec = IoVec { base: p.op.buf.offset, len: p.op.buf.len() };
                p.msghdr = MsgHdr { name_len: p.msg_namelen, iov_len: 1 };
                SqeEntry::SendMsg {
                    fd: p.op.fd,
                    name: p.msg_name,
                    name_len: p.msg_namelen,
                    buf: p.iovec.base,
                    len: p.iovec.len,
                }
            },
            UringOp::RecvFrom(p) => {
                p.iovec = IoVec { base: p.op.buf.offset, len: p.op.buf.capacity() };
                p.msghdr = MsgHdr { name_len: 128, iov_len: 1 };
                SqeEntry::RecvMsg {
                    fd: p.op.fd,
                    name_len: p.msghdr.name_len,
                    buf: p.iovec.base,
                    len: p.iovec.len,
                }
            },
            UringOp::Open(p) => SqeEntry::OpenAt {
                dir_fd: AT_FDCWD,
                path: p.op.path.offset,
                flags: p.op.flags,
                mode: p.op.mode,
            },
            UringOp::Timeout(p) => {
                p.ts = [p.op.duration.secs as i64, p.op.duration.nanos as i64];
                proof {
                    lemma_pair(p.ts);
                }
                SqeEntry::Timeout { secs: p.ts[0], nanos: p.ts[1] }
            },
            UringOp::Wakeup(p) => match p.op.fd {
                IoFd::Raw(fd) => SqeEntry::ReadToken { fd, len: 8 },
                IoFd::Fixed(_) => vstd::pervasive::unreached(),
            },
        }
    }

    /// Takes in what the kernel reported.
    pub fn on_complete(&mut self, cqe: &Cqe) -> (outcome: Result<usize, IoError>)
        requires
            old(self).ready(),
            cqe.valid(),
        ensures
            outcome == error::kernel_outcome(cqe.result),
            *final(self) == old(self).completed(*cqe),
            final(self).ready(),
    {
        match self {
            UringOp::Accept(op) => op.on_complete(cqe),
            UringOp::RecvFrom(p) => p.on_complete(cqe),
            _ => error::from_kernel(cqe.result),
        }
    }

    /// What the operation works on, where it works on something open.
    pub open spec fn fd_of(self) -> Option<IoFd> {
        match self {
            UringOp::ReadFixed(op) => Some(op.fd),
            UringOp::WriteFixed(op) => Some(op.fd),
            UringOp::Recv(op) => Some(op.fd),
            UringOp::Send(op) => Some(op.fd),
            UringOp::Connect(op) => Some(op.fd),
            UringOp::Close(op) => Some(op.fd),
            UringOp::Fsync(op) => Some(op.fd),
            UringOp::SyncFileRange(op) => Some(op.fd),
            UringOp::Fallocate(op) => Some(op.fd),
            UringOp::Accept(op) => Some(op.fd),
            UringOp::SendTo(p) => Some(p.op.fd),
            UringOp::RecvFrom(p) => Some(p.op.fd),
            UringOp::Wakeup(p) => Some(p.op.fd),
            UringOp::Open(_) | UringOp::Timeout(_) => None,
        }
    }

    pub fn get_fd(&self) -> (fd: Option<IoFd>)
        ensures
            fd == self.fd_of(),
    {
        match self {
            UringOp::ReadFixed(op) => Some(op.fd),
            UringOp::WriteFixed(op) => Some(op.fd),
            UringOp::Recv(op) => Some(op.fd),
            UringOp::Send(op) => Some(op.fd),
            UringOp::Connect(op) => Some(op.fd),
            UringOp::Close(op) => Some(op.fd),
            UringOp::Fsync(op) => Some(op.fd),
            UringOp::SyncFileRange(op) => Some(op.fd),
            UringOp::Fallocate(op) => Some(op.fd),
            UringOp::Accept(op) => Some(op.fd),
            UringOp::SendTo(p) => Some(p.op.fd),
            UringOp::RecvFrom(p) => Some(p.op.fd),
            UringOp::Wakeup(p) => Some(p.op.fd),
            UringOp::Open(_) | UringOp::Timeout(_) => None,
        }
    }

    pub fn is_close(&self) -> (close: bool)
        ensures
            close == (*self is Close),
    {
        match self {
            UringOp::Close(_) => true,
            _ => false,
        }
    }
}

impl IntoPlatformOp<UringOp> for ReadFixed {
    open spec fn carried_by(self, op: UringOp) -> bool {
        op == UringOp::ReadFixed(self)
    }

    open spec fn fit(self) -> bool {
        true
    }

    open spec fn kind_of(op: UringOp) -> bool {
        op is ReadFixed
    }

    open spec fn carried(op: UringOp) -> Self {
        op->ReadFixed_0
    }

    open spec fn untouched(self) -> Self {
        self
    }

    fn into_platform_op(self) -> UringOp {
        UringOp::ReadFixed(self)
    }

    fn from_platform_op(op: UringOp) -> Self {
        match op {
            UringOp::ReadFixed(inner) => inner,
            _ => vstd::pervasive::unreached(),
        }
    }
}

impl IntoPlatformOp<UringOp> for WriteFixed {
    open spec fn carried_by(self, op: UringOp) -> bool {
        op == UringOp::WriteFixed(self)
    }

    open spec fn fit(self) -> bool {
        true
    }

    open spec fn kind_of(op: UringOp) -> bool {
        op is WriteFixed
    }

    open spec fn carried(op: UringOp) -> Self {
        op->WriteFixed_0
    }

    open spec fn untouched(self) -> Self {
        self
    }

    fn into_platform_op(self) -> UringOp {
        UringOp::WriteFixed(self)
    }

    fn from_platform_op(op: UringOp) -> Self {
        match op {
            UringOp::WriteFixed(inner) => inner,
            _ => vstd::pervasive::unreached(),
        }
    }
}

impl IntoPlatformOp<UringOp> for Recv {
    open spec fn carried_by(self, op: UringOp) -> bool {
        op == UringOp::Recv(self)
    }

    open spec fn fit(self) -> bool {
        true
    }

    open spec fn kind_of(op: UringOp) -> bool {
        op is Recv
    }

    open spec fn carried(op: UringOp) -> Self {
        op->Recv_0
    }

    open spec fn untouched(self) -> Self {
        self
    }

    fn into_platform_op(self) -> UringOp {
        UringOp::Recv(self)
    }

    fn from_platform_op(op: UringOp) -> Self {
        match op {
            UringOp::Recv(inner) => inner,
            _ => vstd::pervasive::unreached(),
        }
    }
}

impl IntoPlatformOp<UringOp> for Send {
    open spec fn carried_by(self, op: UringOp) -> bool {
        op == UringOp::Send(self)
    }

    open spec fn fit(self) -> bool {
        true
    }

    open spec fn kind_of(op: UringOp) -> bool {
        op is Send
    }

    open spec fn carried(op: UringOp) -> Self {
        op->Send_0
    }

    open spec fn untouched(self) -> Self {
        self
    }

    fn into_platform_op(self) -> UringOp {
        UringOp::Send(self)
    }

    fn from_platform_op(op: UringOp) -> Self {
        match op {
            UringOp::Send(inner) => inner,
            _ => vstd::pervasive::unreached(),
        }
    }
}

impl IntoPlatformOp<UringOp> for Connect {
    open spec fn carried_by(self, op: UringOp) -> bool {
        op == UringOp::Connect(self)
    }

    open spec fn fit(self) -> bool {
        true
    }

    open spec fn kind_of(op: UringOp) -> bool {
        op is Connect
    }

    open spec fn carried(op: UringOp) -> Self {
        op->Connect_0
    }

    open spec fn untouched(self) -> Self {
        self
    }

    fn into_platform_op(self) -> UringOp {
        UringOp::Connect(self)
    }

    fn from_platform_op(op: UringOp) -> Self {
        match op {
            UringOp::Connect(inner) => inner,
            _ => vstd::pervasive::unreached(),
        }
    }
}

impl IntoPlatformOp<UringOp> for Close {
    open spec fn carried_by(self, op: UringOp) -> bool {
        op == UringOp::Close(self)
    }

    open spec fn fit(self) -> bool {
        true
    }

    open spec fn kind_of(op: UringOp) -> bool {
        op is Close
    }

    open spec fn carried(op: UringOp) -> Self {
        op->Close_0
    }

    open spec fn untouched(self) -> Self {
        self
    }

    fn into_platform_op(self) -> UringOp {
        UringOp::Close(self)
    }

    fn from_platform_op(op: UringOp) -> Self {
        match op {
            UringOp::Close(inner) => inner,
            _ => vstd::pervasive::unreached(),
        }
    }
}

impl IntoPlatformOp<UringOp> for Fsync {
    open spec fn carried_by(self, op: UringOp) -> bool {
        op == UringOp::Fsync(self)
    }

    open spec fn fit(self) -> bool {
        true
    }

    open spec fn kind_of(op: UringOp) -> bool {
        op is Fsync
    }

    open spec fn carried(op: UringOp) -> Self {
        op->Fsync_0
    }

    open spec fn untouched(self) -> Self {
        self
    }

    fn into_platform_op(self) -> UringOp {
        UringOp::Fsync(self)
    }

    fn from_platform_op(op: UringOp) -> Self {
        match op {
            UringOp::Fsync(inner) => inner,
            _ => vstd::pervasive::unreached(),
        }
    }
}

impl IntoPlatformOp<UringOp> for SyncFileRange {
    open spec fn carried_by(self, op: UringOp) -> bool {
        op == UringOp::SyncFileRange(self)
    }

    open spec fn fit(self) -> bool {
        true
    }

    open spec fn kind_of(op: UringOp) -> bool {
        op is SyncFileRange
    }

    open spec fn carried(op: UringOp) -> Self {
        op->SyncFileRange_0
    }

    open spec fn untouched(self) -> Self {
        self
    }

    fn into_platform_op(self) -> UringOp {
        UringOp::SyncFileRange(self)
    }

    fn from_platform_op(op: UringOp) -> Self {
        match op {
            UringOp::SyncFileRange(inner) => inner,
            _ => vstd::pervasive::unreached(),
        }
    }
}

impl IntoPlatformOp<UringOp> for Fallocate {
    open spec fn carried_by(self, op: UringOp) -> bool {
        op == UringOp::Fallocate(self)
    }

    open spec fn fit(self) -> bool {
        true
    }

    open spec fn kind_of(op: UringOp) -> bool {
        op is Fallocate
    }

    open spec fn carried(op: UringOp) -> Self {
        op->Fallocate_0
    }

    open spec fn untouched(self) -> Self {
        self
    }

    fn into_platform_op(self) -> UringOp {
        UringOp::Fallocate(self)
    }

    fn from_platform_op(op: UringOp) -> Self {
        match op {
            UringOp::Fallocate(inner) => inner,
            _ => vstd::pervasive::unreached(),
        }
    }
}

impl IntoPlatformOp<UringOp> for Accept {
    open spec fn carried_by(self, op: UringOp) -> bool {
        op == UringOp::Accept(self)
    }

    open spec fn fit(self) -> bool {
        self.addr_len <= sockaddr::STORAGE_LEN
    }

    open spec fn kind_of(op: UringOp) -> bool {
        op is Accept
    }

    open spec fn carried(op: UringOp) -> Self {
        op->Accept_0
    }

    open spec fn untouched(self) -> Self {
        self
    }

    fn into_platform_op(self) -> UringOp {
        UringOp::Accept(self)
    }

    fn from_platform_op(op: UringOp) -> Self {
        match op {
            UringOp::Accept(inner) => inner,
            _ => vstd::pervasive::unreached(),
        }
    }
}

impl IntoPlatformOp<UringOp> for SendTo {
    open spec fn carried_by(self, op: UringOp) -> bool {
        &&& op matches UringOp::SendTo(p)
        &&& p.op == self
        &&& sockaddr::stores(p.msg_name, self.addr, unix::AF_INET6)
        &&& p.msg_namelen == sockaddr::addr_bytes(self.addr, unix::AF_INET6).len()
        &&& p.iovec == (IoVec { base: 0, len: 0 })
        &&& p.msghdr == (MsgHdr { name_len: 0, iov_len: 0 })
    }

    open spec fn fit(self) -> bool {
        true
    }

    open spec fn kind_of(op: UringOp) -> bool {
        op is SendTo
    }

    open spec fn carried(op: UringOp) -> Self {
        op->SendTo_0.op
    }

    open spec fn untouched(self) -> Self {
        self
    }

    fn into_platform_op(self) -> UringOp {
        let (msg_name, msg_namelen) = unix::socket_addr_to_storage(self.addr);
        UringOp::SendTo(
            SendToPayload {
                op: self,
                msg_name,
                msg_namelen: msg_namelen as u32,
                iovec: IoVec { base: 0, len: 0 },
                msghdr: MsgHdr { name_len: 0, iov_len: 0 },
            },
        )
    }

    fn from_platform_op(op: UringOp) -> Self {
        match op {
            UringOp::SendTo(p) => p.op,
            _ => vstd::pervasive::unreached(),
        }
    }
}

impl IntoPlatformOp<UringOp> for RecvFrom {
    open spec fn carried_by(self, op: UringOp) -> bool {
        &&& op matches UringOp::RecvFrom(p)
        &&& p.op == self
        &&& p.msg_name.bytes@ == Seq::new(sockaddr::STORAGE_LEN as nat, |i: int| 0u8)
        &&& p.msg_namelen == sockaddr::STORAGE_LEN
        &&& p.iovec == (IoVec { base: 0, len: 0 })
        &&& p.msghdr == (MsgHdr { name_len: 0, iov_len: 0 })
    }

    open spec fn fit(self) -> bool {
        true
    }

    open spec fn kind_of(op: UringOp) -> bool {
        op is RecvFrom
    }

    open spec fn carried(op: UringOp) -> Self {
        op->RecvFrom_0.op
    }

    open spec fn untouched(self) -> Self {
        self
    }

    fn into_platform_op(self) -> UringOp {
        UringOp::RecvFrom(
            RecvFromPayload {
                op: self,
                msg_name: SockAddrStorage::zeroed(),
                msg_namelen: 128,
                iovec: IoVec { base: 0, len: 0 },
                msghdr: MsgHdr { name_len: 0, iov_len: 0 },
            },
        )
    }

    fn from_platform_op(op: UringOp) -> Self {
        match op {
            UringOp::RecvFrom(p) => p.op,
            _ => vstd::pervasive::unreached(),
        }
    }
}

impl IntoPlatformOp<UringOp> for Open {
    open spec fn carried_by(self, op: UringOp) -> bool {
        &&& op matches UringOp::Open(p)
        &&& p.op == self
    }

    open spec fn fit(self) -> bool {
        true
    }

    open spec fn kind_of(op: UringOp) -> bool {
        op is Open
    }

    open spec fn carried(op: UringOp) -> Self {
        op->Open_0.op
    }

    open spec fn untouched(self) -> Self {
        self
    }

    fn into_platform_op(self) -> UringOp {
        UringOp::Open(OpenPayload { op: self })
    }

    fn from_platform_op(op: UringOp) -> Self {
        match op {
            UringOp::Open(p) => p.op,
            _ => vstd::pervasive::unreached(),
        }
    }
}

impl IntoPlatformOp<UringOp> for Wakeup {
    open spec fn carried_by(self, op: UringOp) -> bool {
        &&& op matches UringOp::Wakeup(p)
        &&& p.op == self
        &&& p.buf == zeros()
    }

    open spec fn fit(self) -> bool {
        self.fd is Raw
    }

    open spec fn kind_of(op: UringOp) -> bool {
        op is Wakeup
    }

    open spec fn carried(op: UringOp) -> Self {
        op->Wakeup_0.op
    }

    open spec fn untouched(self) -> Self {
        self
    }

    fn into_platform_op(self) -> UringOp {
        let buf: [u8; 8] = [0, 0, 0, 0, 0, 0, 0, 0];
        proof {
            assert(buf@ =~= seq![0u8, 0u8, 0u8, 0u8, 0u8, 0u8, 0u8, 0u8]);
            lemma_zeros(buf);
        }
        UringOp::Wakeup(WakeupPayload { op: self, buf })
    }

    fn from_platform_op(op: UringOp) -> Self {
        match op {
            UringOp::Wakeup(p) => p.op,
            _ => vstd::pervasive::unreached(),
        }
    }
}

impl IntoPlatformOp<UringOp> for Timeout {
    open spec fn carried_by(self, op: UringOp) -> bool {
        &&& op matches UringOp::Timeout(p)
        &&& p.op == self
        &&& p.ts@ == seq![0i64, 0i64]
    }

    open spec fn fit(self) -> bool {
        true
    }

    open spec fn kind_of(op: UringOp) -> bool {
        op is Timeout
    }

    open spec fn carried(op: UringOp) -> Self {
        op->Timeout_0.op
    }

    open spec fn untouched(self) -> Self {
        self
    }

    fn into_platform_op(self) -> UringOp {
        let ts: [i64; 2] = [0, 0];
        assert(ts@ =~= seq![0i64, 0i64]);
        UringOp::Timeout(TimeoutPayload { op: self, ts })
    }

    fn from_platform_op(op: UringOp) -> Self {
        match op {
            UringOp::Timeout(p) => p.op,
            _ => vstd::pervasive::unreached(),
        }
    }
}

} // verus!
