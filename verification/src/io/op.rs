//! Operations: what a caller asks the driver to do.

use crate::error::IoError;
use crate::io::buffer::fixed_buf::FixedBuf;
use crate::io::socket::sockaddr::{self, SockAddrStorage, SocketAddr};
use crate::io::socket::unix;
use vstd::prelude::*;

verus! {

/// A file descriptor or a handle of the operating system.
#[derive(Debug, Clone, Copy, PartialEq, Eq, Structural)]
pub struct RawHandle {
    pub raw: i64,
}

/// What an operation works on: a raw handle, or a place in the table of
/// registered ones.
#[derive(Debug, Clone, Copy, PartialEq, Eq, Structural)]
pub enum IoFd {
    Raw(RawHandle),
    Fixed(u32),
}

impl IoFd {
    /// The handle, unless this is a registered one.
    pub fn raw(&self) -> (handle: Option<RawHandle>)
        ensures
            handle == (match *self {
                IoFd::Raw(h) => Some(h),
                IoFd::Fixed(_) => None,
            }),
    {
        match self {
            IoFd::Raw(fd) => Some(*fd),
            IoFd::Fixed(_) => None,
        }
    }

    pub fn from_raw(handle: RawHandle) -> (fd: Self)
        ensures
            fd == IoFd::Raw(handle),
    {
        IoFd::Raw(handle)
    }
}

/// A length of time.
#[derive(Debug, Clone, Copy, PartialEq, Eq, Structural)]
pub struct Timespan {
    pub secs: u64,
    pub nanos: u32,
}

/// Read at an offset into a buffer.
pub struct ReadFixed {
    pub fd: IoFd,
    pub buf: FixedBuf,
    pub offset: u64,
}

/// Write a buffer at an offset.
pub struct WriteFixed {
    pub fd: IoFd,
    pub buf: FixedBuf,
    pub offset: u64,
}

/// Receive from a socket into a buffer.
pub struct Recv {
    pub fd: IoFd,
    pub buf: FixedBuf,
}

/// Send a buffer to a socket.
pub struct Send {
    pub fd: IoFd,
    pub buf: FixedBuf,
}

/// Connect a socket.
pub struct Connect {
    pub fd: IoFd,
    pub addr: SockAddrStorage,
    pub addr_len: u32,
}

/// Open a file. The path lies in the buffer, with a zero behind it: UTF-8 on Unix,
/// UTF-16 on Windows.
#[derive(Debug)]
pub struct Open {
    pub path: FixedBuf,
    pub flags: i32,
    pub mode: u32,
}

/// Close a handle.
pub struct Close {
    pub fd: IoFd,
}

/// Flush a file to disk, or its data alone.
pub struct Fsync {
    pub fd: IoFd,
    pub datasync: bool,
}

/// Wait for a length of time.
pub struct Timeout {
    pub duration: Timespan,
}

/// Wake the event loop.
pub struct Wakeup {
    pub fd: IoFd,
}

/// Accept a connection. The kernel stores the peer's address.
pub struct Accept {
    pub fd: IoFd,
    pub addr: SockAddrStorage,
    pub addr_len: u32,
    pub remote_addr: Option<SocketAddr>,
}

/// Send a buffer to an address.
pub struct SendTo {
    pub fd: IoFd,
    pub buf: FixedBuf,
    pub addr: SocketAddr,
}

/// Receive into a buffer, with the sender's address.
pub struct RecvFrom {
    pub fd: IoFd,
    pub buf: FixedBuf,
    pub addr: Option<SocketAddr>,
}

/// Sync part of a file.
pub struct SyncFileRange {
    pub fd: IoFd,
    pub offset: u64,
    pub nbytes: u64,
    pub flags: u32,
}

/// Reserve space for a file.
pub struct Fallocate {
    pub fd: IoFd,
    pub mode: i32,
    pub offset: u64,
    pub len: u64,
}

/// Receive into a registered buffer, on Windows.
pub struct RioRecv {
    pub fd: IoFd,
    pub buf: FixedBuf,
}

/// Send a registered buffer, on Windows.
pub struct RioSend {
    pub fd: IoFd,
    pub buf: FixedBuf,
}

impl Wakeup {
    /// Wakes the event loop through a handle.
    pub fn new(fd: RawHandle) -> (op: Self)
        ensures
            op == (Wakeup { fd: IoFd::Raw(fd) }),
    {
        Wakeup { fd: IoFd::Raw(fd) }
    }
}

impl SendTo {
    /// Sends what a buffer holds to an address.
    pub fn new(fd: RawHandle, buf: FixedBuf, target: SocketAddr) -> (op: Self)
        ensures
            op == (SendTo { fd: IoFd::Raw(fd), buf, addr: target }),
    {
        SendTo { fd: IoFd::Raw(fd), buf, addr: target }
    }
}

impl RecvFrom {
    /// Receives into a buffer, from a sender that is not known yet.
    pub fn new(fd: RawHandle, buf: FixedBuf) -> (op: Self)
        ensures
            op == (RecvFrom { fd: IoFd::Raw(fd), buf, addr: None }),
    {
        RecvFrom { fd: IoFd::Raw(fd), buf, addr: None }
    }
}

/// An operation that has not been handed to a driver.
pub struct Op<T> {
    pub data: T,
}

impl<T> Op<T> {
    pub fn new(data: T) -> (op: Self)
        ensures
            op.data == data,
    {
        Op { data }
    }
}

/// How an operation is made from a handle, and what it gives once it is done.
pub trait OpLifecycle: Sized {
    /// What must be at hand before the operation is made.
    type PreAlloc;

    /// What a finished operation gives.
    type Output;

    /// Whether this is the operation on `fd` with what was at hand.
    spec fn is_op(self, fd: RawHandle, pre: Self::PreAlloc) -> bool;

    /// Whether the operation can tell its output.
    spec fn finished(self) -> bool;

    /// Whether `output` is what the operation gives when the driver reports `res`.
    spec fn gives(
        self,
        res: Result<usize, IoError>,
        output: Result<Self::Output, IoError>,
    ) -> bool;

    fn into_op(fd: RawHandle, pre: Self::PreAlloc) -> (op: Self)
        ensures
            op.is_op(fd, pre),
    ;

    fn into_output(self, res: Result<usize, IoError>) -> (output: Result<Self::Output, IoError>)
        requires
            self.finished(),
        ensures
            self.gives(res, output),
    ;
}

/// Whether `addr` is the address that the bytes hold, or the unspecified address
/// where they hold none.
pub open spec fn peer_of(bytes: Seq<u8>, addr: SocketAddr) -> bool {
    match sockaddr::addr_in(bytes, unix::AF_INET6) {
        Ok(a) => addr == a,
        Err(_) => sockaddr::is_unspecified(addr),
    }
}

impl OpLifecycle for Accept {
    type PreAlloc = ();

    type Output = (RawHandle, SocketAddr);

    open spec fn is_op(self, fd: RawHandle, pre: ()) -> bool {
        &&& self.fd == IoFd::Raw(fd)
        &&& self.addr.bytes@ == Seq::new(sockaddr::STORAGE_LEN as nat, |i: int| 0u8)
        &&& self.addr_len == sockaddr::STORAGE_LEN
        &&& self.remote_addr.is_none()
    }

    open spec fn finished(self) -> bool {
        self.addr_len <= sockaddr::STORAGE_LEN
    }

    open spec fn gives(
        self,
        res: Result<usize, IoError>,
        output: Result<(RawHandle, SocketAddr), IoError>,
    ) -> bool {
        match res {
            Ok(n) => {
                &&& output is Ok
                &&& output->Ok_0.0 == (RawHandle { raw: n as i64 })
                &&& match self.remote_addr {
                    Some(a) => output->Ok_0.1 == a,
                    None => peer_of(self.addr.bytes@.subrange(0, self.addr_len as int), output->Ok_0.1),
                }
            },
            Err(e) => output == Err::<(RawHandle, SocketAddr), IoError>(e),
        }
    }

    fn into_op(fd: RawHandle, pre: ()) -> Self {
        Accept { fd: IoFd::Raw(fd), addr: SockAddrStorage::zeroed(), addr_len: 128, remote_addr: None }
    }

    fn into_output(self, res: Result<usize, IoError>) -> Result<(RawHandle, SocketAddr), IoError> {
        match res {
            Ok(n) => {
                let addr: SocketAddr = match self.remote_addr {
                    Some(a) => a,
                    None => {
                        let parsed = sockaddr::parse_storage(&self.addr, self.addr_len, unix::AF_INET6);
                        match parsed {
                            Ok(a) => a,
                            Err(_) => SocketAddr::unspecified(),
                        }
                    },
                };
                Ok((RawHandle { raw: n as i64 }, addr))
            },
            Err(e) => Err(e),
        }
    }
}

} // verus!
