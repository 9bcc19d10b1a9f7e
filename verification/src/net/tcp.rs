//! Connections.

use crate::error::IoError;
use crate::io::buffer::fixed_buf::FixedBuf;
use crate::io::driver::iocp::op::Accept as PortAccept;
use crate::io::op::{Accept, Connect, IoFd, OpLifecycle, RawHandle, ReadFixed, WriteFixed};
use crate::io::socket::sockaddr::{self, SocketAddr};
use crate::io::socket::unix::{self, socket_addr_to_storage};
use crate::io::socket::windows;
use crate::net::bind::{self, first_addr, tcp_kind, Binding, SocketKind, BACKLOG};
use vstd::prelude::*;

verus! {

/// A socket that accepts connections.
#[derive(Debug, Clone, Copy, PartialEq, Eq, Structural)]
pub struct TcpListener {
    pub fd: RawHandle,
}

/// A connection.
#[derive(Debug, Clone, Copy, PartialEq, Eq, Structural)]
pub struct TcpStream {
    pub fd: RawHandle,
}

impl TcpListener {
    /// What to bind to: the first of the addresses.
    pub fn bind(addrs: &Vec<SocketAddr>) -> (binding: Result<Binding, IoError>)
        ensures
            match binding {
                Ok(b) => {
                    &&& addrs@.len() > 0
                    &&& b == (Binding {
                        kind: bind::tcp_kind_of(addrs@[0]),
                        addr: addrs@[0],
                        backlog: Some(BACKLOG),
                    })
                },
                Err(e) => addrs@.len() == 0 && e is NoAddress,
            },
    {
        match first_addr(addrs) {
            Ok(addr) => Ok(Binding { kind: tcp_kind(&addr), addr, backlog: Some(BACKLOG) }),
            Err(e) => Err(e),
        }
    }

    /// The operation that accepts a connection on Unix.
    pub fn accept(&self) -> (op: Accept)
        ensures
            op.is_op(self.fd, ()),
    {
        Accept::into_op(self.fd, ())
    }

    /// The operation that accepts a connection on Windows, into a socket that is made
    /// beforehand.
    pub fn accept_windows(&self, socket: RawHandle) -> (op: PortAccept)
        ensures
            op.is_op(self.fd, socket),
    {
        PortAccept::into_op(self.fd, socket)
    }

    /// The connection that an operation accepted on Windows, and its peer.
    pub fn accepted_windows(op: PortAccept, res: Result<usize, IoError>) -> (accepted: Result<
        (TcpStream, SocketAddr),
        IoError,
    >)
        ensures
            op.gives(
                res,
                match accepted {
                    Ok((stream, addr)) => Ok((stream.fd, addr)),
                    Err(e) => Err(e),
                },
            ),
    {
        match op.into_output(res) {
            Ok((fd, addr)) => Ok((TcpStream { fd }, addr)),
            Err(e) => Err(e),
        }
    }

    /// The connection that an operation accepted on Unix, and its peer.
    pub fn accepted(op: Accept, res: Result<usize, IoError>) -> (accepted: Result<
        (TcpStream, SocketAddr),
        IoError,
    >)
        requires
            op.finished(),
        ensures
            op.gives(
                res,
                match accepted {
                    Ok((stream, addr)) => Ok((stream.fd, addr)),
                    Err(e) => Err(e),
                },
            ),
    {
        match op.into_output(res) {
            Ok((fd, addr)) => Ok((TcpStream { fd }, addr)),
            Err(e) => Err(e),
        }
    }
}

/// The operation that connects a socket on Unix.
pub fn connect_op(fd: RawHandle, addr: SocketAddr) -> (op: Connect)
    ensures
        op.fd == IoFd::Raw(fd),
        sockaddr::stores(op.addr, addr, unix::AF_INET6),
        op.addr_len == sockaddr::addr_bytes(addr, unix::AF_INET6).len(),
{
    let (storage, len) = socket_addr_to_storage(addr);
    proof {
        sockaddr::lemma_addr_len(addr, unix::AF_INET6);
    }
    Connect { fd: IoFd::Raw(fd), addr: storage, addr_len: len as u32 }
}

/// The operation that connects a socket on Windows.
pub fn connect_op_windows(fd: RawHandle, addr: SocketAddr) -> (op: Connect)
    ensures
        op.fd == IoFd::Raw(fd),
        sockaddr::stores(op.addr, addr, windows::AF_INET6),
        op.addr_len == sockaddr::addr_bytes(addr, windows::AF_INET6).len(),
{
    let (storage, len) = windows::socket_addr_to_storage(addr);
    proof {
        sockaddr::lemma_addr_len(addr, windows::AF_INET6);
    }
    Connect { fd: IoFd::Raw(fd), addr: storage, addr_len: len as u32 }
}

impl TcpStream {
    /// The socket to make for a connection to an address.
    pub fn socket_for(addr: &SocketAddr) -> (kind: SocketKind)
        ensures
            kind == bind::tcp_kind_of(*addr),
    {
        tcp_kind(addr)
    }

    /// The operation that connects a new socket on Unix.
    pub fn connect(fd: RawHandle, addr: SocketAddr) -> (op: Connect)
        ensures
            op.fd == IoFd::Raw(fd),
            sockaddr::stores(op.addr, addr, unix::AF_INET6),
            op.addr_len == sockaddr::addr_bytes(addr, unix::AF_INET6).len(),
    {
        connect_op(fd, addr)
    }

    /// The operation that connects a new socket on Windows.
    pub fn connect_windows(fd: RawHandle, addr: SocketAddr) -> (op: Connect)
        ensures
            op.fd == IoFd::Raw(fd),
            sockaddr::stores(op.addr, addr, windows::AF_INET6),
            op.addr_len == sockaddr::addr_bytes(addr, windows::AF_INET6).len(),
    {
        connect_op_windows(fd, addr)
    }

    /// The connection, once the operation is done.
    pub fn connected(fd: RawHandle, res: Result<usize, IoError>) -> (stream: Result<TcpStream, IoError>)
        ensures
            stream == (match res {
                Ok(_) => Ok(TcpStream { fd }),
                Err(e) => Err(e),
            }),
    {
        match res {
            Ok(_) => Ok(TcpStream { fd }),
            Err(e) => Err(e),
        }
    }

    /// The operation that receives into a buffer.
    pub fn recv(&self, buf: FixedBuf) -> (op: ReadFixed)
        ensures
            op == (ReadFixed { fd: IoFd::Raw(self.fd), buf, offset: 0 }),
    {
        ReadFixed { fd: IoFd::Raw(self.fd), buf, offset: 0 }
    }

    /// The operation that sends what a buffer holds.
    pub fn send(&self, buf: FixedBuf) -> (op: WriteFixed)
        ensures
            op == (WriteFixed { fd: IoFd::Raw(self.fd), buf, offset: 0 }),
    {
        WriteFixed { fd: IoFd::Raw(self.fd), buf, offset: 0 }
    }
}

} // verus!
