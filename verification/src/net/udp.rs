//! Datagrams.

use crate::error::IoError;
use crate::io::buffer::fixed_buf::FixedBuf;
use crate::io::op::{Connect, IoFd, RawHandle, Recv, RecvFrom, Send, SendTo};
use crate::io::socket::sockaddr::{self, SocketAddr};
use crate::io::socket::{unix, windows};
use crate::net::bind::{self, first_addr, udp_kind, Binding};
use crate::net::tcp::{connect_op, connect_op_windows};
use vstd::prelude::*;

verus! {

/// A socket for datagrams.
#[derive(Debug, Clone, Copy, PartialEq, Eq, Structural)]
pub struct UdpSocket {
    pub fd: RawHandle,
}

impl UdpSocket {
    /// What to bind to: the first of the addresses.
    pub fn bind(addrs: &Vec<SocketAddr>) -> (binding: Result<Binding, IoError>)
        ensures
            match binding {
                Ok(b) => {
                    &&& addrs@.len() > 0
                    &&& b == (Binding {
                        kind: bind::udp_kind_of(addrs@[0]),
                        addr: addrs@[0],
                        backlog: None,
                    })
                },
                Err(e) => addrs@.len() == 0 && e is NoAddress,
            },
    {
        match first_addr(addrs) {
            Ok(addr) => Ok(Binding { kind: udp_kind(&addr), addr, backlog: None }),
            Err(e) => Err(e),
        }
    }

    /// The operation that sends a datagram to an address.
    pub fn send_to(&self, buf: FixedBuf, target: SocketAddr) -> (op: SendTo)
        ensures
            op == (SendTo { fd: IoFd::Raw(self.fd), buf, addr: target }),
    {
        SendTo::new(self.fd, buf, target)
    }

    /// The operation that receives a datagram and its sender.
    pub fn recv_from(&self, buf: FixedBuf) -> (op: RecvFrom)
        ensures
            op == (RecvFrom { fd: IoFd::Raw(self.fd), buf, addr: None }),
    {
        RecvFrom::new(self.fd, buf)
    }

    /// What was received, and from whom: the unspecified address where the sender is
    /// not known. The buffer comes back either way.
    pub fn received(op: RecvFrom, res: Result<usize, IoError>) -> (received: (
        Result<(usize, SocketAddr), IoError>,
        FixedBuf,
    ))
        ensures
            received.1 == op.buf,
            match res {
                Ok(n) => {
                    &&& received.0 matches Ok(r)
                    &&& r.0 == n
                    &&& match op.addr {
                        Some(addr) => r.1 == addr,
                        None => sockaddr::is_unspecified(r.1),
                    }
                },
                Err(e) => received.0 == Err::<(usize, SocketAddr), IoError>(e),
            },
    {
        match res {
            Ok(n) => {
                let addr: SocketAddr = match op.addr {
                    Some(addr) => addr,
                    None => SocketAddr::unspecified(),
                };
                (Ok((n, addr)), op.buf)
            },
            Err(e) => (Err(e), op.buf),
        }
    }

    /// The operation that fixes the peer on Windows.
    pub fn connect_windows(&self, addr: SocketAddr) -> (op: Connect)
        ensures
            op.fd == IoFd::Raw(self.fd),
            sockaddr::stores(op.addr, addr, windows::AF_INET6),
            op.addr_len == sockaddr::addr_bytes(addr, windows::AF_INET6).len(),
    {
        connect_op_windows(self.fd, addr)
    }

    /// The operation that fixes the peer on Unix.
    pub fn connect(&self, addr: SocketAddr) -> (op: Connect)
        ensures
            op.fd == IoFd::Raw(self.fd),
            sockaddr::stores(op.addr, addr, unix::AF_INET6),
            op.addr_len == sockaddr::addr_bytes(addr, unix::AF_INET6).len(),
    {
        connect_op(self.fd, addr)
    }

    /// The operation that sends a datagram to the peer.
    pub fn send(&self, buf: FixedBuf) -> (op: Send)
        ensures
            op == (Send { fd: IoFd::Raw(self.fd), buf }),
    {
        Send { fd: IoFd::Raw(self.fd), buf }
    }

    /// The operation that receives a datagram from the peer.
    pub fn recv(&self, buf: FixedBuf) -> (op: Recv)
        ensures
            op == (Recv { fd: IoFd::Raw(self.fd), buf }),
    {
        Recv { fd: IoFd::Raw(self.fd), buf }
    }
}

} // verus!
