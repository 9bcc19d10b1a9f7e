//! What a socket is bound to.

use crate::error::IoError;
use crate::io::socket::sockaddr::SocketAddr;
use vstd::prelude::*;

verus! {

/// How many connections wait to be accepted.
pub const BACKLOG: i32 = 1024;

/// Which socket to make.
#[derive(Debug, Clone, Copy, PartialEq, Eq, Structural)]
pub enum SocketKind {
    TcpV4,
    TcpV6,
    UdpV4,
    UdpV6,
}

/// A socket to make and the address to bind it to.
#[derive(Debug, Clone, Copy)]
pub struct Binding {
    pub kind: SocketKind,
    pub addr: SocketAddr,
    /// How many connections wait, where the socket listens.
    pub backlog: Option<i32>,
}

/// The socket for connections with an address.
pub open spec fn tcp_kind_of(addr: SocketAddr) -> SocketKind {
    if addr is V4 {
        SocketKind::TcpV4
    } else {
        SocketKind::TcpV6
    }
}

/// The socket for datagrams from and to an address.
pub open spec fn udp_kind_of(addr: SocketAddr) -> SocketKind {
    if addr is V4 {
        SocketKind::UdpV4
    } else {
        SocketKind::UdpV6
    }
}

pub fn tcp_kind(addr: &SocketAddr) -> (kind: SocketKind)
    ensures
        kind == tcp_kind_of(*addr),
{
    if addr.is_ipv4() {
        SocketKind::TcpV4
    } else {
        SocketKind::TcpV6
    }
}

pub fn udp_kind(addr: &SocketAddr) -> (kind: SocketKind)
    ensures
        kind == udp_kind_of(*addr),
{
    if addr.is_ipv4() {
        SocketKind::UdpV4
    } else {
        SocketKind::UdpV6
    }
}

/// The first of the addresses that a name stands for.
pub fn first_addr(addrs: &Vec<SocketAddr>) -> (addr: Result<SocketAddr, IoError>)
    ensures
        addr == (if addrs@.len() > 0 {
            Ok(addrs@[0])
        } else {
            Err(IoError::NoAddress)
        }),
{
    if addrs.len() > 0 {
        Ok(addrs[0])
    } else {
        Err(IoError::NoAddress)
    }
}

/// Whether a socket is for connections.
pub open spec fn is_stream(kind: SocketKind) -> bool {
    kind is TcpV4 || kind is TcpV6
}

/// Whether a socket is for IPv6.
pub open spec fn is_v6(kind: SocketKind) -> bool {
    kind is TcpV6 || kind is UdpV6
}

/// A socket has the family of its address, and carries what it is asked to carry.
pub proof fn lemma_kinds_fit(addr: SocketAddr)
    ensures
        is_stream(tcp_kind_of(addr)) && !is_stream(udp_kind_of(addr)),
        is_v6(tcp_kind_of(addr)) <==> addr is V6,
        is_v6(udp_kind_of(addr)) <==> addr is V6,
{
}

} // verus!
