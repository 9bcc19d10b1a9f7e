//! Socket addresses on Windows.

use crate::error::IoError;
use crate::io::socket::sockaddr::{self, SockAddrStorage, SocketAddr};
use vstd::prelude::*;

verus! {

/// Address family of IPv6.
pub const AF_INET6: u16 = 23;

/// Reads a socket address.
pub fn to_socket_addr(buf: &[u8]) -> (parsed: Result<SocketAddr, IoError>)
    ensures
        sockaddr::parses_to(buf@, AF_INET6, parsed),
{
    sockaddr::parse(buf, AF_INET6)
}

/// Writes a socket address, and tells its length.
pub fn socket_addr_trans(addr: SocketAddr) -> (encoded: (Vec<u8>, i32))
    ensures
        encoded.0@ == sockaddr::addr_bytes(addr, AF_INET6),
        encoded.1 == encoded.0@.len(),
{
    sockaddr::encode(addr, AF_INET6)
}

/// Writes a socket address into storage for any family, and tells its length.
pub fn socket_addr_to_storage(addr: SocketAddr) -> (encoded: (SockAddrStorage, i32))
    ensures
        sockaddr::stores(encoded.0, addr, AF_INET6),
        encoded.1 == sockaddr::addr_bytes(addr, AF_INET6).len(),
{
    sockaddr::encode_storage(addr, AF_INET6)
}

} // verus!
