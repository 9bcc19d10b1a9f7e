use veloq_runtime::error::{ErrorKind, IoError};
use veloq_runtime::io::buffer::fixed_buf::{FixedBuf, NO_REGISTRATION_INDEX};
use veloq_runtime::io::op::{IoFd, RawHandle};
use veloq_runtime::io::socket::sockaddr::{SocketAddr, SocketAddrV4, SocketAddrV6, AF_INET};
use veloq_runtime::io::socket::{unix, windows};
use veloq_runtime::net::bind::{SocketKind, BACKLOG};
use veloq_runtime::net::tcp::{TcpListener, TcpStream};
use veloq_runtime::net::udp::UdpSocket;

fn v4() -> SocketAddr {
    SocketAddr::V4(SocketAddrV4 { ip: [127, 0, 0, 1], port: 0x1f90 })
}

fn v6() -> SocketAddr {
    let mut ip = [0; 16];
    ip[15] = 1;
    SocketAddr::V6(SocketAddrV6 { ip, port: 443, flowinfo: 7, scope_id: 0x01020304 })
}

fn buf() -> FixedBuf {
    FixedBuf::new(4096, 512, NO_REGISTRATION_INDEX, 0)
}

fn fd() -> RawHandle {
    RawHandle { raw: 11 }
}

#[test]
fn addresses_come_back_as_they_went() {
    for addr in [v4(), v6()] {
        let (bytes, len) = unix::socket_addr_trans(addr);
        assert_eq!(bytes.len(), len as usize);
        assert_eq!(unix::to_socket_addr(&bytes), Ok(addr));
        let (bytes, _) = windows::socket_addr_trans(addr);
        assert_eq!(windows::to_socket_addr(&bytes), Ok(addr));
    }
}

#[test]
fn addresses_have_the_layout_of_the_system() {
    let (bytes, len) = unix::socket_addr_trans(v4());
    assert_eq!(len, 16);
    assert_eq!(bytes, vec![2, 0, 0x1f, 0x90, 127, 0, 0, 1, 0, 0, 0, 0, 0, 0, 0, 0]);
    let (bytes, len) = unix::socket_addr_trans(v6());
    assert_eq!(len, 28);
    assert_eq!(&bytes[..4], &[10, 0, 1, 0xbb]);
    assert_eq!(&bytes[24..], &[4, 3, 2, 1]);
    let (storage, len) = windows::socket_addr_to_storage(v6());
    assert_eq!(len, 28);
    assert_eq!(&storage.bytes[..4], &[23, 0, 1, 0xbb]);
}

#[test]
fn bytes_that_are_no_address_are_refused() {
    assert_eq!(unix::to_socket_addr(&[2]), Err(IoError::InvalidAddressLength));
    assert_eq!(unix::to_socket_addr(&[2, 0, 0, 1]), Err(IoError::InvalidAddressLength));
    assert_eq!(unix::to_socket_addr(&[1, 0, 0, 0]), Err(IoError::UnsupportedAddressFamily));
    assert_eq!(IoError::InvalidAddressLength.kind(), ErrorKind::InvalidData);
    assert_eq!(IoError::UnsupportedAddressFamily.kind(), ErrorKind::InvalidData);
}

#[test]
fn families_are_the_systems() {
    assert_eq!(AF_INET as i32, libc::AF_INET);
    assert_eq!(unix::AF_INET6 as i32, libc::AF_INET6);
}

#[test]
fn a_listener_takes_the_first_address() {
    let binding = TcpListener::bind(&vec![v6(), v4()]).unwrap();
    assert_eq!(binding.kind, SocketKind::TcpV6);
    assert_eq!(binding.addr, v6());
    assert_eq!(binding.backlog, Some(BACKLOG));
    assert_eq!(BACKLOG, 1024);
    match TcpListener::bind(&Vec::new()) {
        Ok(_) => panic!("there is no address"),
        Err(e) => {
            assert_eq!(e, IoError::NoAddress);
            assert_eq!(e.kind(), ErrorKind::InvalidInput);
        }
    }
}

#[test]
fn a_listener_accepts() {
    let listener = TcpListener { fd: fd() };
    let op = listener.accept();
    assert_eq!(op.fd, IoFd::Raw(fd()));
    assert_eq!(op.addr_len, 128);
    let (stream, addr) = TcpListener::accepted(op, Ok(30)).unwrap();
    assert_eq!(stream.fd, RawHandle { raw: 30 });
    assert_eq!(addr, SocketAddr::unspecified());
    assert!(matches!(TcpListener::accepted(listener.accept(), Err(IoError::Os(4))), Err(IoError::Os(4))));
}

#[test]
fn a_stream_connects_and_moves_bytes() {
    assert_eq!(TcpStream::socket_for(&v4()), SocketKind::TcpV4);
    let op = TcpStream::connect(fd(), v4());
    assert_eq!(op.addr_len, 16);
    assert_eq!(&op.addr.bytes[..8], &[2, 0, 0x1f, 0x90, 127, 0, 0, 1]);
    assert!(matches!(TcpStream::connected(fd(), Err(IoError::Os(111))), Err(IoError::Os(111))));
    let stream = TcpStream::connected(fd(), Ok(0)).unwrap();
    let recv = stream.recv(buf());
    assert_eq!((recv.fd, recv.offset, recv.buf.offset), (IoFd::Raw(fd()), 0, 4096));
    let send = stream.send(buf());
    assert_eq!((send.fd, send.offset, send.buf.offset), (IoFd::Raw(fd()), 0, 4096));
}

#[test]
fn windows_has_forms_of_its_own() {
    let op = TcpStream::connect_windows(fd(), v6());
    assert_eq!((op.fd, op.addr_len), (IoFd::Raw(fd()), 28));
    assert_eq!(&op.addr.bytes[..4], &[23, 0, 1, 0xbb]);
    assert_eq!(&TcpStream::connect(fd(), v6()).addr.bytes[..4], &[10, 0, 1, 0xbb]);
    let op = UdpSocket { fd: fd() }.connect_windows(v6());
    assert_eq!(&op.addr.bytes[..2], &[23, 0]);
    let made = RawHandle { raw: 77 };
    let mut op = TcpListener { fd: fd() }.accept_windows(made);
    assert_eq!((op.fd, op.accept_socket), (IoFd::Raw(fd()), made));
    op.remote_addr = Some(v4());
    let (stream, addr) = TcpListener::accepted_windows(op, Ok(0)).unwrap();
    assert_eq!((stream.fd, addr), (made, v4()));
}

#[test]
fn a_datagram_socket_moves_datagrams() {
    let binding = UdpSocket::bind(&vec![v4()]).unwrap();
    assert_eq!(binding.kind, SocketKind::UdpV4);
    assert_eq!(binding.backlog, None);
    assert!(matches!(UdpSocket::bind(&Vec::new()), Err(IoError::NoAddress)));
    assert_eq!(UdpSocket::bind(&vec![v6()]).unwrap().kind, SocketKind::UdpV6);
    let socket = UdpSocket { fd: fd() };
    assert_eq!(socket.send_to(buf(), v6()).addr, v6());
    assert_eq!(socket.send(buf()).fd, IoFd::Raw(fd()));
    assert_eq!(socket.recv(buf()).fd, IoFd::Raw(fd()));
    assert_eq!(socket.connect(v6()).addr_len, 28);
    let mut op = socket.recv_from(buf());
    op.addr = Some(v4());
    let (received, back) = UdpSocket::received(op, Ok(5));
    assert_eq!(received, Ok((5, v4())));
    assert_eq!(back.offset, 4096);
    let (received, _) = UdpSocket::received(socket.recv_from(buf()), Ok(0));
    assert_eq!(received, Ok((0, SocketAddr::unspecified())));
    let (received, _) = UdpSocket::received(socket.recv_from(buf()), Err(IoError::Os(11)));
    assert_eq!(received, Err(IoError::Os(11)));
}
