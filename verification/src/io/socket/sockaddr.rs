//! Socket addresses, and their layout in memory.

use crate::error::IoError;
use vstd::prelude::*;

verus! {

/// Address family of IPv4, on every system.
pub const AF_INET: u16 = 2;

/// Bytes of an IPv4 socket address.
pub const SOCKADDR_IN_LEN: usize = 16;

/// Bytes of an IPv6 socket address.
pub const SOCKADDR_IN6_LEN: usize = 28;

/// Bytes that hold an address of any family.
pub const STORAGE_LEN: usize = 128;

#[derive(Debug, Clone, Copy, PartialEq, Eq)]
pub struct SocketAddrV4 {
    pub ip: [u8; 4],
    pub port: u16,
}

#[derive(Debug, Clone, Copy, PartialEq, Eq)]
pub struct SocketAddrV6 {
    pub ip: [u8; 16],
    pub port: u16,
    pub flowinfo: u32,
    pub scope_id: u32,
}

#[derive(Debug, Clone, Copy, PartialEq, Eq)]
pub enum SocketAddr {
    V4(SocketAddrV4),
    V6(SocketAddrV6),
}

impl SocketAddr {
    pub fn is_ipv4(&self) -> (v4: bool)
        ensures
            v4 == (*self is V4),
    {
        match self {
            SocketAddr::V4(_) => true,
            SocketAddr::V6(_) => false,
        }
    }

    /// The address that stands for none: `0.0.0.0:0`.
    pub fn unspecified() -> (addr: SocketAddr)
        ensures
            is_unspecified(addr),
    {
        SocketAddr::V4(SocketAddrV4 { ip: [0, 0, 0, 0], port: 0 })
    }
}

pub open spec fn is_unspecified(addr: SocketAddr) -> bool {
    addr matches SocketAddr::V4(a) && a.ip@ == seq![0u8, 0u8, 0u8, 0u8] && a.port == 0
}

/// Two bytes, most significant first.
pub open spec fn be16(x: u16) -> Seq<u8> {
    seq![(x / 256) as u8, (x % 256) as u8]
}

/// Two bytes, least significant first.
pub open spec fn le16(x: u16) -> Seq<u8> {
    seq![(x % 256) as u8, (x / 256) as u8]
}

/// Four bytes, least significant first.
pub open spec fn le32(x: u32) -> Seq<u8> {
    seq![
        (x % 256) as u8,
        (x / 256 % 256) as u8,
        (x / 65536 % 256) as u8,
        (x / 16777216) as u8,
    ]
}

pub open spec fn from_be16(b: Seq<u8>) -> int {
    b[0] * 256 + b[1]
}

pub open spec fn from_le16(b: Seq<u8>) -> int {
    b[0] + b[1] * 256
}

pub open spec fn from_le32(b: Seq<u8>) -> int {
    b[0] + b[1] * 256 + b[2] * 65536 + b[3] * 16777216
}

/// The bytes of a socket address, where IPv6 has family `inet6`: family, port and
/// address, and for IPv6 the flow label before the address and the scope behind.
pub open spec fn addr_bytes(addr: SocketAddr, inet6: u16) -> Seq<u8> {
    match addr {
        SocketAddr::V4(a) => le16(AF_INET) + be16(a.port) + a.ip@ + Seq::new(8, |i: int| 0u8),
        SocketAddr::V6(a) => le16(inet6) + be16(a.port) + le32(a.flowinfo) + a.ip@ + le32(a.scope_id),
    }
}

/// How long a socket address is.
pub proof fn lemma_addr_len(addr: SocketAddr, inet6: u16)
    ensures
        addr_bytes(addr, inet6).len() == (if addr is V4 {
            SOCKADDR_IN_LEN
        } else {
            SOCKADDR_IN6_LEN
        }),
{
}

/// Two addresses with the same fields.
pub open spec fn same_addr(a: SocketAddr, b: SocketAddr) -> bool {
    match (a, b) {
        (SocketAddr::V4(a), SocketAddr::V4(b)) => a.ip@ == b.ip@ && a.port == b.port,
        (SocketAddr::V6(a), SocketAddr::V6(b)) => {
            &&& a.ip@ == b.ip@
            &&& a.port == b.port
            &&& a.flowinfo == b.flowinfo
            &&& a.scope_id == b.scope_id
        },
        _ => false,
    }
}

/// Whether `parsed` is what the bytes hold, where IPv6 has family `inet6`.
pub open spec fn parses_to(buf: Seq<u8>, inet6: u16, parsed: Result<SocketAddr, IoError>) -> bool {
    if buf.len() < 2 {
        parsed == Err::<SocketAddr, IoError>(IoError::InvalidAddressLength)
    } else if from_le16(buf) == AF_INET {
        if buf.len() < SOCKADDR_IN_LEN {
            parsed == Err::<SocketAddr, IoError>(IoError::InvalidAddressLength)
        } else {
            parsed matches Ok(SocketAddr::V4(a)) && a.ip@ == buf.subrange(4, 8) && a.port == from_be16(
                buf.subrange(2, 4),
            )
        }
    } else if from_le16(buf) == inet6 {
        if buf.len() < SOCKADDR_IN6_LEN {
            parsed == Err::<SocketAddr, IoError>(IoError::InvalidAddressLength)
        } else {
            parsed matches Ok(SocketAddr::V6(a)) && a.ip@ == buf.subrange(8, 24) && a.port == from_be16(
                buf.subrange(2, 4),
            ) && a.flowinfo == from_le32(buf.subrange(4, 8)) && a.scope_id == from_le32(buf.subrange(24, 28))
        }
    } else {
        parsed == Err::<SocketAddr, IoError>(IoError::UnsupportedAddressFamily)
    }
}

/// What the bytes hold, where IPv6 has family `inet6`.
pub open spec fn addr_in(buf: Seq<u8>, inet6: u16) -> Result<SocketAddr, IoError> {
    choose|parsed: Result<SocketAddr, IoError>| parses_to(buf, inet6, parsed)
}

/// The bytes hold one address or one error.
pub proof fn lemma_addr_in(buf: Seq<u8>, inet6: u16, parsed: Result<SocketAddr, IoError>)
    requires
        parses_to(buf, inet6, parsed),
    ensures
        parsed == addr_in(buf, inet6),
{
    let other = addr_in(buf, inet6);
    assert(parses_to(buf, inet6, other));
    match (parsed, other) {
        (Ok(SocketAddr::V4(a)), Ok(SocketAddr::V4(b))) => {
            assert(a.ip =~= b.ip);
        },
        (Ok(SocketAddr::V6(a)), Ok(SocketAddr::V6(b))) => {
            assert(a.ip =~= b.ip);
        },
        _ => {},
    }
}

proof fn lemma_le32(x: u32)
    ensures
        from_le32(le32(x)) == x,
{
}

proof fn lemma_round_trip_v4(a: SocketAddrV4, inet6: u16, padding: Seq<u8>)
    ensures
        ({
            let buf = addr_bytes(SocketAddr::V4(a), inet6) + padding;
            &&& buf.len() >= SOCKADDR_IN_LEN
            &&& from_le16(buf) == AF_INET
            &&& buf.subrange(4, 8) == a.ip@
            &&& from_be16(buf.subrange(2, 4)) == a.port
        }),
{
    let buf = addr_bytes(SocketAddr::V4(a), inet6) + padding;
    assert(buf.subrange(4, 8) =~= a.ip@);
    assert(buf.subrange(2, 4) =~= be16(a.port));
}

proof fn lemma_round_trip_v6(a: SocketAddrV6, inet6: u16, padding: Seq<u8>)
    ensures
        ({
            let buf = addr_bytes(SocketAddr::V6(a), inet6) + padding;
            &&& buf.len() >= SOCKADDR_IN6_LEN
            &&& from_le16(buf) == inet6
            &&& buf.subrange(8, 24) == a.ip@
            &&& from_be16(buf.subrange(2, 4)) == a.port
            &&& from_le32(buf.subrange(4, 8)) == a.flowinfo
            &&& from_le32(buf.subrange(24, 28)) == a.scope_id
        }),
{
    let buf = addr_bytes(SocketAddr::V6(a), inet6) + padding;
    lemma_le32(a.flowinfo);
    lemma_le32(a.scope_id);
    assert(buf.subrange(2, 4) =~= be16(a.port));
    assert(buf.subrange(4, 8) =~= le32(a.flowinfo));
    assert(buf.subrange(8, 24) =~= a.ip@);
    assert(buf.subrange(24, 28) =~= le32(a.scope_id));
}

/// The bytes of an address are read back as that address, whatever lies behind
/// them.
pub proof fn lemma_round_trip(addr: SocketAddr, inet6: u16, padding: Seq<u8>, parsed: Result<SocketAddr, IoError>)
    requires
        inet6 != AF_INET,
        parses_to(addr_bytes(addr, inet6) + padding, inet6, parsed),
    ensures
        parsed matches Ok(a) && same_addr(a, addr),
{
    match addr {
        SocketAddr::V4(a) => {
            lemma_round_trip_v4(a, inet6, padding);
        },
        SocketAddr::V6(a) => {
            lemma_round_trip_v6(a, inet6, padding);
        },
    }
}

/// The bytes of an address hold that address, whatever lies behind them.
pub proof fn lemma_reads_back(addr: SocketAddr, inet6: u16, padding: Seq<u8>)
    requires
        inet6 != AF_INET,
    ensures
        addr_in(addr_bytes(addr, inet6) + padding, inet6) matches Ok(a) && same_addr(a, addr),
{
    let buf = addr_bytes(addr, inet6) + padding;
    match addr {
        SocketAddr::V4(a) => {
            lemma_round_trip_v4(a, inet6, padding);
        },
        SocketAddr::V6(a) => {
            lemma_round_trip_v6(a, inet6, padding);
        },
    }
    assert(parses_to(buf, inet6, Ok(addr)));
    lemma_addr_in(buf, inet6, Ok(addr));
}

/// Where the parts of an address lie: the family first, its lower byte before the upper,
/// then the port, its upper byte before the lower. An IPv4 host follows, and zeros. For
/// IPv6 the flow label comes first, then the host, then the scope, the two numbers with
/// their lowest byte first.
pub proof fn lemma_layout(addr: SocketAddr, inet6: u16)
    ensures
        ({
            let b = addr_bytes(addr, inet6);
            match addr {
                SocketAddr::V4(a) => {
                    &&& b.len() == 16
                    &&& b[0] == 2 && b[1] == 0
                    &&& b[2] * 256 + b[3] == a.port
                    &&& forall|i: int| 0 <= i < 4 ==> #[trigger] b[4 + i] == a.ip@[i]
                    &&& forall|i: int| 8 <= i < 16 ==> #[trigger] b[i] == 0
                },
                SocketAddr::V6(a) => {
                    &&& b.len() == 28
                    &&& b[0] + b[1] * 256 == inet6
                    &&& b[2] * 256 + b[3] == a.port
                    &&& b[4] + b[5] * 256 + b[6] * 65536 + b[7] * 16777216 == a.flowinfo
                    &&& forall|i: int| 0 <= i < 16 ==> #[trigger] b[8 + i] == a.ip@[i]
                    &&& b[24] + b[25] * 256 + b[26] * 65536 + b[27] * 16777216 == a.scope_id
                },
            }
        }),
{
    if let SocketAddr::V6(a) = addr {
        lemma_le32(a.flowinfo);
        lemma_le32(a.scope_id);
    }
}

/// What bytes stand for: IPv4 by its family and sixteen bytes, IPv6 by its family and
/// twenty-eight. Fewer bytes are too few, and no other family is known.
pub proof fn lemma_reads_by_family(buf: Seq<u8>, inet6: u16, parsed: Result<SocketAddr, IoError>)
    requires
        parses_to(buf, inet6, parsed),
        inet6 != 2,
    ensures
        buf.len() >= 16 && buf[0] == 2 && buf[1] == 0 ==> {
            &&& parsed matches Ok(SocketAddr::V4(a)) && {
                &&& a.port == buf[2] * 256 + buf[3]
                &&& forall|i: int| 0 <= i < 4 ==> #[trigger] a.ip@[i] == buf[4 + i]
            }
        },
        buf.len() >= 28 && buf[0] + buf[1] * 256 == inet6 ==> {
            &&& parsed matches Ok(SocketAddr::V6(a)) && {
                &&& a.port == buf[2] * 256 + buf[3]
                &&& a.flowinfo == buf[4] + buf[5] * 256 + buf[6] * 65536 + buf[7] * 16777216
                &&& forall|i: int| 0 <= i < 16 ==> #[trigger] a.ip@[i] == buf[8 + i]
                &&& a.scope_id == buf[24] + buf[25] * 256 + buf[26] * 65536 + buf[27] * 16777216
            }
        },
        buf.len() >= 2 && !(buf[0] == 2 && buf[1] == 0) && buf[0] + buf[1] * 256 != inet6 ==> parsed
            == Err::<SocketAddr, IoError>(IoError::UnsupportedAddressFamily),
        buf.len() < 2 ==> parsed == Err::<SocketAddr, IoError>(IoError::InvalidAddressLength),
        2 <= buf.len() < 16 && buf[0] == 2 && buf[1] == 0 ==> parsed == Err::<SocketAddr, IoError>(
            IoError::InvalidAddressLength,
        ),
        2 <= buf.len() < 28 && buf[0] + buf[1] * 256 == inet6 ==> parsed == Err::<SocketAddr, IoError>(
            IoError::InvalidAddressLength,
        ),
{
    if buf.len() >= 2 {
        assert(from_le16(buf) == 2 <==> buf[0] == 2 && buf[1] == 0);
    }
}

/// The address that stands for none has only zeros behind its family.
pub proof fn lemma_unspecified_is_zero(addr: SocketAddr, inet6: u16)
    requires
        is_unspecified(addr),
    ensures
        addr is V4,
        forall|i: int| 2 <= i < 16 ==> #[trigger] addr_bytes(addr, inet6)[i] == 0,
{
    lemma_layout(addr, inet6);
    let b = addr_bytes(addr, inet6);
    assert forall|i: int| 2 <= i < 16 implies #[trigger] b[i] == 0 by {
        if 4 <= i < 8 {
            assert(b[4 + (i - 4)] == addr->V4_0.ip@[i - 4]);
        }
    }
}

fn read_be16(buf: &[u8], at: usize) -> (x: u16)
    requires
        at + 2 <= buf@.len(),
    ensures
        x == from_be16(buf@.subrange(at as int, at + 2)),
{
    (buf[at] as u16) * 256 + buf[at + 1] as u16
}

fn read_le32(buf: &[u8], at: usize) -> (x: u32)
    requires
        at + 4 <= buf@.len(),
    ensures
        x == from_le32(buf@.subrange(at as int, at + 4)),
{
    (buf[at] as u32) + (buf[at + 1] as u32) * 256 + (buf[at + 2] as u32) * 65536 + (buf[at + 3] as u32) * 16777216
}

/// Reads a socket address, where IPv6 has family `inet6`.
pub fn parse(buf: &[u8], inet6: u16) -> (parsed: Result<SocketAddr, IoError>)
    ensures
        parses_to(buf@, inet6, parsed),
{
    if buf.len() < 2 {
        return Err(IoError::InvalidAddressLength);
    }
    let family: u16 = buf[0] as u16 + (buf[1] as u16) * 256;
    if family == AF_INET {
        if buf.len() < SOCKADDR_IN_LEN {
            return Err(IoError::InvalidAddressLength);
        }
        let ip: [u8; 4] = [buf[4], buf[5], buf[6], buf[7]];
        assert(ip@ =~= buf@.subrange(4, 8));
        Ok(SocketAddr::V4(SocketAddrV4 { ip, port: read_be16(buf, 2) }))
    } else if family == inet6 {
        if buf.len() < SOCKADDR_IN6_LEN {
            return Err(IoError::InvalidAddressLength);
        }
        let ip: [u8; 16] = [
            buf[8],
            buf[9],
            buf[10],
            buf[11],
            buf[12],
            buf[13],
            buf[14],
            buf[15],
            buf[16],
            buf[17],
            buf[18],
            buf[19],
            buf[20],
            buf[21],
            buf[22],
            buf[23],
        ];
        assert(ip@ =~= buf@.subrange(8, 24));
        Ok(
            SocketAddr::V6(
                SocketAddrV6 {
                    ip,
                    port: read_be16(buf, 2),
                    flowinfo: read_le32(buf, 4),
                    scope_id: read_le32(buf, 24),
                },
            ),
        )
    } else {
        Err(IoError::UnsupportedAddressFamily)
    }
}

fn push_le32(out: &mut Vec<u8>, x: u32)
    ensures
        final(out)@ == old(out)@ + le32(x),
{
    out.push((x % 256) as u8);
    out.push((x / 256 % 256) as u8);
    out.push((x / 65536 % 256) as u8);
    out.push((x / 16777216) as u8);
    assert(out@ =~= old(out)@ + le32(x));
}

fn push_all(out: &mut Vec<u8>, bytes: &[u8])
    ensures
        final(out)@ == old(out)@ + bytes@,
{
    let mut i: usize = 0;
    while i < bytes.len()
        invariant
            i <= bytes@.len(),
            out@ == old(out)@ + bytes@.subrange(0, i as int),
        decreases bytes@.len() - i,
    {
        out.push(bytes[i]);
        assert(bytes@.subrange(0, i + 1) =~= bytes@.subrange(0, i as int).push(bytes@[i as int]));
        i += 1;
    }
    assert(bytes@.subrange(0, i as int) =~= bytes@);
}

fn push_zeros(out: &mut Vec<u8>, n: usize)
    ensures
        final(out)@ == old(out)@ + Seq::new(n as nat, |i: int| 0u8),
{
    let mut i: usize = 0;
    while i < n
        invariant
            i <= n,
            out@ == old(out)@ + Seq::new(i as nat, |i: int| 0u8),
        decreases n - i,
    {
        out.push(0);
        assert(Seq::new((i + 1) as nat, |i: int| 0u8) =~= Seq::new(i as nat, |i: int| 0u8).push(0u8));
        i += 1;
    }
}

/// Writes a socket address, where IPv6 has family `inet6`.
pub fn encode(addr: SocketAddr, inet6: u16) -> (encoded: (Vec<u8>, i32))
    ensures
        encoded.0@ == addr_bytes(addr, inet6),
        encoded.1 == encoded.0@.len(),
{
    let mut out: Vec<u8> = Vec::new();
    match addr {
        SocketAddr::V4(a) => {
            out.push((AF_INET % 256) as u8);
            out.push((AF_INET / 256) as u8);
            out.push((a.port / 256) as u8);
            out.push((a.port % 256) as u8);
            assert(out@ =~= le16(AF_INET) + be16(a.port));
            push_all(&mut out, &a.ip);
            push_zeros(&mut out, 8);
            (out, 16)
        },
        SocketAddr::V6(a) => {
            out.push((inet6 % 256) as u8);
            out.push((inet6 / 256) as u8);
            out.push((a.port / 256) as u8);
            out.push((a.port % 256) as u8);
            assert(out@ =~= le16(inet6) + be16(a.port));
            push_le32(&mut out, a.flowinfo);
            push_all(&mut out, &a.ip);
            push_le32(&mut out, a.scope_id);
            (out, 28)
        },
    }
}

/// Storage for a socket address of any family.
#[derive(Debug, Clone, Copy, PartialEq, Eq)]
pub struct SockAddrStorage {
    pub bytes: [u8; 128],
}

impl SockAddrStorage {
    pub fn zeroed() -> (storage: Self)
        ensures
            storage.bytes@ == Seq::new(STORAGE_LEN as nat, |i: int| 0u8),
    {
        let storage = SockAddrStorage { bytes: [0u8;128] };
        assert(storage.bytes@ =~= Seq::new(STORAGE_LEN as nat, |i: int| 0u8));
        storage
    }
}

/// Whether storage holds an address: its bytes first, and zeros behind.
pub open spec fn stores(storage: SockAddrStorage, addr: SocketAddr, inet6: u16) -> bool {
    let bytes = addr_bytes(addr, inet6);
    storage.bytes@ == bytes + Seq::new((STORAGE_LEN - bytes.len()) as nat, |i: int| 0u8)
}

/// Writes a socket address into storage for any family, and tells its length.
pub fn encode_storage(addr: SocketAddr, inet6: u16) -> (encoded: (SockAddrStorage, i32))
    ensures
        stores(encoded.0, addr, inet6),
        encoded.1 == addr_bytes(addr, inet6).len(),
{
    let (bytes, len) = encode(addr, inet6);
    let mut storage = SockAddrStorage::zeroed();
    let mut i: usize = 0;
    while i < bytes.len()
        invariant
            i <= bytes@.len() <= STORAGE_LEN,
            storage.bytes@.len() == STORAGE_LEN,
            forall|j: int| 0 <= j < i ==> #[trigger] storage.bytes@[j] == bytes@[j],
            forall|j: int| i <= j < STORAGE_LEN ==> #[trigger] storage.bytes@[j] == 0,
        decreases bytes@.len() - i,
    {
        storage.bytes[i] = bytes[i];
        i += 1;
    }
    assert(storage.bytes@ =~= bytes@ + Seq::new((STORAGE_LEN - bytes@.len()) as nat, |i: int| 0u8));
    (storage, len)
}

/// Reads the first `len` bytes of storage as a socket address.
pub fn parse_storage(storage: &SockAddrStorage, len: u32, inet6: u16) -> (parsed: Result<SocketAddr, IoError>)
    requires
        len <= STORAGE_LEN,
    ensures
        parses_to(storage.bytes@.subrange(0, len as int), inet6, parsed),
        parsed == addr_in(storage.bytes@.subrange(0, len as int), inet6),
{
    let mut bytes: Vec<u8> = Vec::new();
    let mut i: usize = 0;
    while i < len as usize
        invariant
            len <= STORAGE_LEN,
            i <= len,
            bytes@ == storage.bytes@.subrange(0, i as int),
        decreases len - i,
    {
        bytes.push(storage.bytes[i]);
        assert(storage.bytes@.subrange(0, i + 1) =~= storage.bytes@.subrange(0, i as int).push(
            storage.bytes@[i as int],
        ));
        i += 1;
    }
    let parsed = parse(bytes.as_slice(), inet6);
    proof {
        lemma_addr_in(bytes@, inet6, parsed);
    }
    parsed
}

} // verus!
