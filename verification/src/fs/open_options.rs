//! How a file is opened.

use crate::error::IoError;
use crate::io::buffer::fixed_buf::FixedBuf;
use crate::io::buffer::pool::BufPool;
use crate::io::op::Open;
use vstd::prelude::*;

verus! {

pub const O_RDONLY: i32 = 0;

pub const O_WRONLY: i32 = 1;

pub const O_RDWR: i32 = 2;

pub const O_CREAT: i32 = 64;

pub const O_EXCL: i32 = 128;

pub const O_TRUNC: i32 = 512;

pub const O_APPEND: i32 = 1024;

pub const GENERIC_READ: u32 = 0x8000_0000;

pub const GENERIC_WRITE: u32 = 0x4000_0000;

pub const FILE_APPEND_DATA: u32 = 4;

pub const CREATE_NEW: u32 = 1;

pub const CREATE_ALWAYS: u32 = 2;

pub const OPEN_EXISTING: u32 = 3;

pub const OPEN_ALWAYS: u32 = 4;

pub const TRUNCATE_EXISTING: u32 = 5;

/// How a file is opened.
#[derive(Debug, Clone, Copy, PartialEq, Eq, Structural)]
pub struct OpenOptions {
    pub read: bool,
    pub write: bool,
    pub append: bool,
    pub truncate: bool,
    pub create: bool,
    pub create_new: bool,
    pub mode: u32,
    pub custom_flags: i32,
}

/// An operation that opens a file, and the path to put into its buffer first.
pub struct OpenRequest {
    pub op: Open,
    pub path: Vec<u8>,
}

/// The bytes of UTF-16 text, low byte of each unit first.
pub open spec fn wide_bytes(path: Seq<u16>) -> Seq<u8> {
    Seq::new(2 * path.len(), |i: int| if i % 2 == 0 {
        (path[i / 2] % 256) as u8
    } else {
        (path[i / 2] / 256) as u8
    })
}

impl OpenOptions {
    pub open spec fn closed() -> OpenOptions {
        OpenOptions {
            read: false,
            write: false,
            append: false,
            truncate: false,
            create: false,
            create_new: false,
            mode: 0o666,
            custom_flags: 0,
        }
    }

    pub fn new() -> (options: Self)
        ensures
            options == Self::closed(),
    {
        OpenOptions {
            read: false,
            write: false,
            append: false,
            truncate: false,
            create: false,
            create_new: false,
            mode: 0o666,
            custom_flags: 0,
        }
    }

    pub fn read(&mut self, read: bool) -> (options: &mut Self)
        ensures
            *options == (OpenOptions { read, ..*old(self) }),
            *final(self) == *final(options),
    {
        self.read = read;
        self
    }

    pub fn write(&mut self, write: bool) -> (options: &mut Self)
        ensures
            *options == (OpenOptions { write, ..*old(self) }),
            *final(self) == *final(options),
    {
        self.write = write;
        self
    }

    pub fn append(&mut self, append: bool) -> (options: &mut Self)
        ensures
            *options == (OpenOptions { append, ..*old(self) }),
            *final(self) == *final(options),
    {
        self.append = append;
        self
    }

    pub fn truncate(&mut self, truncate: bool) -> (options: &mut Self)
        ensures
            *options == (OpenOptions { truncate, ..*old(self) }),
            *final(self) == *final(options),
    {
        self.truncate = truncate;
        self
    }

    pub fn create(&mut self, create: bool) -> (options: &mut Self)
        ensures
            *options == (OpenOptions { create, ..*old(self) }),
            *final(self) == *final(options),
    {
        self.create = create;
        self
    }

    pub fn create_new(&mut self, create_new: bool) -> (options: &mut Self)
        ensures
            *options == (OpenOptions { create_new, ..*old(self) }),
            *final(self) == *final(options),
    {
        self.create_new = create_new;
        self
    }

    pub fn mode(&mut self, mode: u32) -> (options: &mut Self)
        ensures
            *options == (OpenOptions { mode, ..*old(self) }),
            *final(self) == *final(options),
    {
        self.mode = mode;
        self
    }

    pub fn custom_flags(&mut self, flags: i32) -> (options: &mut Self)
        ensures
            *options == (OpenOptions { custom_flags: flags, ..*old(self) }),
            *final(self) == *final(options),
    {
        self.custom_flags = flags;
        self
    }

    /// The access that is asked for on Unix: appending implies writing, and
    /// reading and writing alike, or neither, is both.
    pub open spec fn access_flags(self) -> i32 {
        if self.append {
            O_WRONLY | O_APPEND
        } else if self.read && !self.write {
            O_RDONLY
        } else if self.write && !self.read {
            O_WRONLY
        } else {
            O_RDWR
        }
    }

    pub open spec fn creation_flags(self, flags: i32) -> i32 {
        if self.create {
            flags | O_CREAT
        } else {
            flags
        }
    }

    pub open spec fn exclusive_flags(self, flags: i32) -> i32 {
        if self.create_new {
            flags | (O_EXCL | O_CREAT)
        } else {
            flags
        }
    }

    pub open spec fn truncation_flags(self, flags: i32) -> i32 {
        if self.truncate {
            flags | O_TRUNC
        } else {
            flags
        }
    }

    /// The flags of `open` on Unix.
    pub open spec fn unix_flags(self) -> i32 {
        self.truncation_flags(self.exclusive_flags(self.creation_flags(self.access_flags()))) | self.custom_flags
    }

    /// The access that is asked for on Windows.
    pub open spec fn windows_access(self) -> u32 {
        let read = if self.read {
            0u32 | GENERIC_READ
        } else {
            0u32
        };
        let write = if self.write {
            read | GENERIC_WRITE
        } else {
            read
        };
        if self.append {
            write | FILE_APPEND_DATA
        } else {
            write
        }
    }

    /// What Windows does where the file exists, and where it does not.
    pub open spec fn windows_disposition(self) -> u32 {
        if self.create_new {
            CREATE_NEW
        } else if self.create && self.truncate {
            CREATE_ALWAYS
        } else if self.create {
            OPEN_ALWAYS
        } else if self.truncate {
            TRUNCATE_EXISTING
        } else {
            OPEN_EXISTING
        }
    }

    /// The operation that opens `path` on Unix. The path goes into a buffer of the
    /// pool, with a zero behind it.
    pub fn build_op<P: BufPool>(&self, path: &[u8], pool: &mut P) -> (request: Result<OpenRequest, IoError>)
        requires
            old(pool).ok(),
            path@.len() < usize::MAX,
            old(pool).may_ask((path@.len() + 1) as usize),
        ensures
            final(pool).ok(),
            exists|buf: Option<FixedBuf>| #[trigger]
                old(pool).gives((path@.len() + 1) as usize, buf, *final(pool)) && match request {
                    Ok(r) => {
                        &&& buf == Some(r.op.path)
                        &&& r.op.path.len == path@.len() + 1
                        &&& r.path@ == path@.push(0)
                        &&& r.op.flags == self.unix_flags()
                        &&& r.op.mode == self.mode
                    },
                    Err(e) => buf.is_none() && e == IoError::NoBuffer,
                },
            request matches Ok(r) ==> {
                &&& self.create || self.create_new ==> r.op.flags & 64 != 0
                &&& self.create_new ==> r.op.flags & 128 != 0
                &&& self.truncate ==> r.op.flags & 512 != 0
                &&& self.append ==> r.op.flags & 1024 != 0
            },
    {
        let len: usize = path.len() + 1;
        let reply: Option<FixedBuf> = pool.alloc_len(len);
        assert(old(pool).gives(len, reply, *pool));
        let buf: FixedBuf = match reply {
            Some(buf) => buf,
            None => {
                return Err(IoError::NoBuffer);
            },
        };
        let mut bytes: Vec<u8> = Vec::new();
        let mut i: usize = 0;
        while i < path.len()
            invariant
                i <= path@.len(),
                bytes@ == path@.subrange(0, i as int),
            decreases path@.len() - i,
        {
            bytes.push(path[i]);
            assert(path@.subrange(0, i + 1) =~= path@.subrange(0, i as int).push(path@[i as int]));
            i += 1;
        }
        assert(path@.subrange(0, i as int) =~= path@);
        bytes.push(0);
        let mut flags: i32 = if self.read && !self.write && !self.append {
            O_RDONLY
        } else if !self.read && self.write && !self.append {
            O_WRONLY
        } else if self.append {
            O_WRONLY | O_APPEND
        } else {
            O_RDWR
        };
        if self.create {
            flags = flags | O_CREAT;
        }
        if self.create_new {
            flags = flags | (O_EXCL | O_CREAT);
        }
        if self.truncate {
            flags = flags | O_TRUNC;
        }
        flags = flags | self.custom_flags;
        proof {
            self.lemma_unix_bits();
        }
        Ok(OpenRequest { op: Open { path: buf, flags, mode: self.mode }, path: bytes })
    }

    /// The operation that opens `path` on Windows. The path goes into a buffer of
    /// the pool as UTF-16, with a zero behind it.
    pub fn build_op_wide<P: BufPool>(&self, path: &[u16], pool: &mut P) -> (request: Result<OpenRequest, IoError>)
        requires
            old(pool).ok(),
            2 * (path@.len() + 1) <= usize::MAX,
            old(pool).may_ask((2 * (path@.len() + 1)) as usize),
        ensures
            final(pool).ok(),
            exists|buf: Option<FixedBuf>| #[trigger]
                old(pool).gives((2 * (path@.len() + 1)) as usize, buf, *final(pool)) && match request {
                    Ok(r) => {
                        &&& buf == Some(r.op.path)
                        &&& r.op.path.len == 2 * (path@.len() + 1)
                        &&& r.path@ == wide_bytes(path@.push(0))
                        &&& r.op.flags == self.windows_access() as i32
                        &&& r.op.mode == self.windows_disposition()
                    },
                    Err(e) => buf.is_none() && e == IoError::NoBuffer,
                },
            request matches Ok(r) ==> {
                &&& makes_missing(r.op.mode) <==> self.create || self.create_new
                &&& refuses_present(r.op.mode) <==> self.create_new
                &&& empties_present(r.op.mode) <==> self.truncate && !self.create_new
            },
    {
        let len_bytes: usize = 2 * (path.len() + 1);
        let reply: Option<FixedBuf> = pool.alloc_len(len_bytes);
        assert(old(pool).gives(len_bytes, reply, *pool));
        let buf: FixedBuf = match reply {
            Some(buf) => buf,
            None => {
                return Err(IoError::NoBuffer);
            },
        };
        let ghost wide = path@.push(0);
        let mut bytes: Vec<u8> = Vec::new();
        let mut i: usize = 0;
        while i <= path.len()
            invariant
                2 * (path@.len() + 1) <= usize::MAX,
                i <= path@.len() + 1,
                wide == path@.push(0),
                bytes@ == wide_bytes(wide.subrange(0, i as int)),
            decreases path@.len() + 1 - i,
        {
            let unit: u16 = if i < path.len() {
                path[i]
            } else {
                0
            };
            bytes.push((unit % 256) as u8);
            bytes.push((unit / 256) as u8);
            assert(bytes@ =~= wide_bytes(wide.subrange(0, i + 1)));
            i += 1;
        }
        assert(wide.subrange(0, i as int) =~= wide);
        let mut access: u32 = 0;
        if self.read {
            access = access | GENERIC_READ;
        }
        if self.write {
            access = access | GENERIC_WRITE;
        }
        if self.append {
            access = access | FILE_APPEND_DATA;
        }
        let disposition: u32 = match (self.create, self.create_new, self.truncate) {
            (_, true, _) => CREATE_NEW,
            (true, _, true) => CREATE_ALWAYS,
            (true, _, false) => OPEN_ALWAYS,
            (false, _, true) => TRUNCATE_EXISTING,
            (false, _, false) => OPEN_EXISTING,
        };
        Ok(OpenRequest { op: Open { path: buf, flags: access as i32, mode: disposition }, path: bytes })
    }
}

impl Default for OpenOptions {
    fn default() -> (options: Self)
        ensures
            options == OpenOptions::closed(),
    {
        Self::new()
    }
}

/// A bit is set in one of several flags together exactly where it is in one of them.
proof fn lemma_any_bit(a: i32, k: i32, n: i32, t: i32, c: i32, bit: i32)
    ensures
        ((((a | k) | n) | t) | c) & bit != 0 <==> a & bit != 0 || k & bit != 0 || n & bit != 0 || t & bit != 0 || c
            & bit != 0,
{
    assert(((((a | k) | n) | t) | c) & bit != 0 <==> a & bit != 0 || k & bit != 0 || n & bit != 0 || t & bit != 0
        || c & bit != 0) by (bit_vector);
}

/// The bits of the flags that options ask for.
proof fn lemma_bits_of(x: i32)
    requires
        x == 0 || x == 1 || x == 2 || x == 64 || x == 192 || x == 512 || x == 1025,
    ensures
        x & 1 != 0 <==> x == 1 || x == 1025,
        x & 2 != 0 <==> x == 2,
        x & 64 != 0 <==> x == 64 || x == 192,
        x & 128 != 0 <==> x == 192,
        x & 512 != 0 <==> x == 512,
        x & 1024 != 0 <==> x == 1025,
{
    assert((x & 1 != 0 <==> x == 1 || x == 1025) && (x & 2 != 0 <==> x == 2) && (x & 64 != 0 <==> x == 64 || x
        == 192) && (x & 128 != 0 <==> x == 192) && (x & 512 != 0 <==> x == 512) && (x & 1024 != 0 <==> x == 1025))
        by (bit_vector)
        requires
            x == 0 || x == 1 || x == 2 || x == 64 || x == 192 || x == 512 || x == 1025,
    ;
}

impl OpenOptions {
    /// Each bit that opens a file on Unix is set exactly where it was asked for, by its
    /// option or among the custom flags, whatever the access. Appending writes, and
    /// reading and writing alike, or neither, asks for both.
    pub proof fn lemma_unix_bits(self)
        ensures
            self.unix_flags() & 64 != 0 <==> self.create || self.create_new || self.custom_flags & 64 != 0,
            self.unix_flags() & 128 != 0 <==> self.create_new || self.custom_flags & 128 != 0,
            self.unix_flags() & 512 != 0 <==> self.truncate || self.custom_flags & 512 != 0,
            self.unix_flags() & 1024 != 0 <==> self.append || self.custom_flags & 1024 != 0,
            self.unix_flags() & 1 != 0 <==> self.append || self.write && !self.read || self.custom_flags & 1 != 0,
            self.unix_flags() & 2 != 0 <==> !self.append && self.read == self.write || self.custom_flags & 2 != 0,
    {
        let (a, c) = (self.access_flags(), self.custom_flags);
        let k = if self.create {
            64i32
        } else {
            0i32
        };
        let n = if self.create_new {
            192i32
        } else {
            0i32
        };
        let t = if self.truncate {
            512i32
        } else {
            0i32
        };
        assert(128i32 | 64i32 == 192i32) by (bit_vector);
        assert(1i32 | 1024i32 == 1025i32) by (bit_vector);
        assert(forall|x: i32| #[trigger] (x | 0i32) == x) by (bit_vector);
        assert(self.unix_flags() == (((a | k) | n) | t) | c);
        lemma_any_bit(a, k, n, t, c, 1);
        lemma_any_bit(a, k, n, t, c, 2);
        lemma_any_bit(a, k, n, t, c, 64);
        lemma_any_bit(a, k, n, t, c, 128);
        lemma_any_bit(a, k, n, t, c, 512);
        lemma_any_bit(a, k, n, t, c, 1024);
        lemma_bits_of(a);
        lemma_bits_of(k);
        lemma_bits_of(n);
        lemma_bits_of(t);
    }

    /// Custom flags are all set, and nothing is set that was not asked for.
    pub proof fn lemma_unix_custom(self)
        ensures
            self.unix_flags() & self.custom_flags == self.custom_flags,
            self.unix_flags() & !(0x6c3i32 | self.custom_flags) == 0,
    {
        let f = OpenOptions { custom_flags: 0, ..self }.unix_flags();
        let c = self.custom_flags;
        assert(forall|x: i32| #[trigger] (x | 0i32) == x) by (bit_vector);
        assert(self.unix_flags() == f | c);
        assert(128i32 | 64i32 == 192i32) by (bit_vector);
        assert(1i32 | 1024i32 == 1025i32) by (bit_vector);
        let (a, k, n, t) = (
            self.access_flags(),
            if self.create {
                64i32
            } else {
                0i32
            },
            if self.create_new {
                192i32
            } else {
                0i32
            },
            if self.truncate {
                512i32
            } else {
                0i32
            },
        );
        assert(f == ((a | k) | n) | t);
        assert((f | c) & c == c && (f | c) & !(0x6c3i32 | c) == 0) by (bit_vector)
            requires
                f == ((a | k) | n) | t,
                a == 0 || a == 1 || a == 2 || a == 1025,
                k == 0 || k == 64,
                n == 0 || n == 192,
                t == 0 || t == 512,
        ;
    }

    /// On Windows each right is asked for exactly where its option was set.
    pub proof fn lemma_windows_rights(self)
        ensures
            self.windows_access() & 0x8000_0000 != 0 <==> self.read,
            self.windows_access() & 0x4000_0000 != 0 <==> self.write,
            self.windows_access() & 4 != 0 <==> self.append,
            self.windows_access() & !0xc000_0004u32 == 0,
    {
        let r = if self.read {
            0x8000_0000u32
        } else {
            0u32
        };
        let w = if self.write {
            0x4000_0000u32
        } else {
            0u32
        };
        let a = if self.append {
            4u32
        } else {
            0u32
        };
        assert(forall|x: u32| #[trigger] (x | 0u32) == x) by (bit_vector);
        assert(forall|x: u32| #[trigger] (0u32 | x) == x) by (bit_vector);
        let f = self.windows_access();
        assert(f == (r | w) | a);
        assert((f & 0x8000_0000 != 0 <==> r != 0) && (f & 0x4000_0000 != 0 <==> w != 0) && (f & 4 != 0 <==> a
            != 0) && f & !0xc000_0004u32 == 0) by (bit_vector)
            requires
                f == (r | w) | a,
                r == 0 || r == 0x8000_0000,
                w == 0 || w == 0x4000_0000,
                a == 0 || a == 4,
        ;
    }
}

/// Whether a disposition makes a file that is missing: always a new one, in place of
/// any other, or where there is none.
pub open spec fn makes_missing(disposition: u32) -> bool {
    disposition == 1 || disposition == 2 || disposition == 4
}

/// Whether a disposition refuses a file that is there.
pub open spec fn refuses_present(disposition: u32) -> bool {
    disposition == 1
}

/// Whether a disposition empties a file that is there.
pub open spec fn empties_present(disposition: u32) -> bool {
    disposition == 2 || disposition == 5
}

impl OpenOptions {
    /// Options that were not touched ask for nothing but the usual mode of a new file.
    pub proof fn lemma_nothing_asked()
        ensures
            ({
                let o = OpenOptions::closed();
                &&& !o.read && !o.write && !o.append && !o.truncate && !o.create && !o.create_new
                &&& o.mode == 6 * 64 + 6 * 8 + 6
                &&& o.custom_flags == 0
            }),
    {
    }

    /// On Windows a missing file is made exactly where it may be created, a present one
    /// refused exactly where it must be new, and emptied exactly where it is truncated.
    pub proof fn lemma_windows_disposition(self)
        ensures
            1 <= self.windows_disposition() <= 5,
            makes_missing(self.windows_disposition()) <==> self.create || self.create_new,
            refuses_present(self.windows_disposition()) <==> self.create_new,
            empties_present(self.windows_disposition()) <==> self.truncate && !self.create_new,
    {
    }
}

/// The units of a text are read back from its bytes.
pub proof fn lemma_wide_bytes_read_back(path: Seq<u16>)
    ensures
        wide_bytes(path).len() == 2 * path.len(),
        forall|i: int|
            0 <= i < path.len() ==> wide_bytes(path)[2 * i] + 256 * wide_bytes(path)[2 * i + 1] == #[trigger] path[i],
{
    assert forall|i: int| 0 <= i < path.len() implies wide_bytes(path)[2 * i] + 256 * wide_bytes(path)[2 * i + 1]
        == #[trigger] path[i] by {
        assert((2 * i) / 2 == i && (2 * i + 1) / 2 == i && (2 * i) % 2 == 0 && (2 * i + 1) % 2 == 1);
    }
}

} // verus!
