//! Open files.

use crate::error::IoError;
use crate::fs::open_options::OpenOptions;
use crate::io::buffer::fixed_buf::FixedBuf;
use crate::io::op::{Close, Fallocate, Fsync, IoFd, RawHandle, ReadFixed, SyncFileRange, WriteFixed};
use vstd::prelude::*;

verus! {

pub const SYNC_FILE_RANGE_WAIT_BEFORE: u32 = 1;

pub const SYNC_FILE_RANGE_WRITE: u32 = 2;

pub const SYNC_FILE_RANGE_WAIT_AFTER: u32 = 4;

/// An open file with a position in it. Its methods give the operations to submit.
pub struct File {
    pub fd: IoFd,
    pub pos: u64,
}

/// A sync of part of a file, and what it waits for.
pub struct SyncRangeBuilder<'a> {
    pub file: &'a File,
    pub offset: u64,
    pub nbytes: u64,
    pub flags: u32,
}

/// The flags with one of them on or off.
pub open spec fn with_flag(flags: u32, flag: u32, on: bool) -> u32 {
    if on {
        flags | flag
    } else {
        flags & !flag
    }
}

/// Switching a flag changes that flag alone.
pub proof fn lemma_with_flag(flags: u32, flag: u32, on: bool, other: u32)
    requires
        flag & other == 0,
    ensures
        with_flag(flags, flag, on) & flag == (if on {
            flag
        } else {
            0
        }),
        with_flag(flags, flag, on) & other == flags & other,
{
    assert((flags | flag) & flag == flag && (flags & !flag) & flag == 0) by (bit_vector);
    assert((flags | flag) & other == flags & other && (flags & !flag) & other == flags & other) by (bit_vector)
        requires
            flag & other == 0,
    ;
}

impl<'a> SyncRangeBuilder<'a> {
    fn new(file: &'a File, offset: u64, nbytes: u64) -> (builder: Self)
        ensures
            builder == (SyncRangeBuilder { file, offset, nbytes, flags: 7 }),
    {
        let flags: u32 = SYNC_FILE_RANGE_WAIT_BEFORE | SYNC_FILE_RANGE_WRITE | SYNC_FILE_RANGE_WAIT_AFTER;
        assert(1u32 | 2u32 | 4u32 == 7) by (bit_vector);
        SyncRangeBuilder { file, offset, nbytes, flags }
    }

    /// Whether writes that are under way are waited for first.
    pub fn wait_before(self, wait: bool) -> (builder: Self)
        ensures
            builder == (SyncRangeBuilder {
                flags: with_flag(self.flags, SYNC_FILE_RANGE_WAIT_BEFORE, wait),
                ..self
            }),
    {
        let flags: u32 = if wait {
            self.flags | SYNC_FILE_RANGE_WAIT_BEFORE
        } else {
            self.flags & !SYNC_FILE_RANGE_WAIT_BEFORE
        };
        SyncRangeBuilder { flags, ..self }
    }

    /// Whether changed pages are written.
    pub fn write(self, write: bool) -> (builder: Self)
        ensures
            builder == (SyncRangeBuilder {
                flags: with_flag(self.flags, SYNC_FILE_RANGE_WRITE, write),
                ..self
            }),
    {
        let flags: u32 = if write {
            self.flags | SYNC_FILE_RANGE_WRITE
        } else {
            self.flags & !SYNC_FILE_RANGE_WRITE
        };
        SyncRangeBuilder { flags, ..self }
    }

    /// Whether the writes are waited for in the end.
    pub fn wait_after(self, wait: bool) -> (builder: Self)
        ensures
            builder == (SyncRangeBuilder {
                flags: with_flag(self.flags, SYNC_FILE_RANGE_WAIT_AFTER, wait),
                ..self
            }),
    {
        let flags: u32 = if wait {
            self.flags | SYNC_FILE_RANGE_WAIT_AFTER
        } else {
            self.flags & !SYNC_FILE_RANGE_WAIT_AFTER
        };
        SyncRangeBuilder { flags, ..self }
    }

    /// The operation that does the sync on Windows, where the whole file is synced and
    /// no flag has an effect.
    pub fn into_op_whole(self) -> (op: SyncFileRange)
        ensures
            op == (SyncFileRange {
                fd: self.file.fd,
                offset: self.offset,
                nbytes: self.nbytes,
                flags: 0,
            }),
    {
        SyncFileRange { fd: self.file.fd, offset: self.offset, nbytes: self.nbytes, flags: 0 }
    }

    /// The operation that does the sync.
    pub fn into_op(self) -> (op: SyncFileRange)
        ensures
            op == (SyncFileRange {
                fd: self.file.fd,
                offset: self.offset,
                nbytes: self.nbytes,
                flags: self.flags,
            }),
    {
        SyncFileRange { fd: self.file.fd, offset: self.offset, nbytes: self.nbytes, flags: self.flags }
    }
}

impl File {
    /// The file that an operation opened, from the result that the driver reports.
    pub fn from_result(res: Result<usize, IoError>) -> (file: Result<File, IoError>)
        ensures
            file == (match res {
                Ok(n) => Ok(File { fd: IoFd::Raw(RawHandle { raw: n as i64 }), pos: 0 }),
                Err(e) => Err(e),
            }),
    {
        match res {
            Ok(n) => Ok(File { fd: IoFd::Raw(RawHandle { raw: n as i64 }), pos: 0 }),
            Err(e) => Err(e),
        }
    }

    pub fn options() -> (options: OpenOptions)
        ensures
            options == OpenOptions::closed(),
    {
        OpenOptions::new()
    }

    /// Options to open a file that exists, for reading.
    pub fn open_options() -> (options: OpenOptions)
        ensures
            options == (OpenOptions { read: true, ..OpenOptions::closed() }),
    {
        let mut options = OpenOptions::new();
        options.read(true);
        options
    }

    /// Options to open an empty file for writing, new or emptied.
    pub fn create_options() -> (options: OpenOptions)
        ensures
            options == (OpenOptions { write: true, create: true, truncate: true, ..OpenOptions::closed() }),
    {
        let mut options = OpenOptions::new();
        options.write(true);
        options.create(true);
        options.truncate(true);
        options
    }

    /// Moves to a position.
    pub fn seek(&mut self, pos: u64)
        ensures
            *final(self) == (File { pos, ..*old(self) }),
    {
        self.pos = pos;
    }

    pub fn stream_position(&self) -> (pos: u64)
        ensures
            pos == self.pos,
    {
        self.pos
    }

    pub fn read_at(&self, buf: FixedBuf, offset: u64) -> (op: ReadFixed)
        ensures
            op == (ReadFixed { fd: self.fd, buf, offset }),
    {
        ReadFixed { fd: self.fd, buf, offset }
    }

    pub fn write_at(&self, buf: FixedBuf, offset: u64) -> (op: WriteFixed)
        ensures
            op == (WriteFixed { fd: self.fd, buf, offset }),
    {
        WriteFixed { fd: self.fd, buf, offset }
    }

    /// The operation that reads from the position.
    pub fn read(&self, buf: FixedBuf) -> (op: ReadFixed)
        ensures
            op == (ReadFixed { fd: self.fd, buf, offset: self.pos }),
    {
        self.read_at(buf, self.pos)
    }

    /// The operation that writes at the position.
    pub fn write(&self, buf: FixedBuf) -> (op: WriteFixed)
        ensures
            op == (WriteFixed { fd: self.fd, buf, offset: self.pos }),
    {
        self.write_at(buf, self.pos)
    }

    /// Moves on by what was read or written.
    pub fn advance(&mut self, res: &Result<usize, IoError>)
        requires
            *res matches Ok(n) ==> old(self).pos + n <= u64::MAX,
        ensures
            *final(self) == (match *res {
                Ok(n) => File { pos: (old(self).pos + n) as u64, ..*old(self) },
                Err(_) => *old(self),
            }),
    {
        if let Ok(n) = res {
            self.pos += *n as u64;
        }
    }

    pub fn sync_all(&self) -> (op: Fsync)
        ensures
            op == (Fsync { fd: self.fd, datasync: false }),
    {
        Fsync { fd: self.fd, datasync: false }
    }

    pub fn sync_data(&self) -> (op: Fsync)
        ensures
            op == (Fsync { fd: self.fd, datasync: true }),
    {
        Fsync { fd: self.fd, datasync: true }
    }

    /// A sync of part of the file that waits before and after and writes, until it
    /// is told otherwise.
    pub fn sync_range(&self, offset: u64, nbytes: u64) -> (builder: SyncRangeBuilder<'_>)
        ensures
            builder == (SyncRangeBuilder { file: self, offset, nbytes, flags: 7 }),
    {
        SyncRangeBuilder::new(self, offset, nbytes)
    }

    pub fn fallocate(&self, offset: u64, len: u64) -> (op: Fallocate)
        ensures
            op == (Fallocate { fd: self.fd, mode: 0, offset, len }),
    {
        Fallocate { fd: self.fd, mode: 0, offset, len }
    }

    /// The operation that closes the file.
    pub fn close(&self) -> (op: Close)
        ensures
            op == (Close { fd: self.fd }),
    {
        Close { fd: self.fd }
    }

    /// The handle to close at once, where the driver did not take the operation.
    pub fn close_fallback(&self, submitted: bool) -> (handle: Option<RawHandle>)
        ensures
            handle == (match self.fd {
                IoFd::Raw(h) if !submitted => Some(h),
                _ => None,
            }),
    {
        if submitted {
            None
        } else {
            self.fd.raw()
        }
    }
}

/// Each of the three settings of a sync has its own flag: waiting first is the lowest
/// bit, writing the next, waiting in the end the third. Setting one leaves the others.
pub proof fn lemma_sync_flags(flags: u32, on: bool)
    ensures
        with_flag(flags, SYNC_FILE_RANGE_WAIT_BEFORE, on) & 1 != 0 <==> on,
        with_flag(flags, SYNC_FILE_RANGE_WAIT_BEFORE, on) & 6 == flags & 6,
        with_flag(flags, SYNC_FILE_RANGE_WRITE, on) & 2 != 0 <==> on,
        with_flag(flags, SYNC_FILE_RANGE_WRITE, on) & 5 == flags & 5,
        with_flag(flags, SYNC_FILE_RANGE_WAIT_AFTER, on) & 4 != 0 <==> on,
        with_flag(flags, SYNC_FILE_RANGE_WAIT_AFTER, on) & 3 == flags & 3,
{
    assert(1u32 & 6 == 0 && 2u32 & 5 == 0 && 4u32 & 3 == 0) by (bit_vector);
    lemma_with_flag(flags, 1, on, 6);
    lemma_with_flag(flags, 2, on, 5);
    lemma_with_flag(flags, 4, on, 3);
}

} // verus!
