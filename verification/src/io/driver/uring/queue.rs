//! Entries for the submission queue.

use crate::io::op::{IoFd, RawHandle};
use crate::io::socket::sockaddr::SockAddrStorage;
use vstd::prelude::*;

verus! {

/// What the kernel is asked to do. Buffers are named by their place in the pool's
/// memory.
#[derive(Debug, Clone, Copy)]
#[allow(inconsistent_fields)]
pub enum SqeEntry {
    Read { fd: IoFd, buf: usize, len: u32, offset: u64 },
    ReadFixed { fd: IoFd, buf: usize, len: u32, buf_index: u16, offset: u64 },
    Write { fd: IoFd, buf: usize, len: u32, offset: u64 },
    WriteFixed { fd: IoFd, buf: usize, len: u32, buf_index: u16, offset: u64 },
    Recv { fd: IoFd, buf: usize, len: u32 },
    Send { fd: IoFd, buf: usize, len: u32 },
    Connect { fd: IoFd, addr: SockAddrStorage, addr_len: u32 },
    Close { fd: IoFd },
    Fsync { fd: IoFd, datasync: bool },
    Accept { fd: IoFd, addr_len: u32 },
    SyncFileRange { fd: IoFd, len: u32, offset: u64, flags: u32 },
    Fallocate { fd: IoFd, len: u64, offset: u64, mode: i32 },
    SendMsg { fd: IoFd, name: SockAddrStorage, name_len: u32, buf: usize, len: usize },
    RecvMsg { fd: IoFd, name_len: u32, buf: usize, len: usize },
    OpenAt { dir_fd: i32, path: usize, flags: i32, mode: u32 },
    Timeout { secs: i64, nanos: i64 },
    ReadToken { fd: RawHandle, len: u32 },
    AsyncCancel { target: u64 },
    MsgRing { fd: RawHandle, data: u64 },
}

/// An entry with the key under which the kernel reports its completion.
#[derive(Debug, Clone, Copy)]
pub struct Sqe {
    pub entry: SqeEntry,
    pub user_data: u64,
}

/// What the kernel reports of an entry. Where it stored the name of a peer, the
/// name comes along.
#[derive(Debug, Clone, Copy)]
pub struct Cqe {
    pub user_data: u64,
    pub result: i32,
    pub peer: Option<(SockAddrStorage, u32)>,
}

impl Cqe {
    /// Error numbers can be negated, and names fit into their storage.
    pub open spec fn valid(self) -> bool {
        &&& self.result > i32::MIN
        &&& self.peer matches Some((_, len)) ==> len <= crate::io::socket::sockaddr::STORAGE_LEN
    }
}

/// Entries on their way into the ring. `room` is how many more the ring takes.
pub struct SubmissionQueue {
    pub room: usize,
    pub staged: Vec<Sqe>,
}

impl SubmissionQueue {
    pub fn new(room: usize) -> (queue: Self)
        ensures
            queue.room == room,
            queue.staged@ == Seq::<Sqe>::empty(),
    {
        SubmissionQueue { room, staged: Vec::new() }
    }

    /// Stages an entry, unless the ring is full.
    pub fn push(&mut self, sqe: Sqe) -> (pushed: bool)
        ensures
            pushed == (old(self).room > 0),
            pushed ==> final(self).room == old(self).room - 1 && final(self).staged@ == old(self).staged@.push(
                sqe,
            ),
            !pushed ==> *final(self) == *old(self),
    {
        if self.room == 0 {
            return false;
        }
        self.room -= 1;
        self.staged.push(sqe);
        true
    }

    /// Hands the staged entries over, oldest first.
    pub fn take(&mut self) -> (staged: Vec<Sqe>)
        ensures
            staged@ == old(self).staged@,
            final(self).staged@ == Seq::<Sqe>::empty(),
            final(self).room == old(self).room,
    {
        let mut staged: Vec<Sqe> = Vec::new();
        std::mem::swap(&mut staged, &mut self.staged);
        staged
    }
}

} // verus!
