//! What the io_uring driver does, whatever its state.

use crate::config::{IoMode, UringConfig};
use crate::error::{self, IoError};
use crate::io::driver::uring::driver::RingSetup;
use crate::io::driver::uring::model::{self, DriverModel, RemoteCompletion};
use crate::io::driver::uring::op::{self, UringOp};
use crate::io::driver::uring::queue::{Cqe, Sqe, SqeEntry};
use crate::io::driver::platform::IntoPlatformOp;
use crate::io::op::{
    Accept, Close, Connect, Fallocate, Fsync, IoFd, Open, OpLifecycle, RawHandle, ReadFixed, Recv, RecvFrom, Send,
    SendTo, SyncFileRange, Timeout, Wakeup, WriteFixed,
};
use crate::io::remote_op;
use crate::io::socket::sockaddr::{self, SockAddrStorage, SocketAddr};
use crate::io::socket::unix;
use std::task::Waker;
use vstd::prelude::*;

verus! {

/// A write asks for its own file, for what its buffer holds, and for the place in the
/// file that it was given. The buffer goes by its registration exactly where it has one.
pub proof fn lemma_write_goes_where_asked(op: WriteFixed)
    ensures
        match op::write_entry(op) {
            SqeEntry::Write { fd, buf, len, offset } => {
                &&& op.buf.index == 0xffff
                &&& fd == op.fd
                &&& offset == op.offset
                &&& buf == op.buf.offset
                &&& op.buf.len <= u32::MAX ==> len == op.buf.len
            },
            SqeEntry::WriteFixed { fd, buf, len, buf_index, offset } => {
                &&& op.buf.index < 0xffff
                &&& buf_index == op.buf.index
                &&& fd == op.fd
                &&& offset == op.offset
                &&& buf == op.buf.offset
                &&& op.buf.len <= u32::MAX ==> len == op.buf.len
            },
            _ => false,
        },
{
}

/// A read asks for its own file, for all the room of its buffer, and for the place in
/// the file that it was given. The buffer goes by its registration exactly where it has
/// one.
pub proof fn lemma_read_comes_from_where_asked(op: ReadFixed)
    ensures
        match op::read_entry(op) {
            SqeEntry::Read { fd, buf, len, offset } => {
                &&& op.buf.index == 0xffff
                &&& fd == op.fd
                &&& offset == op.offset
                &&& buf == op.buf.offset
                &&& op.buf.cap <= u32::MAX ==> len == op.buf.cap
            },
            SqeEntry::ReadFixed { fd, buf, len, buf_index, offset } => {
                &&& op.buf.index < 0xffff
                &&& buf_index == op.buf.index
                &&& fd == op.fd
                &&& offset == op.offset
                &&& buf == op.buf.offset
                &&& op.buf.cap <= u32::MAX ==> len == op.buf.cap
            },
            _ => false,
        },
{
}

/// The entry of an operation asks for that operation: what it works on, its place, its
/// buffer (all of it to fill, its used part to empty), and all that it was told.
pub proof fn lemma_entry_asks_for_operation(op: UringOp)
    ensures
        match (op, op.entry()) {
            (UringOp::ReadFixed(o), SqeEntry::Read { fd, offset, .. }) => fd == o.fd && offset == o.offset,
            (UringOp::ReadFixed(o), SqeEntry::ReadFixed { fd, offset, .. }) => fd == o.fd && offset == o.offset,
            (UringOp::WriteFixed(o), SqeEntry::Write { fd, offset, .. }) => fd == o.fd && offset == o.offset,
            (UringOp::WriteFixed(o), SqeEntry::WriteFixed { fd, offset, .. }) => fd == o.fd && offset == o.offset,
            (UringOp::Recv(o), SqeEntry::Recv { fd, buf, len }) => {
                &&& fd == o.fd
                &&& buf == o.buf.offset
                &&& o.buf.cap <= u32::MAX ==> len == o.buf.cap
            },
            (UringOp::Send(o), SqeEntry::Send { fd, buf, len }) => {
                &&& fd == o.fd
                &&& buf == o.buf.offset
                &&& o.buf.len <= u32::MAX ==> len == o.buf.len
            },
            (UringOp::Connect(o), SqeEntry::Connect { fd, addr, addr_len }) => {
                &&& fd == o.fd
                &&& addr == o.addr
                &&& addr_len == o.addr_len
            },
            (UringOp::Close(o), SqeEntry::Close { fd }) => fd == o.fd,
            (UringOp::Fsync(o), SqeEntry::Fsync { fd, datasync }) => fd == o.fd && datasync == o.datasync,
            (UringOp::SyncFileRange(o), SqeEntry::SyncFileRange { fd, len, offset, flags }) => {
                &&& fd == o.fd
                &&& offset == o.offset
                &&& flags == o.flags
                &&& o.nbytes <= u32::MAX ==> len == o.nbytes
            },
            (UringOp::Fallocate(o), SqeEntry::Fallocate { fd, len, offset, mode }) => {
                &&& fd == o.fd
                &&& len == o.len
                &&& offset == o.offset
                &&& mode == o.mode
            },
            (UringOp::Accept(o), SqeEntry::Accept { fd, addr_len }) => fd == o.fd && addr_len == o.addr_len,
            (UringOp::SendTo(p), SqeEntry::SendMsg { fd, name, name_len, buf, len }) => {
                &&& fd == p.op.fd
                &&& name == p.msg_name
                &&& name_len == p.msg_namelen
                &&& buf == p.op.buf.offset
                &&& len == p.op.buf.len
            },
            (UringOp::RecvFrom(p), SqeEntry::RecvMsg { fd, name_len, buf, len }) => {
                &&& fd == p.op.fd
                &&& name_len == sockaddr::STORAGE_LEN
                &&& buf == p.op.buf.offset
                &&& len == p.op.buf.cap
            },
            (UringOp::Open(p), SqeEntry::OpenAt { dir_fd, path, flags, mode }) => {
                &&& dir_fd == -100
                &&& path == p.op.path.offset
                &&& flags == p.op.flags
                &&& mode == p.op.mode
            },
            (UringOp::Timeout(p), SqeEntry::Timeout { secs, nanos }) => {
                &&& p.op.duration.secs <= i64::MAX ==> secs == p.op.duration.secs
                &&& nanos == p.op.duration.nanos
            },
            (UringOp::Wakeup(p), SqeEntry::ReadToken { fd, len }) => p.op.fd is Raw ==> p.op.fd == IoFd::Raw(fd)
                && len == 8,
            _ => false,
        },
{
}

/// Filling an operation in for the kernel changes neither what it is nor what it asks
/// for. The parts of a message say what its entry says, and a timeout's two numbers are
/// its seconds and nanoseconds.
pub proof fn lemma_prepared_is_same_operation(o: UringOp)
    ensures
        o.prepared().entry() == o.entry(),
        o.prepared().fd_of() == o.fd_of(),
        o.prepared().ready() == o.ready(),
        match (o, o.prepared()) {
            (UringOp::SendTo(p), UringOp::SendTo(q)) => {
                &&& q.op == p.op
                &&& q.msg_name == p.msg_name
                &&& q.msg_namelen == p.msg_namelen
                &&& q.msghdr.iov_len == 1
                &&& o.entry() matches SqeEntry::SendMsg { name_len, buf, len, .. } && q.iovec.base == buf
                    && q.iovec.len == len && q.msghdr.name_len == name_len
            },
            (UringOp::RecvFrom(p), UringOp::RecvFrom(q)) => {
                &&& q.op == p.op
                &&& q.msg_name == p.msg_name
                &&& q.msg_namelen == p.msg_namelen
                &&& q.msghdr.iov_len == 1
                &&& o.entry() matches SqeEntry::RecvMsg { name_len, buf, len, .. } && q.iovec.base == buf
                    && q.iovec.len == len && q.msghdr.name_len == name_len
            },
            (UringOp::Timeout(p), UringOp::Timeout(q)) => {
                &&& q.op == p.op
                &&& p.op.duration.secs <= i64::MAX ==> q.ts@[0] == p.op.duration.secs
                &&& q.ts@[1] == p.op.duration.nanos
            },
            (UringOp::Timeout(_), _) | (UringOp::SendTo(_), _) | (UringOp::RecvFrom(_), _) => false,
            _ => o.prepared() == o,
        },
{
    if let UringOp::Timeout(p) = o {
        let (a, b) = (p.op.duration.secs as i64, p.op.duration.nanos as i64);
        op::lemma_pair_of(a, b);
    }
}

/// A report leaves an operation as it was, but for the peer's name. A connection that
/// was accepted, or a datagram that was received, knows its peer: the address that the
/// kernel stored. After a failure nobody new is known.
pub proof fn lemma_report_names_peer(o: UringOp, cqe: Cqe, storage: SockAddrStorage, addr: SocketAddr)
    requires
        cqe.peer == Some((storage, sockaddr::addr_bytes(addr, unix::AF_INET6).len() as u32)),
        sockaddr::stores(storage, addr, unix::AF_INET6),
    ensures
        o.completed(cqe).fd_of() == o.fd_of(),
        match (o, o.completed(cqe)) {
            (UringOp::Accept(a), UringOp::Accept(b)) => {
                &&& b.fd == a.fd
                &&& cqe.result >= 0 ==> (b.remote_addr matches Some(peer) && sockaddr::same_addr(peer, addr))
                &&& cqe.result < 0 ==> b.remote_addr == a.remote_addr
            },
            (UringOp::RecvFrom(p), UringOp::RecvFrom(q)) => {
                &&& q.op.fd == p.op.fd
                &&& q.op.buf == p.op.buf
                &&& cqe.result >= 0 ==> (q.op.addr matches Some(peer) && sockaddr::same_addr(peer, addr))
                &&& cqe.result < 0 ==> q.op.addr == p.op.addr
            },
            (UringOp::Accept(_), _) | (UringOp::RecvFrom(_), _) => false,
            _ => o.completed(cqe) == o,
        },
{
    sockaddr::lemma_addr_len(addr, unix::AF_INET6);
    let len = sockaddr::addr_bytes(addr, unix::AF_INET6).len();
    let bytes = storage.bytes@.subrange(0, len as int);
    assert(bytes =~= sockaddr::addr_bytes(addr, unix::AF_INET6) + Seq::<u8>::empty());
    sockaddr::lemma_reads_back(addr, unix::AF_INET6, Seq::<u8>::empty());
}

/// Polling a finished operation gives what the kernel reported: a result that is not
/// negative, zero included, is a success with that number, a negative one the error with
/// the opposite number. The operation comes back with it, once, and no other operation
/// gets a result by it.
pub proof fn lemma_poll_gives_report(m: DriverModel, key: usize, cqe: Cqe, waker: Waker, other: usize)
    requires
        m.inv(),
        m.has(key),
        m.op(key).platform_data.submitted,
        !m.op(key).cancelled,
        m.op(key).platform_data.remote_completer is None,
        m.waker_token != Some(key),
        cqe.valid(),
        cqe.user_data as usize == key,
        !DriverModel::is_reserved(cqe),
        other != key,
    ensures
        m.complete(cqe).poll_result(key) matches Some((res, back)) && {
            &&& cqe.result >= 0 ==> (res matches Ok(n) && n as int == cqe.result as int)
            &&& cqe.result < 0 ==> (res matches Err(IoError::Os(number)) && number + cqe.result == 0)
            &&& back.fd_of() == m.op(key).resources->0.fd_of()
        },
        !m.complete(cqe).poll(key, waker).has(key),
        m.complete_woken(cqe) == (match m.op(key).waker {
            Some(w) => seq![w],
            None => Seq::empty(),
        }),
        m.complete_remote(cqe).len() == 0,
        m.complete(cqe).has(other) == m.has(other),
        m.has(other) ==> m.complete(cqe).op(other) == m.op(other),
{
    error::lemma_kernel_results(cqe.result);
    assert(m.entry_ok(key));
}

/// Somebody on another thread who waits for an operation is answered by its report, with
/// the operation and what the kernel reported, and the driver forgets it.
pub proof fn lemma_remote_gets_report(m: DriverModel, o: UringOp, completer: u64, cqe: Cqe)
    requires
        m.inv(),
        !m.has(m.ops.next_key()),
        o.ready(),
        cqe.valid(),
        cqe.user_data as usize == m.ops.next_key(),
        !DriverModel::is_reserved(cqe),
    ensures
        ({
            let n = remote_op::submitted_for(m, o, completer);
            let answers = n.complete_remote(cqe);
            &&& n.has(m.ops.next_key())
            &&& answers.len() == 1
            &&& answers[0].completer == completer
            &&& answers[0].op.fd_of() == o.fd_of()
            &&& cqe.result >= 0 ==> (answers[0].result matches Ok(k) && k as int == cqe.result as int)
            &&& cqe.result < 0 ==> (answers[0].result matches Err(IoError::Os(number)) && number + cqe.result == 0)
            &&& !n.complete(cqe).has(m.ops.next_key())
            &&& n.complete_woken(cqe).len() == 0
        }),
{
    error::lemma_kernel_results(cqe.result);
    assert(!(m.waker_token == Some(m.ops.next_key())));
}

/// An operation that is submitted goes to the ring where that has room, as one entry
/// behind the others, under its key; else behind the backlog, and the ring gets nothing.
pub proof fn lemma_submit_goes_one_way(m: DriverModel, key: usize, o: UringOp)
    ensures
        ({
            let n = m.submit(key, o);
            if m.room > 0 {
                &&& n.staged.len() == m.staged.len() + 1
                &&& n.staged.drop_last() == m.staged
                &&& n.staged.last().user_data == key
                &&& n.staged.last().entry == o.entry()
                &&& n.backlog == m.backlog
                &&& n.room == m.room - 1
                &&& n.op(key).platform_data.submitted
            } else {
                &&& n.staged == m.staged
                &&& n.backlog.len() == m.backlog.len() + 1
                &&& n.backlog.drop_last() == m.backlog
                &&& n.backlog.last() == key
                &&& n.room == 0
                &&& !n.op(key).platform_data.submitted
            }
        }),
        m.submit(key, o).op(key).resources == Some(o.prepared()),
        m.submit(key, o).op(key).waker == m.op(key).waker,
        forall|k: usize| k != key && m.has(k) ==> #[trigger] m.submit(key, o).op(k) == m.op(k),
{
    let n = m.submit(key, o);
    if m.room > 0 {
        assert(n.staged.drop_last() =~= m.staged);
    } else {
        assert(n.backlog.drop_last() =~= m.backlog);
    }
}

/// An operation that is cancelled wakes nobody any more. The kernel is asked to cancel
/// it, at once or when there is room, and nothing else is asked.
pub proof fn lemma_cancel_asks_kernel(m: DriverModel, key: usize)
    ensures
        !m.has(key) ==> m.cancel(key) == m,
        m.has(key) ==> {
            let n = m.cancel(key);
            &&& n.op(key).cancelled
            &&& n.op(key).waker is None
            &&& n.op(key).resources == m.op(key).resources
            &&& n.backlog == m.backlog
            &&& if m.room > 0 {
                &&& n.staged.len() == m.staged.len() + 1
                &&& n.staged.drop_last() == m.staged
                &&& n.staged.last().entry matches SqeEntry::AsyncCancel { target } && target == key
                &&& n.staged.last().user_data == 0xffff_ffff_ffff_fffe
                &&& n.cancellations == m.cancellations
            } else {
                &&& n.staged == m.staged
                &&& n.cancellations.len() == m.cancellations.len() + 1
                &&& n.cancellations.drop_last() == m.cancellations
                &&& n.cancellations.last() == key
            }
        },
        forall|k: usize| k != key && m.has(k) ==> #[trigger] m.cancel(key).op(k) == m.op(k),
{
    if m.has(key) {
        let n = m.cancel(key);
        assert(n.staged.drop_last() =~= m.staged || m.room == 0);
        assert(n.cancellations.drop_last() =~= m.cancellations || m.room > 0);
    }
}

/// Entries are only ever added behind those that are staged, and each takes one place of
/// the ring's room.
pub open spec fn spends_room(before: DriverModel, after: DriverModel) -> bool {
    &&& before.staged.is_prefix_of(after.staged)
    &&& after.room + after.staged.len() == before.room + before.staged.len()
}

/// Whatever is submitted, cancelled or flushed takes its room and no more.
pub proof fn lemma_room_is_spent(m: DriverModel, key: usize, o: UringOp)
    ensures
        spends_room(m, m.submit(key, o)),
        spends_room(m, m.cancel(key)),
        spends_room(m, m.flush_backlog()),
        spends_room(m, m.flush_cancellations()),
        spends_room(m, m.submit_waker()),
{
    let (s, c, w) = (m.submit(key, o), m.cancel(key), m.submit_waker());
    assert(m.staged =~= s.staged.subrange(0, m.staged.len() as int));
    assert(m.staged =~= c.staged.subrange(0, m.staged.len() as int));
    assert(m.staged =~= w.staged.subrange(0, m.staged.len() as int));
    lemma_flush_spends(m);
    lemma_cancellations_spend(m);
}

proof fn lemma_flush_spends(m: DriverModel)
    ensures
        spends_room(m, m.flush_backlog()),
    decreases m.backlog.len(),
{
    match m.flush_step() {
        Some(n) => {
            lemma_flush_spends(n);
            assert(m.staged =~= n.staged.subrange(0, m.staged.len() as int));
            let end = m.flush_backlog().staged;
            assert(m.staged =~= end.subrange(0, m.staged.len() as int)) by {
                assert(n.staged =~= end.subrange(0, n.staged.len() as int));
                assert forall|i: int| 0 <= i < m.staged.len() implies m.staged[i] == end[i] by {
                    assert(n.staged[i] == end.subrange(0, n.staged.len() as int)[i]);
                }
            }
        },
        None => {
            assert(m.staged =~= m.staged.subrange(0, m.staged.len() as int));
        },
    }
}

proof fn lemma_cancellations_spend(m: DriverModel)
    ensures
        spends_room(m, m.flush_cancellations()),
    decreases m.cancellations.len(),
{
    assert(m.staged =~= m.staged.subrange(0, m.staged.len() as int));
    if m.cancellations.len() > 0 {
        let key = m.cancellations[0];
        let n = DriverModel { cancellations: m.cancellations.drop_first(), ..m };
        if !m.has(key) {
            lemma_cancellations_spend(n);
        } else if m.room > 0 {
            let p = n.push(model::cancel_sqe(key));
            lemma_cancellations_spend(p);
            let end = m.flush_cancellations().staged;
            assert forall|i: int| 0 <= i < m.staged.len() implies m.staged[i] == end[i] by {
                assert(p.staged[i] == end.subrange(0, p.staged.len() as int)[i]);
            }
            assert(m.staged =~= end.subrange(0, m.staged.len() as int));
        }
    }
}

/// With room for all, every cancellation of an operation that is still there is asked of
/// the kernel, and none is left over.
pub proof fn lemma_cancellations_are_sent(m: DriverModel)
    requires
        m.room >= m.cancellations.len(),
    ensures
        m.flush_cancellations().cancellations.len() == 0,
        forall|i: int|
            0 <= i < m.cancellations.len() && m.has(#[trigger] m.cancellations[i]) ==> exists|j: int|
                m.staged.len() <= j < m.flush_cancellations().staged.len() && (
                #[trigger] m.flush_cancellations().staged[j]).entry == (SqeEntry::AsyncCancel {
                    target: m.cancellations[i] as u64,
                }),
    decreases m.cancellations.len(),
{
    if m.cancellations.len() > 0 {
        let key = m.cancellations[0];
        let n = DriverModel { cancellations: m.cancellations.drop_first(), ..m };
        let p = if m.has(key) {
            n.push(model::cancel_sqe(key))
        } else {
            n
        };
        lemma_cancellations_are_sent(p);
        lemma_cancellations_spend(p);
        let end = m.flush_cancellations();
        assert(end == p.flush_cancellations());
        assert forall|i: int| 0 <= i < m.cancellations.len() && m.has(#[trigger] m.cancellations[i]) implies exists|
            j: int,
        |
            m.staged.len() <= j < end.staged.len() && (#[trigger] end.staged[j]).entry == (SqeEntry::AsyncCancel {
                target: m.cancellations[i] as u64,
            }) by {
            if i == 0 {
                let j = m.staged.len() as int;
                assert(p.staged[j] == end.staged.subrange(0, p.staged.len() as int)[j]);
                assert(end.staged[j].entry == (SqeEntry::AsyncCancel { target: key as u64 }));
            } else {
                assert(p.cancellations[i - 1] == m.cancellations[i]);
                assert(p.has(p.cancellations[i - 1]));
                let j = choose|j: int|
                    p.staged.len() <= j < end.staged.len() && (#[trigger] end.staged[j]).entry
                        == (SqeEntry::AsyncCancel { target: p.cancellations[i - 1] as u64 });
                assert(end.staged[j].entry == (SqeEntry::AsyncCancel { target: m.cancellations[i] as u64 }));
            }
        }
    }
}

/// An operation that leaves the backlog for the ring is asked of the kernel: its entry is
/// staged, under its key.
pub proof fn lemma_flushed_is_staged(m: DriverModel, i: int)
    requires
        m.inv(),
        0 <= i < m.backlog.len() - m.flush_backlog().backlog.len(),
        !m.op(m.backlog[i]).cancelled,
    ensures
        m.flush_backlog().staged.contains(
            Sqe { entry: m.op(m.backlog[i]).resources->0.entry(), user_data: m.backlog[i] as u64 },
        ),
    decreases m.backlog.len(),
{
    let sqe = Sqe { entry: m.op(m.backlog[i]).resources->0.entry(), user_data: m.backlog[i] as u64 };
    let n = m.flush_step()->0;
    m.lemma_flush_step();
    assert(m.waiting(0));
    if i == 0 {
        lemma_flush_spends(n);
        let end = m.flush_backlog().staged;
        let j = n.staged.len() - 1;
        assert(n.staged[j] == sqe);
        assert(n.staged[j] == end.subrange(0, n.staged.len() as int)[j]);
        assert(end[j] == sqe);
    } else {
        assert(n.backlog[i - 1] == m.backlog[i]);
        assert(m.backlog[i] != m.backlog[0]);
        lemma_flushed_is_staged(n, i - 1);
    }
}

/// Whoever polls an operation without a result is the one who is woken by its report.
pub proof fn lemma_poller_is_woken(m: DriverModel, key: usize, waker: Waker, cqe: Cqe)
    requires
        m.has(key),
        m.op(key).platform_data.submitted,
        m.op(key).result is None,
        !m.op(key).cancelled,
        m.op(key).platform_data.remote_completer is None,
        m.waker_token != Some(key),
        cqe.user_data as usize == key,
        !DriverModel::is_reserved(cqe),
    ensures
        m.poll_result(key) is None,
        m.poll(key, waker).has(key),
        m.poll(key, waker).complete_woken(cqe) == seq![waker],
{
}

/// The event loop can always be woken: after a wake-up it waits for the next, with a
/// read of its own handle in the ring or in line for it.
pub proof fn lemma_wake_up_is_renewed(m: DriverModel)
    requires
        m.waker_token matches Some(t) ==> m.has(t),
    ensures
        ({
            let n = m.rearm();
            &&& n.waker_token matches Some(token) && {
                &&& n.has(token)
                &&& n.op(token).resources matches Some(UringOp::Wakeup(p)) && p.op.fd == IoFd::Raw(m.waker_fd)
                &&& m.room > 0 ==> {
                    &&& n.staged.len() == m.staged.len() + 1
                    &&& n.staged.last().user_data == token
                    &&& n.staged.last().entry matches SqeEntry::ReadToken { fd, .. } && fd == m.waker_fd
                }
                &&& m.room == 0 ==> n.backlog.len() > 0 && n.backlog.last() == token
            }
        }),
{
}

/// Reports under the keys that are set aside change nothing, and those keys differ.
pub proof fn lemma_reserved_reports(m: DriverModel, cqe: Cqe)
    requires
        cqe.user_data == 0xffff_ffff_ffff_ffff || cqe.user_data == 0xffff_ffff_ffff_fffe || cqe.user_data
            == 0xffff_ffff_ffff_fffd,
    ensures
        m.complete(cqe) == m,
        !m.is_wakeup(cqe),
        m.complete_woken(cqe).len() == 0,
        m.complete_remote(cqe).len() == 0,
{
}

/// A ring is as large as its settings say, and polled exactly where they say so. The
/// basic one asks for nothing that a kernel may not know.
pub proof fn lemma_ring_follows_settings(config: UringConfig)
    ensures
        RingSetup::preferred_for(config).entries == config.entries,
        RingSetup::basic_for(config).entries == config.entries,
        RingSetup::preferred_for(config).sqpoll_idle_ms == (match config.mode {
            IoMode::Polling => Some(config.sqpoll_idle_ms),
            IoMode::Interrupt => None,
        }),
        ({
            let basic = RingSetup::basic_for(config);
            !basic.coop_taskrun && !basic.single_issuer && !basic.defer_taskrun && basic.sqpoll_idle_ms is None
        }),
        ({
            let setup = RingSetup::preferred_for(config);
            setup.coop_taskrun && setup.single_issuer && setup.defer_taskrun
        }),
{
}

/// An operation reaches the driver whole, and comes back whole where the driver did
/// nothing.
pub proof fn lemma_carried_whole(
    p: UringOp,
    read: ReadFixed,
    write: WriteFixed,
    recv: Recv,
    send: Send,
    connect: Connect,
    close: Close,
    fsync: Fsync,
    sync: SyncFileRange,
    fallocate: Fallocate,
    accept: Accept,
)
    ensures
        read.carried_by(p) ==> p == UringOp::ReadFixed(read),
        write.carried_by(p) ==> p == UringOp::WriteFixed(write),
        recv.carried_by(p) ==> p == UringOp::Recv(recv),
        send.carried_by(p) ==> p == UringOp::Send(send),
        connect.carried_by(p) ==> p == UringOp::Connect(connect),
        close.carried_by(p) ==> p == UringOp::Close(close),
        fsync.carried_by(p) ==> p == UringOp::Fsync(fsync),
        sync.carried_by(p) ==> p == UringOp::SyncFileRange(sync),
        fallocate.carried_by(p) ==> p == UringOp::Fallocate(fallocate),
        accept.carried_by(p) ==> p == UringOp::Accept(accept),
        ReadFixed::carried(UringOp::ReadFixed(read)) == read,
        WriteFixed::carried(UringOp::WriteFixed(write)) == write,
        Recv::carried(UringOp::Recv(recv)) == recv,
        Send::carried(UringOp::Send(send)) == send,
        Connect::carried(UringOp::Connect(connect)) == connect,
        Close::carried(UringOp::Close(close)) == close,
        Fsync::carried(UringOp::Fsync(fsync)) == fsync,
        SyncFileRange::carried(UringOp::SyncFileRange(sync)) == sync,
        Fallocate::carried(UringOp::Fallocate(fallocate)) == fallocate,
        Accept::carried(UringOp::Accept(accept)) == accept,
{
}

/// So does one that needs more of the kernel: a datagram to an address names that
/// address, one from anybody has all the room there is for a name.
pub proof fn lemma_carried_with_more(
    p: UringOp,
    send_to: SendTo,
    recv_from: RecvFrom,
    open: Open,
    timeout: Timeout,
    wakeup: Wakeup,
)
    ensures
        send_to.carried_by(p) ==> {
            &&& SendTo::carried(p) == send_to
            &&& p matches UringOp::SendTo(q) && {
                &&& q.op == send_to
                &&& q.msg_namelen == (if send_to.addr is V4 {
                    16int
                } else {
                    28
                })
                &&& sockaddr::addr_in(q.msg_name.bytes@, 10) matches Ok(a) && sockaddr::same_addr(a, send_to.addr)
            }
        },
        recv_from.carried_by(p) ==> {
            &&& RecvFrom::carried(p) == recv_from
            &&& p matches UringOp::RecvFrom(q) && q.op == recv_from && q.msg_namelen == 128
        },
        open.carried_by(p) ==> Open::carried(p) == open && p is Open,
        timeout.carried_by(p) ==> Timeout::carried(p) == timeout && p is Timeout,
        wakeup.carried_by(p) ==> Wakeup::carried(p) == wakeup && p is Wakeup,
{
    if send_to.carried_by(p) {
        let bytes = sockaddr::addr_bytes(send_to.addr, unix::AF_INET6);
        let padding = Seq::new((sockaddr::STORAGE_LEN - bytes.len()) as nat, |i: int| 0u8);
        sockaddr::lemma_addr_len(send_to.addr, unix::AF_INET6);
        sockaddr::lemma_reads_back(send_to.addr, unix::AF_INET6, padding);
    }
}

/// A result that is not negative is the number of the accepted socket, and whoever is at
/// its other end is the peer that the operation knows.
pub proof fn lemma_accepted_gives_socket(
    op: Accept,
    res: Result<usize, IoError>,
    output: Result<(RawHandle, SocketAddr), IoError>,
)
    requires
        op.gives(res, output),
    ensures
        output is Ok <==> res is Ok,
        res matches Ok(n) ==> (n <= i64::MAX ==> output->Ok_0.0.raw == n),
        res is Ok ==> (op.remote_addr matches Some(peer) ==> output->Ok_0.1 == peer),
        res matches Err(e) ==> output == Err::<(RawHandle, SocketAddr), IoError>(e),
{
}

/// A report on no operation changes nothing and tells nobody.
pub proof fn lemma_stray_report(m: DriverModel, cqe: Cqe)
    requires
        !m.has(cqe.user_data as usize),
    ensures
        m.complete(cqe) == m,
        m.complete_woken(cqe).len() == 0,
        m.complete_remote(cqe).len() == 0,
{
}

/// A report on an operation that was cancelled is its end: it is forgotten, and nobody is
/// told.
pub proof fn lemma_cancelled_is_forgotten(m: DriverModel, cqe: Cqe, other: usize)
    requires
        m.finishes(cqe),
        m.op(cqe.user_data as usize).cancelled,
        other != cqe.user_data as usize,
    ensures
        !m.complete(cqe).has(cqe.user_data as usize),
        !m.complete(cqe).backlog.contains(cqe.user_data as usize),
        m.complete_woken(cqe).len() == 0,
        m.complete_remote(cqe).len() == 0,
        m.complete(cqe).has(other) == m.has(other),
        m.has(other) ==> m.complete(cqe).op(other) == m.op(other),
        m.complete(cqe).backlog.contains(other) == m.backlog.contains(other),
{
    model::lemma_without(m.backlog, cqe.user_data as usize);
}

/// A report counts for an operation exactly where there is one under its key that is not
/// the event loop's own.
pub proof fn lemma_which_reports_count(m: DriverModel, cqe: Cqe)
    requires
        cqe.user_data as usize != 0xffff_ffff_ffff_fffdu64 as usize,
        cqe.user_data as usize != 0xffff_ffff_ffff_fffeu64 as usize,
        cqe.user_data as usize != 0xffff_ffff_ffff_ffffu64 as usize,
    ensures
        m.waker_token == Some(cqe.user_data as usize) ==> m.is_wakeup(cqe) && !m.finishes(cqe),
        m.waker_token != Some(cqe.user_data as usize) ==> !m.is_wakeup(cqe) && (m.finishes(cqe) <==> m.has(
            cqe.user_data as usize,
        )),
{
}

/// Reports are taken in one after the other: some, and then the rest, come to the same as
/// all of them, and whoever is told is told in that order.
pub proof fn lemma_reports_in_order(m: DriverModel, first: Seq<Cqe>, rest: Seq<Cqe>, cqe: Cqe)
    ensures
        m.complete_all(first + rest) == m.complete_all(first).complete_all(rest),
        m.all_woken(first + rest) == m.all_woken(first) + m.complete_all(first).all_woken(rest),
        m.all_remote(first + rest) == m.all_remote(first) + m.complete_all(first).all_remote(rest),
        m.complete_all(seq![cqe]) == m.complete(cqe),
        m.all_woken(seq![cqe]) == m.complete_woken(cqe),
        m.all_remote(seq![cqe]) == m.complete_remote(cqe),
        m.complete_all(Seq::<Cqe>::empty()) == m,
    decreases rest.len(),
{
    let one = seq![cqe];
    assert(one.drop_last() =~= Seq::<Cqe>::empty());
    assert(m.complete_all(one.drop_last()) == m);
    assert(m.all_woken(one.drop_last()) =~= Seq::<Waker>::empty());
    assert(m.all_remote(one.drop_last()) =~= Seq::<RemoteCompletion>::empty());
    assert(one.last() == cqe);
    assert(m.all_woken(one) =~= m.complete_woken(cqe));
    assert(m.all_remote(one) =~= m.complete_remote(cqe));
    let all = first + rest;
    if rest.len() > 0 {
        let most = rest.drop_last();
        lemma_reports_in_order(m, first, most, cqe);
        assert(all.drop_last() =~= first + most);
        assert(all.last() == rest.last());
        let n = m.complete_all(first);
        assert(m.all_woken(all) =~= m.all_woken(first) + n.all_woken(rest));
        assert(m.all_remote(all) =~= m.all_remote(first) + n.all_remote(rest));
    } else {
        assert(all =~= first);
        assert(m.all_woken(first) + Seq::<Waker>::empty() =~= m.all_woken(first));
        assert(m.all_remote(first) + Seq::<RemoteCompletion>::empty() =~= m.all_remote(first));
    }
}

/// Where none of the reports woke the event loop, taking them in is all that happens.
/// Where one did, the event loop can be woken again afterwards.
pub proof fn lemma_processing_renews_wake_up(m: DriverModel, cqes: Seq<Cqe>, i: int)
    requires
        m.inv(),
        forall|i: int| 0 <= i < cqes.len() ==> (#[trigger] cqes[i]).valid(),
        0 <= i < cqes.len(),
    ensures
        m.is_wakeup(cqes[i]) ==> m.process(cqes).waker_token is Some,
        m.is_wakeup(cqes[i]) ==> m.process(cqes).backlog.len() == 0 || m.process(cqes).room == 0,
        (forall|i: int| 0 <= i < cqes.len() ==> !m.is_wakeup(#[trigger] cqes[i])) ==> m.process(cqes)
            == m.complete_all(cqes) && m.process_woken(cqes) == m.all_woken(cqes),
{
    m.lemma_complete_all(cqes);
    let n = m.complete_all(cqes);
    if m.is_wakeup(cqes[i]) {
        assert(m.was_woken(cqes));
        lemma_wake_up_is_renewed(n);
        n.rearm().lemma_flush_token();
        lemma_flush_ends(n.rearm());
    }
    if forall|i: int| 0 <= i < cqes.len() ==> !m.is_wakeup(#[trigger] cqes[i]) {
        assert(!m.was_woken(cqes));
        assert(m.all_woken(cqes) + Seq::<Waker>::empty() =~= m.all_woken(cqes));
    }
}

/// The backlog is flushed until it is empty or the ring is full.
pub proof fn lemma_flush_ends(m: DriverModel)
    ensures
        m.flush_backlog().backlog.len() == 0 || m.flush_backlog().room == 0,
    decreases m.backlog.len(),
{
    if let Some(n) = m.flush_step() {
        lemma_flush_ends(n);
    }
}

/// Whoever waits for an operation that leaves the backlog is woken, once for each. One
/// that was cancelled meanwhile is finished with the error of a cancelled operation.
pub proof fn lemma_flush_wakes(m: DriverModel, i: int)
    requires
        m.inv(),
        0 <= i < m.backlog.len() - m.flush_backlog().backlog.len(),
    ensures
        m.op(m.backlog[i]).waker matches Some(w) ==> m.flush_woken().contains(w),
        m.flush_woken().len() <= m.backlog.len(),
        m.op(m.backlog[i]).cancelled ==> m.flush_backlog().op(m.backlog[i]).result == Some(
            Err::<usize, IoError>(IoError::Os(125)),
        ),
    decreases m.backlog.len(),
{
    m.lemma_flush_progress();
    m.lemma_flush_step();
    lemma_woken_few(m);
    assert(m.waiting(0));
    let n = m.flush_step()->0;
    let here = model::maybe(m.op(m.backlog[0]).waker);
    if i == 0 {
        if let Some(w) = m.op(m.backlog[0]).waker {
            assert(m.flush_woken()[0] == w);
        }
    } else {
        assert(n.backlog[i - 1] == m.backlog[i]);
        assert(m.backlog[i] != m.backlog[0]);
        lemma_flush_wakes(n, i - 1);
        if let Some(w) = m.op(m.backlog[i]).waker {
            let k = choose|k: int| 0 <= k < n.flush_woken().len() && n.flush_woken()[k] == w;
            assert(m.flush_woken()[here.len() + k] == w);
        }
    }
}

proof fn lemma_woken_few(m: DriverModel)
    ensures
        m.flush_woken().len() <= m.backlog.len(),
    decreases m.backlog.len(),
{
    if let Some(n) = m.flush_step() {
        lemma_woken_few(n);
    }
}

/// Whoever asks for a result that is not there is noted, in whatever state the driver is.
pub proof fn lemma_asker_is_noted(m: DriverModel, key: usize, waker: Waker)
    ensures
        m.poll_result(key) is None ==> m.poll(key, waker).op(key).waker == Some(waker),
        m.poll_result(key) is Some ==> !m.poll(key, waker).has(key),
        m.op(key).platform_data.submitted ==> m.poll_woken(key).len() == 0,
        m.op(key).platform_data.submitted && m.op(key).result is None ==> m.poll_result(key) is None,
{
}

/// A new slot is empty, belongs to nobody, and is not in the ring.
pub proof fn lemma_new_slot(m: DriverModel, o: Option<UringOp>)
    ensures
        ({
            let e = model::new_entry(o);
            &&& e.resources == o
            &&& e.waker is None && e.result is None && !e.cancelled
            &&& !e.platform_data.submitted && e.platform_data.remote_completer is None
        }),
        m.reserve().op(m.ops.next_key()).resources is None,
        m.reserve().backlog == m.backlog && m.reserve().staged == m.staged && m.reserve().room == m.room,
{
}

/// Accepting is asked of the listening socket, with all the room there is for the peer's
/// name. Where the operation does not know the peer yet, it is the one that is stored.
pub proof fn lemma_accepts_stored_peer(
    op: Accept,
    fd: RawHandle,
    n: usize,
    output: Result<(RawHandle, SocketAddr), IoError>,
    addr: SocketAddr,
)
    ensures
        op.is_op(fd, ()) ==> op.fd == IoFd::Raw(fd) && op.addr_len == 128 && op.remote_addr is None,
        op.gives(Ok(n), output) && op.remote_addr is None && op.addr_len == 128 && sockaddr::stores(op.addr, addr, 10)
            ==> sockaddr::same_addr(output->Ok_0.1, addr),
{
    if sockaddr::stores(op.addr, addr, 10) && op.addr_len == 128 {
        let bytes = sockaddr::addr_bytes(addr, 10);
        let padding = Seq::new((sockaddr::STORAGE_LEN - bytes.len()) as nat, |i: int| 0u8);
        sockaddr::lemma_reads_back(addr, 10, padding);
        assert(op.addr.bytes@.subrange(0, 128) =~= op.addr.bytes@);
    }
}

/// Where both wait for room, cancellations go to the ring before the backlog. Whoever asks
/// for an operation that is still in the backlog has the backlog go first.
pub proof fn lemma_who_goes_first(m: DriverModel, key: usize, waker: Waker)
    ensures
        m.flush_cancellations().staged.is_prefix_of(m.flush().staged),
        m.flush().cancellations == m.flush_cancellations().cancellations,
        !m.op(key).platform_data.submitted ==> m.flush_backlog().staged.is_prefix_of(m.poll(key, waker).staged),
        !m.op(key).platform_data.submitted ==> m.poll(key, waker).backlog == m.flush_backlog().backlog,
        !m.op(key).platform_data.submitted ==> m.poll_woken(key) == m.flush_woken(),
        m.op(key).platform_data.submitted ==> m.poll(key, waker).staged == m.staged,
{
    lemma_flush_spends(m.flush_cancellations());
    lemma_flush_keeps_cancellations(m.flush_cancellations());
    lemma_cancellations_spend(m.flush_backlog());
    lemma_cancellations_keep_backlog(m.flush_backlog());
}

proof fn lemma_flush_keeps_cancellations(m: DriverModel)
    ensures
        m.flush_backlog().cancellations == m.cancellations,
    decreases m.backlog.len(),
{
    if let Some(n) = m.flush_step() {
        lemma_flush_keeps_cancellations(n);
    }
}

proof fn lemma_cancellations_keep_backlog(m: DriverModel)
    ensures
        m.flush_cancellations().backlog == m.backlog,
    decreases m.cancellations.len(),
{
    if m.cancellations.len() > 0 {
        let key = m.cancellations[0];
        let n = DriverModel { cancellations: m.cancellations.drop_first(), ..m };
        if !m.has(key) {
            lemma_cancellations_keep_backlog(n);
        } else if m.room > 0 {
            lemma_cancellations_keep_backlog(n.push(model::cancel_sqe(key)));
        }
    }
}

/// What an operation works on is what its entry names. Opening a file and waiting work on
/// nothing that is there already.
pub proof fn lemma_works_on_its_file(o: UringOp)
    requires
        o.ready(),
    ensures
        match o.entry() {
            SqeEntry::Read { fd, .. } => o.fd_of() == Some(fd),
            SqeEntry::ReadFixed { fd, .. } => o.fd_of() == Some(fd),
            SqeEntry::Write { fd, .. } => o.fd_of() == Some(fd),
            SqeEntry::WriteFixed { fd, .. } => o.fd_of() == Some(fd),
            SqeEntry::Recv { fd, .. } => o.fd_of() == Some(fd),
            SqeEntry::Send { fd, .. } => o.fd_of() == Some(fd),
            SqeEntry::Connect { fd, .. } => o.fd_of() == Some(fd),
            SqeEntry::Close { fd } => o.fd_of() == Some(fd),
            SqeEntry::Fsync { fd, .. } => o.fd_of() == Some(fd),
            SqeEntry::Accept { fd, .. } => o.fd_of() == Some(fd),
            SqeEntry::SyncFileRange { fd, .. } => o.fd_of() == Some(fd),
            SqeEntry::Fallocate { fd, .. } => o.fd_of() == Some(fd),
            SqeEntry::SendMsg { fd, .. } => o.fd_of() == Some(fd),
            SqeEntry::RecvMsg { fd, .. } => o.fd_of() == Some(fd),
            SqeEntry::ReadToken { fd, .. } => o.fd_of() == Some(IoFd::Raw(fd)),
            SqeEntry::OpenAt { .. } | SqeEntry::Timeout { .. } => o.fd_of() is None,
            _ => false,
        },
{
}

} // verus!
