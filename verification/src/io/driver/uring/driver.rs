//! The io_uring driver: operations in flight, and what waits for room in the
//! ring.

use crate::config::{Config, IoMode, UringConfig};
use crate::error::{from_kernel, IoError};
use crate::io::driver::op_registry::{OpEntry, OpRegistry};
use crate::io::driver::platform::IntoPlatformOp;
use crate::io::driver::stable_slab::{SlabModel, PAGE_SIZE};
use crate::io::driver::uring::model::{
    self, DriverModel, Entry, RemoteCompletion, UringOpState, BACKGROUND_USER_DATA, CANCEL_USER_DATA, ECANCELED,
    RESERVED_USER_DATA,
};
use crate::io::driver::uring::op::UringOp;
use crate::io::driver::uring::queue::{Cqe, Sqe, SqeEntry, SubmissionQueue};
use crate::io::op::{IoFd, RawHandle, Wakeup};
use crate::poll::Poll;
use std::collections::VecDeque;
use std::task::Waker;
use vstd::prelude::*;

verus! {

/// The driver of one event loop. The ring itself belongs to the caller, which
/// moves staged entries into it and hands back what the kernel reports.
pub struct UringDriver {
    ops: OpRegistry<UringOp, UringOpState>,
    backlog_head: Option<usize>,
    backlog_tail: Option<usize>,
    pending_cancellations: VecDeque<usize>,
    waker_fd: RawHandle,
    waker_token: Option<usize>,
    buffers_registered: bool,
    sq: SubmissionQueue,
    backlog: Ghost<Seq<usize>>,
}

/// The operations without their links.
spec fn unlinked_all(ops: SlabModel<Entry>) -> SlabModel<Entry> {
    SlabModel { entries: ops.entries.map_values(|e: Entry| model::unlinked(e)), ..ops }
}

impl UringDriver {
    pub closed spec fn view(self) -> DriverModel {
        DriverModel {
            ops: unlinked_all(self.ops@),
            backlog: self.backlog@,
            cancellations: self.pending_cancellations@,
            waker_fd: self.waker_fd,
            waker_token: self.waker_token,
            buffers_registered: self.buffers_registered,
            room: self.sq.room as nat,
            staged: self.sq.staged@,
        }
    }

    spec fn link(self, i: int) -> Option<usize> {
        if 0 <= i < self.backlog@.len() {
            Some(self.backlog@[i])
        } else {
            None
        }
    }

    spec fn chained(self, i: int) -> bool {
        &&& self.ops@.entries.contains_key(self.backlog@[i])
        &&& self.ops@.entries[self.backlog@[i]].platform_data.next == self.link(i + 1)
    }

    spec fn backlog_ok(self) -> bool {
        &&& self.backlog@.no_duplicates()
        &&& self.backlog_head == self.link(0)
        &&& self.backlog_tail == self.link(self.backlog@.len() - 1)
        &&& forall|i: int| 0 <= i < self.backlog@.len() ==> #[trigger] self.chained(i)
    }

    /// The links thread the backlog in order, and the operations are as the model's
    /// invariant says.
    pub closed spec fn wf(self) -> bool {
        &&& self.ops.wf()
        &&& self.backlog_ok()
        &&& self@.inv()
    }

    pub proof fn lemma_inv(self)
        requires
            self.wf(),
        ensures
            self@.inv(),
            !self@.has(self@.ops.next_key()),
    {
        self.ops.lemma_keys();
        let m = self.ops@;
        assert(m.grown().free =~= self@.ops.grown().free);
        if m.free.len() > 0 {
            assert(m.grown().free[0] == m.free[0]);
        } else {
            assert(m.grown().free[0] == m.capacity);
        }
    }

    /// Changing one entry changes it in the model.
    proof fn lemma_entry_changed(before: Self, after: Self, key: usize, e: Entry)
        requires
            before.ops@.entries.contains_key(key),
            after.ops@ == (SlabModel { entries: before.ops@.entries.insert(key, e), ..before.ops@ }),
        ensures
            after@.ops == (SlabModel { entries: before@.ops.entries.insert(key, model::unlinked(e)), ..before@.ops }),
    {
        assert(after@.ops.entries =~= before@.ops.entries.insert(key, model::unlinked(e)));
    }

    /// Links that did not change still thread the backlog.
    proof fn lemma_links_kept(before: Self, after: Self)
        requires
            before.backlog_ok(),
            after.backlog == before.backlog,
            after.backlog_head == before.backlog_head,
            after.backlog_tail == before.backlog_tail,
            forall|k: usize| #[trigger]
                before.backlog@.contains(k) ==> after.ops@.entries.contains_key(k)
                    && after.ops@.entries[k].platform_data.next == before.ops@.entries[k].platform_data.next,
        ensures
            after.backlog_ok(),
    {
        assert forall|i: int| 0 <= i < after.backlog@.len() implies #[trigger] after.chained(i) by {
            assert(before.chained(i));
            assert(before.backlog@.contains(before.backlog@[i]));
        }
    }

    proof fn lemma_links_same(before: Self, after: Self)
        requires
            before.backlog_ok(),
            after.backlog == before.backlog,
            after.backlog_head == before.backlog_head,
            after.backlog_tail == before.backlog_tail,
            after.ops == before.ops,
        ensures
            after.backlog_ok(),
    {
        assert forall|i: int| 0 <= i < after.backlog@.len() implies #[trigger] after.chained(i) by {
            assert(before.chained(i));
        }
    }

    /// Whether the ring's size can be counted.
    pub open spec fn fits(config: Config) -> bool {
        config.uring.entries + PAGE_SIZE <= usize::MAX
    }

    /// A driver without operations.
    pub open spec fn fresh(config: Config, waker_fd: RawHandle, room: nat) -> DriverModel {
        DriverModel {
            ops: SlabModel::<Entry>::empty().with_pages(
                SlabModel::<Entry>::empty().pages_for(config.uring.entries as nat),
            ),
            backlog: Seq::empty(),
            cancellations: Seq::empty(),
            waker_fd,
            waker_token: None,
            buffers_registered: false,
            room,
            staged: Seq::empty(),
        }
    }

    /// Starts a driver on a ring with room for `room` entries, and lets the handle
    /// `waker_fd` wake it. `waker_fd` is negative where the system has no such
    /// handle, for the reason `errno`.
    pub fn new(config: &Config, waker_fd: i32, errno: i32, room: usize) -> (driver: Result<Self, IoError>)
        requires
            Self::fits(*config),
        ensures
            waker_fd < 0 ==> driver == Err::<Self, IoError>(IoError::Os(errno)),
            waker_fd >= 0 ==> {
                &&& driver is Ok
                &&& driver->Ok_0.wf()
                &&& driver->Ok_0@ == Self::fresh(*config, RawHandle { raw: waker_fd as i64 }, room as nat).submit_waker()
            },
    {
        if waker_fd < 0 {
            return Err(IoError::Os(errno));
        }
        let entries: usize = config.uring.entries as usize;
        let ops: OpRegistry<UringOp, UringOpState> = OpRegistry::with_capacity(entries);
        let mut driver = UringDriver {
            ops,
            backlog_head: None,
            backlog_tail: None,
            pending_cancellations: VecDeque::new(),
            waker_fd: RawHandle { raw: waker_fd as i64 },
            waker_token: None,
            buffers_registered: false,
            sq: SubmissionQueue::new(room),
            backlog: Ghost(Seq::empty()),
        };
        proof {
            Self::lemma_no_entries(SlabModel::<Entry>::empty().pages_for(entries as nat));
            assert(driver@.ops.entries =~= driver.ops@.entries);
            assert(driver@ =~= Self::fresh(*config, RawHandle { raw: waker_fd as i64 }, room as nat));
            assert(driver.ops@.can_insert()) by {
                Self::lemma_insertable(driver.ops, entries as nat);
            }
        }
        driver.submit_waker();
        Ok(driver)
    }

    proof fn lemma_no_entries(n: nat)
        ensures
            SlabModel::<Entry>::empty().with_pages(n).entries == Map::<usize, Entry>::empty(),
            SlabModel::<Entry>::empty().with_pages(n).capacity == n * PAGE_SIZE,
            SlabModel::<Entry>::empty().with_pages(n).free.len() == n * PAGE_SIZE,
        decreases n,
    {
        if n > 0 {
            Self::lemma_no_entries((n - 1) as nat);
            assert((n - 1) * PAGE_SIZE + PAGE_SIZE == n * PAGE_SIZE) by (nonlinear_arith);
        } else {
            assert(0 * PAGE_SIZE == 0) by (nonlinear_arith);
        }
    }

    /// A new driver has no operation, nothing in line and nothing staged, and room for as
    /// many operations as its settings say.
    pub proof fn lemma_fresh_is_empty(config: Config, waker_fd: RawHandle, room: nat, key: usize)
        ensures
            ({
                let m = UringDriver::fresh(config, waker_fd, room);
                &&& !m.has(key)
                &&& m.backlog.len() == 0
                &&& m.cancellations.len() == 0
                &&& m.staged.len() == 0
                &&& m.waker_token is None
                &&& m.waker_fd == waker_fd
                &&& m.room == room
                &&& !m.buffers_registered
                &&& m.ops.capacity >= config.uring.entries
                &&& m.ops.free.len() == m.ops.capacity
            }),
    {
        let none = SlabModel::<Entry>::empty();
        Self::lemma_no_entries(none.pages_for(config.uring.entries as nat));
        none.lemma_pages_suffice(config.uring.entries as nat);
    }

    proof fn lemma_insertable(ops: OpRegistry<UringOp, UringOpState>, entries: nat)
        requires
            ops.wf(),
            ops@ == SlabModel::<Entry>::empty().with_pages(SlabModel::<Entry>::empty().pages_for(entries)),
        ensures
            ops@.can_insert(),
    {
        let n = SlabModel::<Entry>::empty().pages_for(entries);
        Self::lemma_no_entries(n);
        if n > 0 {
            assert(n * PAGE_SIZE > 0) by (nonlinear_arith)
                requires
                    n > 0,
                    PAGE_SIZE > 0,
            ;
        } else {
            assert(0 * PAGE_SIZE == 0) by (nonlinear_arith);
        }
    }

    /// Lets the handle wake the event loop, unless it can already.
    fn submit_waker(&mut self)
        requires
            old(self).wf(),
            old(self).waker_token.is_none() ==> old(self).ops@.can_insert(),
        ensures
            final(self).wf(),
            final(self)@ == old(self)@.submit_waker(),
    {
        if self.waker_token.is_some() {
            return;
        }
        let op = Wakeup { fd: IoFd::Raw(self.waker_fd) };
        let uring_op: UringOp = op.into_platform_op();
        proof {
            self.lemma_inv();
        }
        let user_data: usize = self.insert(OpEntry::new(Some(uring_op), UringOpState::new()));
        let ghost mid = *self;
        self.waker_token = Some(user_data);
        proof {
            Self::lemma_links_same(mid, *self);
            let base = DriverModel { waker_token: None, ..self@ };
            assert(base =~= mid@);
            assert(self@.inv()) by {
                assert forall|k: usize| #[trigger] self@.has(k) implies self@.entry_ok(k) by {
                    assert(mid@.has(k));
                    assert(mid@.entry_ok(k));
                }
                assert forall|i: int| 0 <= i < self@.backlog.len() implies #[trigger] self@.waiting(i) by {
                    assert(mid@.waiting(i));
                }
            }
            assert(self@ =~= (DriverModel { waker_token: Some(user_data), ..mid@ }));
        }
        self.dispatch(user_data);
    }

    /// Puts an operation under the next key.
    fn insert(&mut self, entry: Entry) -> (key: usize)
        requires
            old(self).wf(),
            old(self).ops@.can_insert(),
            !entry.platform_data.submitted,
            entry.result.is_none(),
            entry.resources matches Some(op) ==> op.ready(),
            entry.platform_data.next.is_none(),
        ensures
            final(self).wf(),
            key == old(self)@.ops.next_key(),
            final(self)@ == old(self)@.inserted(entry),
            !final(self)@.backlog.contains(key),
            final(self)@.has(key),
            final(self)@.op(key) == entry,
    {
        let ghost before = *self;
        let key: usize = self.ops.insert(entry);
        proof {
            before.lemma_inv();
            assert(before.ops@.grown().free =~= before@.ops.grown().free);
            before@.lemma_inserted(entry);
            assert(self@.ops.entries =~= before@.ops.entries.insert(key, entry));
            assert(self@ =~= before@.inserted(entry));
            assert forall|k: usize| #[trigger] before.backlog@.contains(k) implies self.ops@.entries.contains_key(k)
                && self.ops@.entries[k].platform_data.next == before.ops@.entries[k].platform_data.next by {
                let i = choose|i: int| 0 <= i < before.backlog@.len() && before.backlog@[i] == k;
                assert(before.chained(i));
            }
            Self::lemma_links_kept(before, *self);
        }
        key
    }

    /// Whether one more operation can be set up.
    pub fn has_room(&self) -> (room: bool)
        requires
            self.wf(),
        ensures
            room == self@.ops.can_insert(),
    {
        self.ops.has_room()
    }

    /// Sets a slot aside for an operation, and tells its key.
    pub fn reserve_op(&mut self) -> (user_data: usize)
        requires
            old(self).wf(),
            old(self)@.ops.can_insert(),
        ensures
            final(self).wf(),
            user_data == old(self)@.ops.next_key(),
            !old(self)@.has(user_data),
            final(self)@ == old(self)@.reserve(),
            final(self)@.has(user_data),
            !final(self)@.backlog.contains(user_data),
            final(self)@.waker_token != Some(user_data),
    {
        proof {
            self.lemma_inv();
        }
        self.insert(OpEntry::new(None, UringOpState::new()))
    }

    /// Notes who on another thread waits for an operation.
    pub fn attach_remote_completer(&mut self, user_data: usize, completer: u64)
        requires
            old(self).wf(),
        ensures
            final(self).wf(),
            final(self)@ == (if old(self)@.has(user_data) {
                let e = old(self)@.op(user_data);
                old(self)@.with_op(
                    user_data,
                    OpEntry {
                        platform_data: UringOpState { remote_completer: Some(completer), ..e.platform_data },
                        ..e
                    },
                )
            } else {
                old(self)@
            }),
    {
        let ghost before = *self;
        if self.ops.contains(user_data) {
            if let Some(entry) = self.ops.get_mut(user_data) {
                entry.platform_data.remote_completer = Some(completer);
            }
            proof {
                Self::lemma_entry_changed(before, *self, user_data, self.ops@.entries[user_data]);
                before.lemma_links_of(*self, user_data);
                assert(before@.entry_ok(user_data)) by {
                    assert(before@.has(user_data));
                }
                before@.lemma_with_op(user_data, self@.op(user_data));
                assert(self@ =~= before@.with_op(user_data, self@.op(user_data)));
            }
        }
    }

    /// Changing an entry and not its link leaves the backlog threaded.
    proof fn lemma_links_of(self, after: Self, key: usize)
        requires
            self.backlog_ok(),
            self.ops@.entries.contains_key(key),
            after.backlog == self.backlog,
            after.backlog_head == self.backlog_head,
            after.backlog_tail == self.backlog_tail,
            after.ops@.entries == self.ops@.entries.insert(key, after.ops@.entries[key]),
            after.ops@.entries[key].platform_data.next == self.ops@.entries[key].platform_data.next,
        ensures
            after.backlog_ok(),
    {
        assert forall|k: usize| #[trigger] self.backlog@.contains(k) implies after.ops@.entries.contains_key(k)
            && after.ops@.entries[k].platform_data.next == self.ops@.entries[k].platform_data.next by {
            let i = choose|i: int| 0 <= i < self.backlog@.len() && self.backlog@[i] == k;
            assert(self.chained(i));
        }
        Self::lemma_links_kept(self, after);
    }

    /// Puts an operation behind the backlog.
    fn push_backlog(&mut self, user_data: usize)
        requires
            old(self).ops.wf(),
            old(self).backlog_ok(),
            old(self).ops@.entries.contains_key(user_data),
            !old(self).backlog@.contains(user_data),
        ensures
            final(self).ops.wf(),
            final(self).backlog_ok(),
            final(self)@ == (DriverModel { backlog: old(self)@.backlog.push(user_data), ..old(self)@ }),
    {
        let ghost before = *self;
        let ghost n = self.backlog@.len() as int;
        if let Some(tail) = self.backlog_tail {
            assert(before.chained(n - 1));
            if let Some(entry) = self.ops.get_mut(tail) {
                entry.platform_data.next = Some(user_data);
            }
            self.backlog_tail = Some(user_data);
            proof {
                Self::lemma_entry_changed(before, *self, tail, self.ops@.entries[tail]);
                assert(self@.ops.entries =~= before@.ops.entries);
            }
        } else {
            self.backlog_head = Some(user_data);
            self.backlog_tail = Some(user_data);
        }
        let ghost mid = *self;
        if let Some(entry) = self.ops.get_mut(user_data) {
            entry.platform_data.next = None;
        }
        proof {
            Self::lemma_entry_changed(mid, *self, user_data, self.ops@.entries[user_data]);
            assert(self@.ops.entries =~= before@.ops.entries);
            self.backlog = Ghost(self.backlog@.push(user_data));
            assert forall|i: int| 0 <= i < self.backlog@.len() implies #[trigger] self.chained(i) by {
                if i < n {
                    assert(before.chained(i));
                    assert(before.backlog@.contains(before.backlog@[i]));
                    if i < n - 1 {
                        assert(before.backlog@[i] != before.backlog@[n - 1]);
                    }
                }
            }
            assert(self.backlog@.no_duplicates()) by {
                assert forall|i: int, j: int| 0 <= i < self.backlog@.len() && 0 <= j < self.backlog@.len() && i
                    != j implies self.backlog@[i] != self.backlog@[j] by {
                    if i < n {
                        assert(before.backlog@.contains(before.backlog@[i]));
                    }
                    if j < n {
                        assert(before.backlog@.contains(before.backlog@[j]));
                    }
                }
            }
            assert(self@ =~= (DriverModel { backlog: before@.backlog.push(user_data), ..before@ }));
        }
    }

    /// Takes the first operation off the backlog.
    fn pop_backlog(&mut self) -> (popped: Option<usize>)
        requires
            old(self).ops.wf(),
            old(self).backlog_ok(),
        ensures
            final(self).ops.wf(),
            final(self).backlog_ok(),
            popped == old(self).link(0),
            final(self)@ == (if popped.is_some() {
                DriverModel { backlog: old(self)@.backlog.drop_first(), ..old(self)@ }
            } else {
                old(self)@
            }),
            popped matches Some(k) ==> final(self).ops@.entries.contains_key(k) && final(self).ops@.entries[k].platform_data.next.is_none(),
    {
        let ghost before = *self;
        let head: usize = match self.backlog_head {
            Some(head) => head,
            None => return None,
        };
        assert(before.chained(0));
        let next: Option<usize> = match self.ops.get(head) {
            Some(entry) => entry.platform_data.next,
            None => None,
        };
        self.backlog_head = next;
        if next.is_none() {
            self.backlog_tail = None;
        }
        if let Some(entry) = self.ops.get_mut(head) {
            entry.platform_data.next = None;
        }
        proof {
            Self::lemma_entry_changed(before, *self, head, self.ops@.entries[head]);
            assert(self@.ops.entries =~= before@.ops.entries);
            self.backlog = Ghost(self.backlog@.drop_first());
            assert forall|i: int| 0 <= i < self.backlog@.len() implies #[trigger] self.chained(i) by {
                assert(before.chained(i + 1));
                assert(before.backlog@[i + 1] != before.backlog@[0]);
            }
            assert(self@ =~= (DriverModel { backlog: before@.backlog.drop_first(), ..before@ }));
        }
        Some(head)
    }

    /// Sends an operation on its way: into the ring, or behind the backlog.
    fn dispatch(&mut self, user_data: usize) -> (pushed: bool)
        requires
            old(self).wf(),
            old(self)@.has(user_data),
            old(self)@.op(user_data).resources.is_some(),
            !old(self)@.backlog.contains(user_data),
        ensures
            final(self).wf(),
            pushed == (old(self)@.room > 0),
            final(self)@ == old(self)@.dispatch(user_data),
    {
        let ghost before = *self;
        proof {
            assert(before@.entry_ok(user_data));
            before@.lemma_dispatch(user_data);
        }
        let mut entry: SqeEntry = SqeEntry::AsyncCancel { target: 0 };
        let pushed: bool = self.sq.room > 0;
        if let Some(e) = self.ops.get_mut(user_data) {
            if let Some(op) = &mut e.resources {
                entry = op.make_sqe();
            }
            e.platform_data.submitted = pushed;
        }
        proof {
            Self::lemma_entry_changed(before, *self, user_data, self.ops@.entries[user_data]);
            before.lemma_links_of(*self, user_data);
        }
        let ghost mid = *self;
        let accepted: bool = self.sq.push(Sqe { entry, user_data: user_data as u64 });
        if !accepted {
            self.push_backlog(user_data);
            assert(self@ =~= before@.dispatch(user_data));
        } else {
            proof {
                Self::lemma_links_same(mid, *self);
            }
            assert(self@ =~= before@.dispatch(user_data));
        }
        accepted
    }

    /// Hands an operation to the driver. `Ready` means that the ring took it,
    /// `Pending` that it waits in the backlog.
    pub fn submit(&mut self, user_data: usize, op: UringOp) -> (submitted: Poll<()>)
        requires
            old(self).wf(),
            old(self)@.has(user_data),
            !old(self)@.backlog.contains(user_data),
            op.ready(),
        ensures
            final(self).wf(),
            final(self)@ == old(self)@.submit(user_data, op),
            submitted == (if old(self)@.room > 0 {
                Poll::Ready(())
            } else {
                Poll::Pending
            }),
    {
        let ghost before = *self;
        if let Some(entry) = self.ops.get_mut(user_data) {
            entry.resources = Some(op);
        }
        proof {
            Self::lemma_entry_changed(before, *self, user_data, self.ops@.entries[user_data]);
            before.lemma_links_of(*self, user_data);
            assert(before@.entry_ok(user_data));
            before@.lemma_with_op(user_data, self@.op(user_data));
            assert(self@ =~= before@.with_op(user_data, self@.op(user_data)));
        }
        if self.dispatch(user_data) {
            Poll::Ready(())
        } else {
            Poll::Pending
        }
    }

    /// Stages an entry that nobody waits for.
    fn push_entry(&mut self, sqe: Sqe) -> (pushed: bool)
        requires
            old(self).wf(),
        ensures
            final(self).wf(),
            pushed == (old(self)@.room > 0),
            final(self)@ == old(self)@.push(sqe),
    {
        let ghost before = *self;
        let pushed: bool = self.sq.push(sqe);
        proof {
            Self::lemma_links_same(before, *self);
            assert(self@ =~= before@.push(sqe));
            before@.lemma_same(self@);
        }
        pushed
    }

    /// Runs an operation that nobody waits for, which can only close something.
    pub fn submit_background(&mut self, op: UringOp) -> (done: Result<(), IoError>)
        requires
            old(self).wf(),
        ensures
            final(self).wf(),
            match op {
                UringOp::Close(close) => {
                    &&& done == (if old(self)@.room > 0 {
                        Ok::<(), IoError>(())
                    } else {
                        Err(IoError::BackgroundQueueFull)
                    })
                    &&& final(self)@ == old(self)@.push(
                        Sqe { entry: SqeEntry::Close { fd: close.fd }, user_data: BACKGROUND_USER_DATA },
                    )
                },
                _ => {
                    &&& done == Err::<(), IoError>(IoError::BackgroundOnlyClose)
                    &&& final(self)@ == old(self)@
                },
            },
    {
        if op.is_close() {
            let mut op = op;
            let entry: SqeEntry = op.make_sqe();
            if !self.push_entry(Sqe { entry, user_data: BACKGROUND_USER_DATA }) {
                return Err(IoError::BackgroundQueueFull);
            }
            Ok(())
        } else {
            Err(IoError::BackgroundOnlyClose)
        }
    }

    /// Wakes the driver of another ring through a message.
    pub fn notify_mesh(&mut self, handle: RawHandle) -> (done: Result<(), IoError>)
        requires
            old(self).wf(),
        ensures
            final(self).wf(),
            done == (if old(self)@.room > 0 {
                Ok::<(), IoError>(())
            } else {
                Err(IoError::SubmissionQueueFull)
            }),
            final(self)@ == old(self)@.push(
                Sqe {
                    entry: SqeEntry::MsgRing { fd: handle, data: BACKGROUND_USER_DATA },
                    user_data: BACKGROUND_USER_DATA,
                },
            ),
    {
        let entry: SqeEntry = SqeEntry::MsgRing { fd: handle, data: BACKGROUND_USER_DATA };
        if !self.push_entry(Sqe { entry, user_data: BACKGROUND_USER_DATA }) {
            return Err(IoError::SubmissionQueueFull);
        }
        Ok(())
    }

    /// Moves operations from the backlog into the ring as far as there is room.
    /// Whoever waits for one that leaves the backlog is added to `woken`.
    #[verifier::rlimit(40)]
    pub fn flush_backlog(&mut self, woken: &mut Vec<Waker>)
        requires
            old(self).wf(),
        ensures
            final(self).wf(),
            final(self)@ == old(self)@.flush_backlog(),
            final(woken)@ == old(woken)@ + old(self)@.flush_woken(),
    {
        let ghost start = self@;
        let ghost woken0 = woken@;
        assert(woken0 + start.flush_woken() =~= woken@ + start.flush_woken());
        while self.backlog_head.is_some()
            invariant
                self.wf(),
                self@.flush_backlog() == start.flush_backlog(),
                woken0 + start.flush_woken() == woken@ + self@.flush_woken(),
            ensures
                self.wf(),
                self@.flush_step().is_none(),
                self@.flush_backlog() == start.flush_backlog(),
                woken0 + start.flush_woken() == woken@ + self@.flush_woken(),
            decreases self.backlog@.len(),
        {
            let ghost before = *self;
            let ghost m = self@;
            let user_data: usize = self.backlog_head.unwrap();
            proof {
                assert(before.chained(0));
                assert(m.waiting(0));
                assert(m.entry_ok(user_data));
            }
            let is_cancelled: bool = match self.ops.get(user_data) {
                Some(entry) => entry.cancelled,
                None => false,
            };
            if is_cancelled {
                proof {
                    m.lemma_flush_step();
                }
                let popped: Option<usize> = self.pop_backlog();
                let ghost mid = *self;
                let mut waker: Option<Waker> = None;
                if let Some(entry) = self.ops.get_mut(user_data) {
                    entry.result = Some(Err(IoError::Os(ECANCELED)));
                    waker = entry.waker.take();
                }
                proof {
                    Self::lemma_entry_changed(mid, *self, user_data, self.ops@.entries[user_data]);
                    mid.lemma_links_of(*self, user_data);
                    assert(self@ =~= m.flush_step()->0);
                }
                let ghost old_woken = woken@;
                if let Some(w) = waker {
                    woken.push(w);
                }
                proof {
                    assert(woken@ =~= old_woken + model::maybe(m.op(user_data).waker));
                    assert(woken@ + self@.flush_woken() =~= old_woken + m.flush_woken());
                }
                continue;
            }
            let mut entry: SqeEntry = SqeEntry::AsyncCancel { target: 0 };
            if self.sq.room == 0 {
                break;
            }
            proof {
                m.lemma_flush_step();
            }
            let popped: Option<usize> = self.pop_backlog();
            let ghost mid = *self;
            let mut waker: Option<Waker> = None;
            if let Some(e) = self.ops.get_mut(user_data) {
                if let Some(op) = &mut e.resources {
                    entry = op.make_sqe();
                }
                e.platform_data.submitted = true;
                waker = e.waker.take();
            }
            proof {
                Self::lemma_entry_changed(mid, *self, user_data, self.ops@.entries[user_data]);
                mid.lemma_links_of(*self, user_data);
            }
            let ghost mid2 = *self;
            let pushed: bool = self.sq.push(Sqe { entry, user_data: user_data as u64 });
            proof {
                Self::lemma_links_same(mid2, *self);
                assert(self@ =~= m.flush_step()->0);
            }
            let ghost old_woken = woken@;
            if let Some(w) = waker {
                woken.push(w);
            }
            proof {
                assert(woken@ =~= old_woken + model::maybe(m.op(user_data).waker));
                assert(woken@ + self@.flush_woken() =~= old_woken + m.flush_woken());
            }
        }
        assert(woken@ + self@.flush_woken() =~= woken@);
    }

    /// Moves cancellations into the ring as far as there is room.
    pub fn flush_cancellations(&mut self)
        requires
            old(self).wf(),
        ensures
            final(self).wf(),
            final(self)@ == old(self)@.flush_cancellations(),
    {
        let ghost start = self@;
        while self.pending_cancellations.len() > 0
            invariant
                self.wf(),
                self@.flush_cancellations() == start.flush_cancellations(),
            ensures
                self.wf(),
                self@ == start.flush_cancellations(),
            decreases self.pending_cancellations@.len(),
        {
            let ghost before = *self;
            let user_data: usize = self.pending_cancellations[0];
            if !self.ops.contains(user_data) {
                let gone: Option<usize> = self.pending_cancellations.pop_front();
                proof {
                    Self::lemma_links_same(before, *self);
                    assert(self@ =~= (DriverModel { cancellations: before@.cancellations.drop_first(), ..before@ }));
                    before@.lemma_same(self@);
                    assert(!before@.has(user_data));
                }
                continue;
            }
            assert(before@.has(user_data));
            let entry: SqeEntry = SqeEntry::AsyncCancel { target: user_data as u64 };
            if self.push_entry(Sqe { entry, user_data: CANCEL_USER_DATA }) {
                let ghost mid = *self;
                let sent: Option<usize> = self.pending_cancellations.pop_front();
                proof {
                    Self::lemma_links_same(mid, *self);
                    mid@.lemma_same(self@);
                    let m = DriverModel { cancellations: before@.cancellations.drop_first(), ..before@ };
                    assert(self@ =~= m.push(model::cancel_sqe(user_data)));
                }
            } else {
                assert(self@ =~= before@);
                break;
            }
        }
    }

    /// Asks the kernel to drop an operation, now or when there is room. Nobody is
    /// woken for it any more.
    pub fn cancel_op(&mut self, user_data: usize)
        requires
            old(self).wf(),
        ensures
            final(self).wf(),
            final(self)@ == old(self)@.cancel(user_data),
    {
        let ghost before = *self;
        if !self.ops.contains(user_data) {
            assert(!before@.has(user_data));
            return;
        }
        if let Some(op) = self.ops.get_mut(user_data) {
            op.cancelled = true;
            op.waker = None;
        }
        proof {
            assert(before@.has(user_data));
            assert(before@.entry_ok(user_data));
            Self::lemma_entry_changed(before, *self, user_data, self.ops@.entries[user_data]);
            before.lemma_links_of(*self, user_data);
            before@.lemma_with_op(user_data, self@.op(user_data));
            assert(self@ =~= before@.with_op(user_data, self@.op(user_data)));
        }
        let entry: SqeEntry = SqeEntry::AsyncCancel { target: user_data as u64 };
        if !self.push_entry(Sqe { entry, user_data: CANCEL_USER_DATA }) {
            let ghost mid = *self;
            self.pending_cancellations.push_back(user_data);
            proof {
                Self::lemma_links_same(mid, *self);
                mid@.lemma_same(self@);
                assert(self@ =~= before@.cancel(user_data));
            }
        }
    }

    /// Forgets an operation that is neither in the backlog nor the event loop's.
    fn remove(&mut self, user_data: usize) -> (entry: Entry)
        requires
            old(self).wf(),
            old(self)@.has(user_data),
            !old(self)@.backlog.contains(user_data),
            old(self)@.waker_token != Some(user_data),
        ensures
            final(self).wf(),
            final(self)@ == old(self)@.removed(user_data),
            model::unlinked(entry) == old(self)@.op(user_data),
    {
        let ghost before = *self;
        let entry: Entry = self.ops.remove(user_data);
        proof {
            before@.lemma_removed(user_data);
            before.lemma_links_without(*self, user_data);
            assert(self@.ops.entries =~= before@.ops.entries.remove(user_data));
            assert(self@ =~= before@.removed(user_data));
        }
        entry
    }

    /// Removing an operation outside the backlog leaves the backlog threaded.
    proof fn lemma_links_without(self, after: Self, key: usize)
        requires
            self.backlog_ok(),
            !self.backlog@.contains(key),
            after.backlog == self.backlog,
            after.backlog_head == self.backlog_head,
            after.backlog_tail == self.backlog_tail,
            after.ops@.entries == self.ops@.entries.remove(key),
        ensures
            after.backlog_ok(),
    {
        assert forall|k: usize| #[trigger] self.backlog@.contains(k) implies after.ops@.entries.contains_key(k)
            && after.ops@.entries[k].platform_data.next == self.ops@.entries[k].platform_data.next by {
            let i = choose|i: int| 0 <= i < self.backlog@.len() && self.backlog@[i] == k;
            assert(self.chained(i));
        }
        Self::lemma_links_kept(self, after);
    }

    /// Takes an operation out of the backlog, where it waits there.
    fn dequeue(&mut self, user_data: usize)
        requires
            old(self).wf(),
        ensures
            final(self).wf(),
            final(self)@ == (DriverModel {
                backlog: model::without(old(self)@.backlog, user_data),
                ..old(self)@
            }),
            !final(self)@.backlog.contains(user_data),
    {
        let ghost start = *self;
        let ghost keys = self.backlog@;
        proof {
            start@.lemma_dequeued(user_data);
        }
        let tail: usize = match self.backlog_tail {
            Some(tail) => tail,
            None => {
                assert(model::without(keys, user_data) =~= keys);
                return;
            },
        };
        let ghost n = keys.len() as int;
        let ghost mut i: int = 0;
        assert(keys.skip(0) + model::without(keys.take(0), user_data) =~= keys);
        loop
            invariant_except_break
                0 <= i < n,
            invariant
                keys == start.backlog@,
                n == keys.len(),
                keys.no_duplicates(),
                tail == keys[n - 1],
                self.ops.wf(),
                self.backlog_ok(),
                self.backlog@ == keys.skip(i) + model::without(keys.take(i), user_data),
                self@ == (DriverModel { backlog: self.backlog@, ..start@ }),
            ensures
                self.ops.wf(),
                self.backlog_ok(),
                self@ == (DriverModel { backlog: model::without(keys, user_data), ..start@ }),
            decreases n - i,
        {
            let ghost before = *self;
            let key: usize = match self.pop_backlog() {
                Some(key) => key,
                None => vstd::pervasive::unreached(),
            };
            let ghost (rest, moved) = (keys.skip(i + 1), model::without(keys.take(i), user_data));
            proof {
                assert(key == keys[i]);
                assert(self.backlog@ =~= rest + moved);
                assert(keys.take(i + 1).drop_last() =~= keys.take(i));
                assert(keys.take(i + 1).last() == key);
                model::lemma_without(keys.take(i), user_data);
                assert(!self.backlog@.contains(key)) by {
                    if self.backlog@.contains(key) {
                        let j = choose|j: int| 0 <= j < self.backlog@.len() && self.backlog@[j] == key;
                        if j < rest.len() {
                            assert(keys[i + 1 + j] == keys[i]);
                        } else {
                            assert(moved[j - rest.len()] == key);
                            assert(moved.contains(key));
                            let k = choose|k: int| 0 <= k < keys.take(i).len() && keys.take(i)[k] == key;
                            assert(keys[k] == keys[i]);
                        }
                    }
                }
            }
            if key != user_data {
                self.push_backlog(key);
                assert(self.backlog@ =~= rest + model::without(keys.take(i + 1), user_data));
            }
            proof {
                i = i + 1;
            }
            if key == tail {
                proof {
                    assert(i == n) by {
                        if i < n {
                            assert(keys[i - 1] != keys[n - 1]);
                        }
                    }
                    assert(keys.take(n) =~= keys);
                    assert(self.backlog@ =~= model::without(keys, user_data));
                }
                break;
            }
        }
    }

    /// Takes in one report on an operation.
    fn complete(&mut self, cqe: &Cqe, woken: &mut Vec<Waker>, remote: &mut Vec<RemoteCompletion>)
        requires
            old(self).wf(),
            cqe.valid(),
            old(self)@.finishes(*cqe),
        ensures
            final(self).wf(),
            final(self)@ == old(self)@.complete(*cqe),
            final(woken)@ == old(woken)@ + old(self)@.complete_woken(*cqe),
            final(remote)@ == old(remote)@ + old(self)@.complete_remote(*cqe),
    {
        let ghost before = *self;
        let user_data: usize = cqe.user_data as usize;
        proof {
            before@.lemma_complete(*cqe);
            assert(before@.entry_ok(user_data));
            assert(woken@ + Seq::<Waker>::empty() =~= woken@);
            assert(remote@ + Seq::<RemoteCompletion>::empty() =~= remote@);
        }
        let (cancelled, completer): (bool, Option<u64>) = match self.ops.get(user_data) {
            Some(entry) => (entry.cancelled, entry.platform_data.remote_completer),
            None => (false, None),
        };
        if cancelled {
            self.dequeue(user_data);
            let gone: Entry = self.remove(user_data);
            assert(self@ =~= before@.complete(*cqe));
            return;
        }
        if let Some(completer) = completer {
            self.dequeue(user_data);
            let gone: Entry = self.remove(user_data);
            assert(self@ =~= before@.complete(*cqe));
            if let Some(op) = gone.resources {
                let mut op = op;
                let result: Result<usize, IoError> = op.on_complete(cqe);
                remote.push(RemoteCompletion { completer, result, op });
                assert(remote@ =~= old(remote)@ + before@.complete_remote(*cqe));
            }
            return;
        }
        let mut waker: Option<Waker> = None;
        if let Some(entry) = self.ops.get_mut(user_data) {
            let result: Result<usize, IoError> = match &mut entry.resources {
                Some(op) => op.on_complete(cqe),
                None => from_kernel(cqe.result),
            };
            entry.result = Some(result);
            waker = entry.waker.take();
        }
        proof {
            Self::lemma_entry_changed(before, *self, user_data, self.ops@.entries[user_data]);
            before.lemma_links_of(*self, user_data);
            assert(self@ =~= before@.complete(*cqe));
        }
        if let Some(w) = waker {
            woken.push(w);
        }
        assert(woken@ =~= old(woken)@ + before@.complete_woken(*cqe));
    }

    /// Takes in what the kernel reports. Reports on no operation are passed over.
    /// Whoever waits for a finished operation is added to `woken`; what is owed to other
    /// threads is added to `remote`.
    #[verifier::rlimit(40)]
    pub fn process_completions(
        &mut self,
        cqes: &[Cqe],
        woken: &mut Vec<Waker>,
        remote: &mut Vec<RemoteCompletion>,
    )
        requires
            old(self).wf(),
            forall|i: int| 0 <= i < cqes@.len() ==> (#[trigger] cqes@[i]).valid(),
        ensures
            final(self).wf(),
            final(self)@ == old(self)@.process(cqes@),
            final(woken)@ == old(woken)@ + old(self)@.process_woken(cqes@),
            final(remote)@ == old(remote)@ + old(self)@.all_remote(cqes@),
    {
        let ghost start = self@;
        let ghost woken0 = woken@;
        let ghost remote0 = remote@;
        let mut needs_waker_resubmit: bool = false;
        let mut i: usize = 0;
        proof {
            assert(cqes@.subrange(0, 0) =~= Seq::empty());
            assert(woken0 + Seq::<Waker>::empty() =~= woken0);
            assert(remote0 + Seq::<RemoteCompletion>::empty() =~= remote0);
        }
        while i < cqes.len()
            invariant
                i <= cqes@.len(),
                self.wf(),
                start.inv(),
                forall|j: int| 0 <= j < cqes@.len() ==> (#[trigger] cqes@[j]).valid(),
                self@ == start.complete_all(cqes@.subrange(0, i as int)),
                woken@ == woken0 + start.all_woken(cqes@.subrange(0, i as int)),
                remote@ == remote0 + start.all_remote(cqes@.subrange(0, i as int)),
                needs_waker_resubmit == start.was_woken(cqes@.subrange(0, i as int)),
            decreases cqes@.len() - i,
        {
            let ghost done = cqes@.subrange(0, i as int);
            let ghost next = cqes@.subrange(0, i + 1);
            let ghost m = self@;
            let cqe: Cqe = cqes[i];
            proof {
                assert(next.drop_last() =~= done);
                assert(next.last() == cqe);
                assert forall|j: int| 0 <= j < done.len() implies (#[trigger] done[j]).valid() by {
                    assert(done[j] == cqes@[j]);
                }
                start.lemma_complete_all(done);
                assert(cqes@[i as int].valid());
                assert(m.waker_token matches Some(t) ==> m.has(t) && start.has(t));
                assert(start.was_woken(next) == (start.was_woken(done) || start.is_wakeup(cqe))) by {
                    if start.was_woken(done) {
                        let j = choose|j: int| 0 <= j < done.len() && start.is_wakeup(#[trigger] done[j]);
                        assert(next[j] == done[j]);
                    }
                    if start.is_wakeup(cqe) {
                        assert(next[i as int] == cqe);
                    }
                    if start.was_woken(next) {
                        let j = choose|j: int| 0 <= j < next.len() && start.is_wakeup(#[trigger] next[j]);
                        if j < i {
                            assert(done[j] == next[j]);
                        }
                    }
                }
                assert(woken0 + start.all_woken(next) =~= (woken0 + start.all_woken(done)) + m.complete_woken(cqe));
                assert(remote0 + start.all_remote(next) =~= (remote0 + start.all_remote(done)) + m.complete_remote(
                    cqe,
                ));
                assert(woken@ + Seq::<Waker>::empty() =~= woken@);
                assert(remote@ + Seq::<RemoteCompletion>::empty() =~= remote@);
            }
            i += 1;
            let user_data: usize = cqe.user_data as usize;
            if user_data == RESERVED_USER_DATA as usize || user_data == CANCEL_USER_DATA as usize || user_data
                == BACKGROUND_USER_DATA as usize {
                continue;
            }
            if let Some(token) = self.waker_token {
                if token == user_data {
                    needs_waker_resubmit = true;
                    continue;
                }
            }
            assert(self.ops@.entries.contains_key(user_data) <==> self@.has(user_data));
            if self.ops.contains(user_data) {
                self.complete(&cqe, woken, remote);
            }
        }
        assert(cqes@.subrange(0, i as int) =~= cqes@);
        if needs_waker_resubmit {
            proof {
                start.lemma_complete_all(cqes@);
            }
            let ghost first = *self;
            if let Some(token) = self.waker_token {
                self.dequeue(token);
                let ghost m = *self;
                proof {
                    m@.lemma_removed(token);
                }
                self.waker_token = None;
                let gone: Entry = self.ops.remove(token);
                proof {
                    m.lemma_links_without(*self, token);
                    assert(self@.ops.entries =~= m@.ops.entries.remove(token));
                    assert(self@ =~= (DriverModel { waker_token: None, ..first@.forgotten(token) }));
                }
            }
            self.submit_waker();
            let ghost mid_woken = woken@;
            self.flush_backlog(woken);
            assert(woken@ =~= woken0 + start.process_woken(cqes@));
        } else {
            assert(woken@ =~= woken0 + start.process_woken(cqes@));
        }
    }

    /// The result of an operation, if there is one; otherwise `waker` is noted. An
    /// operation that still waits for the ring is given another chance first.
    pub fn poll_op(&mut self, user_data: usize, waker: Waker, woken: &mut Vec<Waker>) -> (polled: Poll<
        (Result<usize, IoError>, UringOp),
    >)
        requires
            old(self).wf(),
            old(self)@.has(user_data),
            old(self)@.waker_token != Some(user_data),
        ensures
            final(self).wf(),
            final(self)@ == old(self)@.poll(user_data, waker),
            final(woken)@ == old(woken)@ + old(self)@.poll_woken(user_data),
            polled == (match old(self)@.poll_result(user_data) {
                Some(done) => Poll::Ready(done),
                None => Poll::Pending,
            }),
    {
        let ghost start = self@;
        let submitted: bool = match self.ops.get(user_data) {
            Some(entry) => entry.platform_data.submitted,
            None => false,
        };
        if !submitted {
            proof {
                start.lemma_flush_backlog();
                start.flush_backlog().lemma_flush_cancellations();
                start.lemma_flush_token();
                start.flush_backlog().lemma_cancellations_token();
            }
            self.flush_backlog(woken);
            self.flush_cancellations();
        } else {
            assert(woken@ + Seq::<Waker>::empty() =~= woken@);
        }
        let ghost m = *self;
        proof {
            assert(m@.has(user_data));
            assert(m@.entry_ok(user_data));
        }
        let (submitted, done): (bool, bool) = match self.ops.get(user_data) {
            Some(entry) => (entry.platform_data.submitted, entry.result.is_some()),
            None => (false, false),
        };
        if submitted && done {
            proof {
                m@.lemma_submitted_not_waiting(user_data);
            }
            let entry: Entry = self.remove(user_data);
            Poll::Ready((entry.result.unwrap(), entry.resources.unwrap()))
        } else {
            if let Some(entry) = self.ops.get_mut(user_data) {
                entry.waker = Some(waker);
            }
            proof {
                Self::lemma_entry_changed(m, *self, user_data, self.ops@.entries[user_data]);
                m.lemma_links_of(*self, user_data);
                m@.lemma_with_op(user_data, self@.op(user_data));
                assert(self@ =~= m@.with_op(user_data, self@.op(user_data)));
            }
            Poll::Pending
        }
    }

    /// Moves what waits for room into the ring: cancellations, then operations.
    pub fn submit_queue(&mut self, woken: &mut Vec<Waker>)
        requires
            old(self).wf(),
        ensures
            final(self).wf(),
            final(self)@ == old(self)@.flush(),
            final(woken)@ == old(woken)@ + old(self)@.flush_cancellations().flush_woken(),
    {
        self.flush_cancellations();
        self.flush_backlog(woken);
    }

    /// Says how many more entries the ring takes.
    pub fn set_room(&mut self, room: usize)
        requires
            old(self).wf(),
        ensures
            final(self).wf(),
            final(self)@ == old(self)@.with_room(room as nat),
    {
        let ghost before = *self;
        self.sq.room = room;
        proof {
            Self::lemma_links_same(before, *self);
            assert(self@ =~= before@.with_room(room as nat));
            before@.lemma_same(self@);
        }
    }

    /// Hands over the entries for the ring, oldest first.
    pub fn take_staged(&mut self) -> (staged: Vec<Sqe>)
        requires
            old(self).wf(),
        ensures
            final(self).wf(),
            staged@ == old(self)@.staged,
            final(self)@ == (DriverModel { staged: Seq::empty(), ..old(self)@ }),
    {
        let ghost before = *self;
        let staged: Vec<Sqe> = self.sq.take();
        proof {
            Self::lemma_links_same(before, *self);
            assert(self@ =~= (DriverModel { staged: Seq::empty(), ..before@ }));
            before@.lemma_same(self@);
        }
        staged
    }

    /// Whether operations wait for the ring.
    pub fn has_backlog(&self) -> (waiting: bool)
        requires
            self.wf(),
        ensures
            waiting == (self@.backlog.len() > 0),
    {
        self.backlog_head.is_some()
    }

    /// What to do instead of waiting, after what waits for room has gone to the
    /// ring: nothing where there are no operations, take in the reports where some
    /// are there already, and wait for one otherwise.
    pub fn before_wait(&mut self, completions_ready: bool, woken: &mut Vec<Waker>) -> (step: WaitStep)
        requires
            old(self).wf(),
        ensures
            final(self).wf(),
            final(self)@ == old(self)@.flush(),
            final(woken)@ == old(woken)@ + old(self)@.flush_cancellations().flush_woken(),
            step == (if final(self)@.ops.entries == Map::<usize, Entry>::empty() {
                WaitStep::Idle
            } else if completions_ready {
                WaitStep::Process
            } else {
                WaitStep::Block
            }),
    {
        self.submit_queue(woken);
        let empty: bool = self.ops.is_empty();
        proof {
            if empty {
                assert(self@.ops.entries =~= Map::empty());
            } else {
                assert(self@.ops.entries.dom() =~= self.ops@.entries.dom());
                if self@.ops.entries == Map::<usize, Entry>::empty() {
                    assert(self.ops@.entries =~= Map::empty());
                }
            }
        }
        if empty {
            WaitStep::Idle
        } else if completions_ready {
            WaitStep::Process
        } else {
            WaitStep::Block
        }
    }

    /// Whether buffers are known to the kernel.
    pub fn buffers_registered(&self) -> (registered: bool)
        ensures
            registered == self@.buffers_registered,
    {
        self.buffers_registered
    }

    /// Takes in the kernel's answer to the registration of `count` buffers, its
    /// error number where it refused, and tells their places. That it is busy means
    /// that buffers are registered. Where some were before, the answer is ignored.
    pub fn register_buffer_regions(&mut self, count: usize, answer: Result<(), i32>) -> (indices: Result<
        Vec<usize>,
        IoError,
    >)
        requires
            old(self).wf(),
        ensures
            final(self).wf(),
            ({
                let known = old(self)@.buffers_registered || answer is Ok || answer == Err::<(), i32>(EBUSY);
                &&& match indices {
                    Ok(v) => known && v@ == Seq::new(count as nat, |i: int| i as usize),
                    Err(e) => !known && e == IoError::Os(answer->Err_0),
                }
                &&& final(self)@ == (DriverModel { buffers_registered: known, ..old(self)@ })
            }),
    {
        let ghost before = *self;
        if !self.buffers_registered {
            match answer {
                Ok(_) => {},
                Err(e) => {
                    if e != EBUSY {
                        return Err(IoError::Os(e));
                    }
                },
            }
            self.buffers_registered = true;
        }
        proof {
            Self::lemma_links_same(before, *self);
            assert(self@ =~= (DriverModel { buffers_registered: true, ..before@ }));
            before@.lemma_same(self@);
        }
        let mut v: Vec<usize> = Vec::new();
        let mut i: usize = 0;
        while i < count
            invariant
                i <= count,
                v@ == Seq::new(i as nat, |i: int| i as usize),
            decreases count - i,
        {
            v.push(i);
            assert(v@ =~= Seq::new((i + 1) as nat, |i: int| i as usize));
            i += 1;
        }
        Ok(v)
    }
}

/// What to do when the event loop has nothing to run.
#[derive(Debug, Clone, Copy, PartialEq, Eq, Structural)]
pub enum WaitStep {
    Idle,
    Process,
    Block,
}

/// Error number: the kernel is busy with it.
pub const EBUSY: i32 = 16;

/// Error number: try again.
pub const EAGAIN: i32 = 11;

/// Error number: the kernel does not know a flag.
pub const EINVAL: i32 = 22;

/// How a ring is set up.
#[derive(Debug, Clone, Copy, PartialEq, Eq, Structural)]
pub struct RingSetup {
    pub entries: u32,
    pub coop_taskrun: bool,
    pub single_issuer: bool,
    pub defer_taskrun: bool,
    /// Milliseconds after which the kernel's polling thread sleeps, where there is
    /// such a thread.
    pub sqpoll_idle_ms: Option<u32>,
}

impl RingSetup {
    pub open spec fn preferred_for(config: UringConfig) -> RingSetup {
        RingSetup {
            entries: config.entries,
            coop_taskrun: true,
            single_issuer: true,
            defer_taskrun: true,
            sqpoll_idle_ms: if config.mode == IoMode::Polling {
                Some(config.sqpoll_idle_ms)
            } else {
                None
            },
        }
    }

    pub open spec fn basic_for(config: UringConfig) -> RingSetup {
        RingSetup {
            entries: config.entries,
            coop_taskrun: false,
            single_issuer: false,
            defer_taskrun: false,
            sqpoll_idle_ms: None,
        }
    }

    /// The setup to try first.
    pub fn preferred(config: &UringConfig) -> (setup: Self)
        ensures
            setup == Self::preferred_for(*config),
    {
        RingSetup {
            entries: config.entries,
            coop_taskrun: true,
            single_issuer: true,
            defer_taskrun: true,
            sqpoll_idle_ms: if config.mode == IoMode::Polling {
                Some(config.sqpoll_idle_ms)
            } else {
                None
            },
        }
    }

    /// The setup to try when the preferred one failed: a basic one where the kernel
    /// does not know the flags.
    pub fn fallback(config: &UringConfig, errno: i32) -> (setup: Result<Self, IoError>)
        ensures
            setup == (if errno == EINVAL {
                Ok(Self::basic_for(*config))
            } else {
                Err(IoError::Os(errno))
            }),
    {
        if errno == EINVAL {
            Ok(
                RingSetup {
                    entries: config.entries,
                    coop_taskrun: false,
                    single_issuer: false,
                    defer_taskrun: false,
                    sqpoll_idle_ms: None,
                },
            )
        } else {
            Err(IoError::Os(errno))
        }
    }
}

/// Whether entries in the ring need a system call to be seen: always, unless the
/// kernel's polling thread is awake.
pub fn needs_enter(sqpoll: bool, need_wakeup: bool) -> (enter: bool)
    ensures
        enter == (!sqpoll || need_wakeup),
{
    if sqpoll {
        need_wakeup
    } else {
        true
    }
}

/// What a write to the waking handle means. A handle that would block is awake.
pub fn wake_outcome(ret: i64, errno: i32) -> (outcome: Result<(), IoError>)
    ensures
        outcome == (if ret < 0 && errno != EAGAIN {
            Err::<(), IoError>(IoError::Os(errno))
        } else {
            Ok(())
        }),
{
    if ret < 0 {
        if errno == EAGAIN {
            return Ok(());
        }
        return Err(IoError::Os(errno));
    }
    Ok(())
}

/// The places of newly registered files.
pub fn fixed_files(count: usize) -> (fds: Vec<IoFd>)
    requires
        count <= u32::MAX,
    ensures
        fds@ == Seq::new(count as nat, |i: int| IoFd::Fixed(i as u32)),
{
    let mut fds: Vec<IoFd> = Vec::new();
    let mut i: usize = 0;
    while i < count
        invariant
            i <= count <= u32::MAX,
            fds@ == Seq::new(i as nat, |i: int| IoFd::Fixed(i as u32)),
        decreases count - i,
    {
        fds.push(IoFd::Fixed(i as u32));
        assert(fds@ =~= Seq::new((i + 1) as nat, |i: int| IoFd::Fixed(i as u32)));
        i += 1;
    }
    fds
}

} // verus!
