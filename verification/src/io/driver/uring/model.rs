//! The state of the io_uring driver, as a mathematical value, and its laws.

use crate::error::{self, IoError};
use crate::io::driver::op_registry::OpEntry;
use crate::io::driver::stable_slab::SlabModel;
use crate::io::driver::uring::op::{UringOp, WakeupPayload};
use crate::io::driver::uring::queue::{Cqe, Sqe, SqeEntry};
use crate::io::op::{IoFd, RawHandle, Wakeup};
use std::task::Waker;
use vstd::prelude::*;

verus! {

/// Key of the kernel's reports on cancellations.
pub const CANCEL_USER_DATA: u64 = 0xffff_ffff_ffff_fffe;

/// Key of the kernel's reports on work that nobody waits for.
pub const BACKGROUND_USER_DATA: u64 = 0xffff_ffff_ffff_fffd;

/// Key that is set aside.
pub const RESERVED_USER_DATA: u64 = 0xffff_ffff_ffff_ffff;

/// The error number of a cancelled operation.
pub const ECANCELED: i32 = 125;

/// What the driver keeps of each operation: whether the ring has it, the
/// operation behind it in the backlog, and who on another thread waits for it.
pub struct UringOpState {
    pub submitted: bool,
    pub next: Option<usize>,
    pub remote_completer: Option<u64>,
}

impl UringOpState {
    pub fn new() -> (state: Self)
        ensures
            state == (UringOpState { submitted: false, next: None, remote_completer: None }),
    {
        UringOpState { submitted: false, next: None, remote_completer: None }
    }
}

pub type Entry = OpEntry<UringOp, UringOpState>;

/// A finished operation that is owed to another thread.
pub struct RemoteCompletion {
    pub completer: u64,
    pub result: Result<usize, IoError>,
    pub op: UringOp,
}

pub open spec fn new_entry(resources: Option<UringOp>) -> Entry {
    OpEntry {
        waker: None,
        result: None,
        resources,
        cancelled: false,
        platform_data: UringOpState { submitted: false, next: None, remote_completer: None },
    }
}

/// The entry without its link, which says nothing of the operation.
pub open spec fn unlinked(e: Entry) -> Entry {
    OpEntry { platform_data: UringOpState { next: None, ..e.platform_data }, ..e }
}

pub open spec fn marked_submitted(e: Entry, submitted: bool) -> Entry {
    OpEntry { platform_data: UringOpState { submitted, ..e.platform_data }, ..e }
}

/// The entry once its operation is filled in for the kernel.
pub open spec fn prepared_entry(e: Entry) -> Entry {
    OpEntry { resources: Some(e.resources->0.prepared()), ..e }
}

/// No waker, or one.
pub open spec fn maybe(w: Option<Waker>) -> Seq<Waker> {
    match w {
        Some(w) => seq![w],
        None => Seq::empty(),
    }
}

/// The keys without one of them.
pub open spec fn without(keys: Seq<usize>, key: usize) -> Seq<usize>
    decreases keys.len(),
{
    if keys.len() == 0 {
        keys
    } else if keys.last() == key {
        without(keys.drop_last(), key)
    } else {
        without(keys.drop_last(), key).push(keys.last())
    }
}

pub proof fn lemma_without(keys: Seq<usize>, key: usize)
    ensures
        forall|k: usize| #[trigger] without(keys, key).contains(k) <==> keys.contains(k) && k != key,
        keys.no_duplicates() ==> without(keys, key).no_duplicates(),
        !keys.contains(key) ==> without(keys, key) == keys,
    decreases keys.len(),
{
    if keys.len() > 0 {
        let most = keys.drop_last();
        let (w, v) = (without(most, key), without(keys, key));
        lemma_without(most, key);
        assert(keys.contains(keys[keys.len() - 1]));
        assert(keys =~= most.push(keys.last()));
        assert forall|k: usize| #[trigger] v.contains(k) <==> keys.contains(k) && k != key by {
            if keys.contains(k) && k != key {
                if k == keys.last() {
                    assert(v[v.len() - 1] == k);
                } else {
                    let i = choose|i: int| 0 <= i < keys.len() && keys[i] == k;
                    assert(most[i] == k);
                    assert(w.contains(k));
                    let j = choose|j: int| 0 <= j < w.len() && w[j] == k;
                    assert(v[j] == k);
                }
            }
            if v.contains(k) {
                let j = choose|j: int| 0 <= j < v.len() && v[j] == k;
                if j < w.len() {
                    assert(w[j] == k);
                    assert(w.contains(k));
                    let i = choose|i: int| 0 <= i < most.len() && most[i] == k;
                    assert(keys[i] == k);
                }
            }
        }
        if keys.no_duplicates() {
            assert(most.no_duplicates());
            if keys.last() != key {
                assert(!w.contains(keys.last())) by {
                    if w.contains(keys.last()) {
                        let i = choose|i: int| 0 <= i < most.len() && most[i] == keys.last();
                        assert(keys[i] == keys[keys.len() - 1]);
                    }
                }
                assert forall|i: int, j: int| 0 <= i < v.len() && 0 <= j < v.len() && i != j implies v[i]
                    != v[j] by {
                    if i < w.len() {
                        assert(w.contains(w[i]));
                    }
                    if j < w.len() {
                        assert(w.contains(w[j]));
                    }
                }
            }
        }
        if !keys.contains(key) {
            assert(!most.contains(key)) by {
                if most.contains(key) {
                    let i = choose|i: int| 0 <= i < most.len() && most[i] == key;
                    assert(keys[i] == key);
                }
            }
            assert(v =~= keys);
        }
    }
}

pub open spec fn wake_op(fd: RawHandle) -> UringOp {
    UringOp::Wakeup(
        WakeupPayload { op: Wakeup { fd: IoFd::Raw(fd) }, buf: crate::io::driver::uring::op::zeros() },
    )
}

pub open spec fn cancel_sqe(target: usize) -> Sqe {
    Sqe { entry: SqeEntry::AsyncCancel { target: target as u64 }, user_data: CANCEL_USER_DATA }
}

/// The driver at one moment: the operations by key, those that the ring had no
/// room for (oldest first), the cancellations that it had no room for, the
/// operation that wakes the event loop, and the entries staged for the ring with
/// the room left behind them.
#[verifier::ext_equal]
pub ghost struct DriverModel {
    pub ops: SlabModel<Entry>,
    pub backlog: Seq<usize>,
    pub cancellations: Seq<usize>,
    pub waker_fd: RawHandle,
    pub waker_token: Option<usize>,
    pub buffers_registered: bool,
    pub room: nat,
    pub staged: Seq<Sqe>,
}

impl DriverModel {
    pub open spec fn has(self, key: usize) -> bool {
        self.ops.entries.contains_key(key)
    }

    pub open spec fn op(self, key: usize) -> Entry {
        self.ops.entries[key]
    }

    pub open spec fn entry_ok(self, key: usize) -> bool {
        let e = self.op(key);
        &&& e.platform_data.submitted ==> e.resources.is_some()
        &&& e.resources matches Some(op) ==> op.ready()
        &&& e.platform_data.next.is_none()
    }

    pub open spec fn waiting(self, i: int) -> bool {
        let key = self.backlog[i];
        &&& self.has(key)
        &&& self.op(key).resources.is_some()
        &&& !self.op(key).platform_data.submitted
    }

    /// The ring never has an operation of the backlog, and what it has still has its
    /// resources.
    pub open spec fn inv(self) -> bool {
        &&& forall|key: usize| #[trigger] self.has(key) ==> self.entry_ok(key)
        &&& forall|i: int| 0 <= i < self.backlog.len() ==> #[trigger] self.waiting(i)
        &&& self.backlog.no_duplicates()
        &&& self.waker_token matches Some(t) ==> self.has(t)
    }

    pub open spec fn with_op(self, key: usize, e: Entry) -> DriverModel {
        DriverModel { ops: SlabModel { entries: self.ops.entries.insert(key, e), ..self.ops }, ..self }
    }

    pub open spec fn with_room(self, room: nat) -> DriverModel {
        DriverModel { room, ..self }
    }

    /// The entry is staged, where the ring takes it.
    pub open spec fn push(self, sqe: Sqe) -> DriverModel {
        if self.room > 0 {
            DriverModel { room: (self.room - 1) as nat, staged: self.staged.push(sqe), ..self }
        } else {
            self
        }
    }

    pub open spec fn inserted(self, e: Entry) -> DriverModel {
        DriverModel { ops: self.ops.after_insert(e), ..self }
    }

    pub open spec fn removed(self, key: usize) -> DriverModel {
        DriverModel { ops: self.ops.after_remove(key), ..self }
    }

    /// A slot is set aside for an operation.
    pub open spec fn reserve(self) -> DriverModel {
        self.inserted(new_entry(None))
    }

    /// The operation goes to the ring, or behind the backlog where the ring is
    /// full.
    pub open spec fn dispatch(self, key: usize) -> DriverModel {
        let e = prepared_entry(self.op(key));
        if self.room > 0 {
            self.with_op(key, marked_submitted(e, true)).push(
                Sqe { entry: self.op(key).resources->0.entry(), user_data: key as u64 },
            )
        } else {
            let m = self.with_op(key, marked_submitted(e, false));
            DriverModel { backlog: m.backlog.push(key), ..m }
        }
    }

    pub open spec fn submit(self, key: usize, op: UringOp) -> DriverModel {
        self.with_op(key, OpEntry { resources: Some(op), ..self.op(key) }).dispatch(key)
    }

    /// The operation that wakes the event loop is in flight again.
    pub open spec fn submit_waker(self) -> DriverModel {
        if self.waker_token.is_some() {
            self
        } else {
            let key = self.ops.next_key();
            let m = self.inserted(new_entry(Some(wake_op(self.waker_fd))));
            DriverModel { waker_token: Some(key), ..m }.dispatch(key)
        }
    }

    /// The first operation of the backlog leaves it: finished if it was
    /// cancelled, into the ring if that has room. Nothing otherwise.
    pub open spec fn flush_step(self) -> Option<DriverModel> {
        if self.backlog.len() == 0 {
            None
        } else {
            let key = self.backlog[0];
            let e = self.op(key);
            let m = DriverModel { backlog: self.backlog.drop_first(), ..self };
            if e.cancelled {
                Some(
                    m.with_op(
                        key,
                        OpEntry { result: Some(Err(IoError::Os(ECANCELED))), waker: None, ..e },
                    ),
                )
            } else if self.room > 0 {
                Some(
                    m.with_op(
                        key,
                        OpEntry { waker: None, ..marked_submitted(prepared_entry(e), true) },
                    ).push(Sqe { entry: e.resources->0.entry(), user_data: key as u64 }),
                )
            } else {
                None
            }
        }
    }

    /// Whoever waits for the operations that leave the backlog.
    pub open spec fn flush_woken(self) -> Seq<Waker>
        decreases self.backlog.len(),
    {
        match self.flush_step() {
            Some(m) => maybe(self.op(self.backlog[0]).waker) + m.flush_woken(),
            None => Seq::empty(),
        }
    }

    /// The backlog goes to the ring, oldest first, as far as there is room.
    pub open spec fn flush_backlog(self) -> DriverModel
        decreases self.backlog.len(),
    {
        match self.flush_step() {
            Some(m) => m.flush_backlog(),
            None => self,
        }
    }

    /// The cancellations go to the ring as far as there is room; those of
    /// operations that are gone are dropped.
    pub open spec fn flush_cancellations(self) -> DriverModel
        decreases self.cancellations.len(),
    {
        if self.cancellations.len() == 0 {
            self
        } else {
            let key = self.cancellations[0];
            let m = DriverModel { cancellations: self.cancellations.drop_first(), ..self };
            if !self.has(key) {
                m.flush_cancellations()
            } else if self.room > 0 {
                m.push(cancel_sqe(key)).flush_cancellations()
            } else {
                self
            }
        }
    }

    pub open spec fn cancel(self, key: usize) -> DriverModel {
        if self.has(key) {
            let m = self.with_op(key, OpEntry { cancelled: true, waker: None, ..self.op(key) });
            if m.room > 0 {
                m.push(cancel_sqe(key))
            } else {
                DriverModel { cancellations: m.cancellations.push(key), ..m }
            }
        } else {
            self
        }
    }

    /// Whether the report is on no operation that anybody waits for.
    pub open spec fn is_reserved(cqe: Cqe) -> bool {
        ||| cqe.user_data as usize == RESERVED_USER_DATA as usize
        ||| cqe.user_data as usize == CANCEL_USER_DATA as usize
        ||| cqe.user_data as usize == BACKGROUND_USER_DATA as usize
    }

    /// Whether the report is on the operation that wakes the event loop.
    pub open spec fn is_wakeup(self, cqe: Cqe) -> bool {
        !Self::is_reserved(cqe) && self.waker_token == Some(cqe.user_data as usize)
    }

    /// Whether the report finishes an operation. Reports on no operation are passed
    /// over.
    pub open spec fn finishes(self, cqe: Cqe) -> bool {
        &&& !Self::is_reserved(cqe)
        &&& self.waker_token != Some(cqe.user_data as usize)
        &&& self.has(cqe.user_data as usize)
    }

    /// The operation that a report is on, as the report leaves it, where it is there
    /// already.
    pub open spec fn finished_op(self, cqe: Cqe) -> Option<UringOp> {
        match self.op(cqe.user_data as usize).resources {
            Some(op) => Some(op.completed(cqe)),
            None => None,
        }
    }

    /// An operation leaves the driver, and the backlog where it waits there.
    pub open spec fn forgotten(self, key: usize) -> DriverModel {
        DriverModel { backlog: without(self.backlog, key), ..self.removed(key) }
    }

    /// A report is taken in. A cancelled operation is forgotten; one that another
    /// thread waits for is handed over; any other keeps its result.
    pub open spec fn complete(self, cqe: Cqe) -> DriverModel {
        let key = cqe.user_data as usize;
        let e = self.op(key);
        if !self.finishes(cqe) {
            self
        } else if e.cancelled || e.platform_data.remote_completer.is_some() {
            self.forgotten(key)
        } else {
            self.with_op(
                key,
                OpEntry {
                    result: Some(error::kernel_outcome(cqe.result)),
                    resources: self.finished_op(cqe),
                    waker: None,
                    ..e
                },
            )
        }
    }

    pub open spec fn complete_woken(self, cqe: Cqe) -> Seq<Waker> {
        let e = self.op(cqe.user_data as usize);
        if self.finishes(cqe) && !e.cancelled && e.platform_data.remote_completer.is_none() {
            maybe(e.waker)
        } else {
            Seq::empty()
        }
    }

    pub open spec fn complete_remote(self, cqe: Cqe) -> Seq<RemoteCompletion> {
        let e = self.op(cqe.user_data as usize);
        if self.finishes(cqe) && !e.cancelled && e.platform_data.remote_completer.is_some()
            && e.resources.is_some() {
            seq![
                RemoteCompletion {
                    completer: e.platform_data.remote_completer->0,
                    result: error::kernel_outcome(cqe.result),
                    op: self.finished_op(cqe)->0,
                },
            ]
        } else {
            Seq::empty()
        }
    }

    /// Reports are taken in, oldest first.
    pub open spec fn complete_all(self, cqes: Seq<Cqe>) -> DriverModel
        decreases cqes.len(),
    {
        if cqes.len() == 0 {
            self
        } else {
            self.complete_all(cqes.drop_last()).complete(cqes.last())
        }
    }

    pub open spec fn all_woken(self, cqes: Seq<Cqe>) -> Seq<Waker>
        decreases cqes.len(),
    {
        if cqes.len() == 0 {
            Seq::empty()
        } else {
            self.all_woken(cqes.drop_last()) + self.complete_all(cqes.drop_last()).complete_woken(cqes.last())
        }
    }

    pub open spec fn all_remote(self, cqes: Seq<Cqe>) -> Seq<RemoteCompletion>
        decreases cqes.len(),
    {
        if cqes.len() == 0 {
            Seq::empty()
        } else {
            self.all_remote(cqes.drop_last()) + self.complete_all(cqes.drop_last()).complete_remote(cqes.last())
        }
    }

    /// Whether the event loop was woken.
    pub open spec fn was_woken(self, cqes: Seq<Cqe>) -> bool {
        exists|i: int| 0 <= i < cqes.len() && self.is_wakeup(#[trigger] cqes[i])
    }

    /// The operation that wakes the event loop is put in flight anew.
    pub open spec fn rearm(self) -> DriverModel {
        let m = match self.waker_token {
            Some(token) => DriverModel { waker_token: None, ..self.forgotten(token) },
            None => self,
        };
        m.submit_waker()
    }

    /// Reports are taken in, and the event loop can be woken again.
    pub open spec fn process(self, cqes: Seq<Cqe>) -> DriverModel {
        let m = self.complete_all(cqes);
        if self.was_woken(cqes) {
            m.rearm().flush_backlog()
        } else {
            m
        }
    }

    pub open spec fn process_woken(self, cqes: Seq<Cqe>) -> Seq<Waker> {
        self.all_woken(cqes) + if self.was_woken(cqes) {
            self.complete_all(cqes).rearm().flush_woken()
        } else {
            Seq::empty()
        }
    }

    /// Room is made, and the backlog and the cancellations go to the ring.
    pub open spec fn flush(self) -> DriverModel {
        self.flush_cancellations().flush_backlog()
    }

    /// The driver after someone asked for an operation's result.
    pub open spec fn poll(self, key: usize, waker: Waker) -> DriverModel {
        let m = if self.op(key).platform_data.submitted {
            self
        } else {
            self.flush_backlog().flush_cancellations()
        };
        if m.op(key).platform_data.submitted && m.op(key).result.is_some() {
            m.removed(key)
        } else {
            m.with_op(key, OpEntry { waker: Some(waker), ..m.op(key) })
        }
    }

    pub open spec fn poll_woken(self, key: usize) -> Seq<Waker> {
        if self.op(key).platform_data.submitted {
            Seq::empty()
        } else {
            self.flush_woken()
        }
    }

    /// The result of an operation, if the ring had it and it is finished.
    pub open spec fn poll_result(self, key: usize) -> Option<(Result<usize, IoError>, UringOp)> {
        let m = if self.op(key).platform_data.submitted {
            self
        } else {
            self.flush_backlog().flush_cancellations()
        };
        if m.op(key).platform_data.submitted && m.op(key).result.is_some() {
            Some((m.op(key).result->0, m.op(key).resources->0))
        } else {
            None
        }
    }

    /// One step of the backlog: the invariant holds, the rest of the backlog stays
    /// in order, and no operation is lost.
    pub proof fn lemma_flush_step(self)
        requires
            self.inv(),
            self.flush_step().is_some(),
        ensures
            self.flush_step()->0.inv(),
            self.flush_step()->0.backlog == self.backlog.drop_first(),
            self.flush_step()->0.ops.entries.dom() == self.ops.entries.dom(),
            self.flush_step()->0.cancellations == self.cancellations,
    {
        let m = self.flush_step()->0;
        let key = self.backlog[0];
        assert(self.waiting(0));
        assert(self.entry_ok(key));
        assert forall|k: usize| #[trigger] m.has(k) implies m.entry_ok(k) by {
            assert(self.has(k));
            assert(self.entry_ok(k));
        }
        assert forall|i: int| 0 <= i < m.backlog.len() implies #[trigger] m.waiting(i) by {
            assert(self.waiting(i + 1));
            assert(self.backlog[i + 1] != self.backlog[0]);
        }
        assert(m.ops.entries.dom() =~= self.ops.entries.dom());
        assert(m.waker_token matches Some(t) ==> m.has(t)) by {
            assert(self.waker_token matches Some(t) ==> self.has(t));
        }
    }

    pub proof fn lemma_flush_backlog(self)
        requires
            self.inv(),
        ensures
            self.flush_backlog().inv(),
            self.flush_backlog().ops.entries.dom() == self.ops.entries.dom(),
            self.flush_backlog().cancellations == self.cancellations,
        decreases self.backlog.len(),
    {
        if let Some(m) = self.flush_step() {
            self.lemma_flush_step();
            m.lemma_flush_backlog();
        }
    }

    pub proof fn lemma_flush_cancellations(self)
        requires
            self.inv(),
        ensures
            self.flush_cancellations().inv(),
            self.flush_cancellations().ops == self.ops,
            self.flush_cancellations().backlog == self.backlog,
        decreases self.cancellations.len(),
    {
        if self.cancellations.len() > 0 {
            let key = self.cancellations[0];
            let m = DriverModel { cancellations: self.cancellations.drop_first(), ..self };
            if !self.has(key) {
                assert(m.inv()) by {
                    self.lemma_same(m);
                }
                m.lemma_flush_cancellations();
            } else if self.room > 0 {
                let n = m.push(cancel_sqe(key));
                assert(n.inv()) by {
                    self.lemma_same(n);
                }
                n.lemma_flush_cancellations();
            }
        }
    }

    /// The invariant speaks of the operations, the backlog and the waker alone.
    pub proof fn lemma_same(self, m: DriverModel)
        requires
            self.inv(),
            m.ops.entries == self.ops.entries,
            m.backlog == self.backlog,
            m.waker_token == self.waker_token,
        ensures
            m.inv(),
    {
        assert forall|k: usize| #[trigger] m.has(k) implies m.entry_ok(k) by {
            assert(self.has(k));
            assert(self.entry_ok(k));
        }
        assert forall|i: int| 0 <= i < m.backlog.len() implies #[trigger] m.waiting(i) by {
            assert(self.waiting(i));
        }
    }

    /// A new slot keeps the invariant.
    pub proof fn lemma_inserted(self, e: Entry)
        requires
            self.inv(),
            !self.has(self.ops.next_key()),
            !e.platform_data.submitted,
            e.result.is_none(),
            e.resources matches Some(op) ==> op.ready(),
            e.platform_data.next.is_none(),
        ensures
            self.inserted(e).inv(),
            !self.inserted(e).backlog.contains(self.ops.next_key()),
    {
        let m = self.inserted(e);
        let key = self.ops.next_key();
        assert forall|k: usize| #[trigger] m.has(k) implies m.entry_ok(k) by {
            if k != key {
                assert(self.has(k));
                assert(self.entry_ok(k));
            }
        }
        assert forall|i: int| 0 <= i < m.backlog.len() implies #[trigger] m.waiting(i) by {
            assert(self.waiting(i));
        }
        if m.backlog.contains(key) {
            let i = choose|i: int| 0 <= i < m.backlog.len() && m.backlog[i] == key;
            assert(self.waiting(i));
        }
    }

    /// Sending an operation on its way keeps the invariant.
    pub proof fn lemma_dispatch(self, key: usize)
        requires
            self.inv(),
            self.has(key),
            self.op(key).resources.is_some(),
            !self.backlog.contains(key),
        ensures
            self.dispatch(key).inv(),
            self.dispatch(key).has(key),
            self.dispatch(key).op(key).platform_data.submitted == (self.room > 0),
    {
        let m = self.dispatch(key);
        assert(self.entry_ok(key));
        assert forall|k: usize| #[trigger] m.has(k) implies m.entry_ok(k) by {
            assert(self.has(k));
            assert(self.entry_ok(k));
        }
        assert forall|i: int| 0 <= i < m.backlog.len() implies #[trigger] m.waiting(i) by {
            if i < self.backlog.len() {
                assert(self.waiting(i));
                assert(self.backlog.contains(self.backlog[i]));
            }
        }
        assert(m.waker_token matches Some(t) ==> m.has(t)) by {
            assert(self.waker_token matches Some(t) ==> self.has(t));
        }
        assert(m.backlog.no_duplicates()) by {
            if self.room == 0 {
                assert forall|i: int, j: int| 0 <= i < m.backlog.len() && 0 <= j < m.backlog.len() && i
                    != j implies m.backlog[i] != m.backlog[j] by {
                    if i < self.backlog.len() {
                        assert(self.backlog.contains(self.backlog[i]));
                    }
                    if j < self.backlog.len() {
                        assert(self.backlog.contains(self.backlog[j]));
                    }
                }
            }
        }
    }

    /// An entry that did not lose its resources keeps the invariant.
    pub proof fn lemma_with_op(self, key: usize, e: Entry)
        requires
            self.inv(),
            self.has(key),
            e.resources.is_some() || e.resources == self.op(key).resources,
            e.resources matches Some(op) ==> op.ready(),
            e.platform_data.submitted == self.op(key).platform_data.submitted,
            e.platform_data.next.is_none(),
        ensures
            self.with_op(key, e).inv(),
    {
        let m = self.with_op(key, e);
        assert(self.entry_ok(key));
        assert forall|k: usize| #[trigger] m.has(k) implies m.entry_ok(k) by {
            assert(self.has(k));
            assert(self.entry_ok(k));
        }
        assert forall|i: int| 0 <= i < m.backlog.len() implies #[trigger] m.waiting(i) by {
            assert(self.waiting(i));
        }
    }

    /// An operation outside the backlog that is not the event loop's can go.
    pub proof fn lemma_removed(self, key: usize)
        requires
            self.inv(),
            self.has(key),
            !self.backlog.contains(key),
        ensures
            self.waker_token != Some(key) ==> self.removed(key).inv(),
            (DriverModel { waker_token: None, ..self.removed(key) }).inv(),
    {
        let m = DriverModel { waker_token: None, ..self.removed(key) };
        assert forall|k: usize| #[trigger] m.has(k) implies m.entry_ok(k) by {
            assert(self.has(k));
            assert(self.entry_ok(k));
        }
        assert forall|i: int| 0 <= i < m.backlog.len() implies #[trigger] m.waiting(i) by {
            assert(self.waiting(i));
            assert(self.backlog.contains(self.backlog[i]));
        }
        if self.waker_token != Some(key) {
            let n = self.removed(key);
            assert forall|k: usize| #[trigger] n.has(k) implies n.entry_ok(k) by {
                assert(m.has(k) && m.entry_ok(k));
            }
            assert forall|i: int| 0 <= i < n.backlog.len() implies #[trigger] n.waiting(i) by {
                assert(m.waiting(i));
            }
        }
    }

    pub proof fn lemma_submitted_not_waiting(self, key: usize)
        requires
            self.inv(),
            self.has(key),
            self.op(key).platform_data.submitted,
        ensures
            !self.backlog.contains(key),
    {
        if self.backlog.contains(key) {
            let i = choose|i: int| 0 <= i < self.backlog.len() && self.backlog[i] == key;
            assert(self.waiting(i));
        }
    }

    /// Taking an operation out of the backlog keeps the invariant.
    pub proof fn lemma_dequeued(self, key: usize)
        requires
            self.inv(),
        ensures
            (DriverModel { backlog: without(self.backlog, key), ..self }).inv(),
            !without(self.backlog, key).contains(key),
    {
        let m = DriverModel { backlog: without(self.backlog, key), ..self };
        lemma_without(self.backlog, key);
        assert forall|k: usize| #[trigger] m.has(k) implies m.entry_ok(k) by {
            assert(self.has(k));
            assert(self.entry_ok(k));
        }
        assert forall|i: int| 0 <= i < m.backlog.len() implies #[trigger] m.waiting(i) by {
            assert(m.backlog.contains(m.backlog[i]));
            let j = choose|j: int| 0 <= j < self.backlog.len() && self.backlog[j] == m.backlog[i];
            assert(self.waiting(j));
        }
    }

    /// A report keeps the invariant, and leaves the operation that wakes the event
    /// loop as it is.
    pub proof fn lemma_complete(self, cqe: Cqe)
        requires
            self.inv(),
            cqe.valid(),
        ensures
            self.complete(cqe).inv(),
            self.complete(cqe).waker_token == self.waker_token,
            self.complete(cqe).waker_fd == self.waker_fd,
            self.waker_token matches Some(t) ==> self.complete(cqe).op(t) == self.op(t),
    {
        let key = cqe.user_data as usize;
        if self.finishes(cqe) {
            assert(self.entry_ok(key));
            let e = self.op(key);
            if e.cancelled || e.platform_data.remote_completer.is_some() {
                let m = DriverModel { backlog: without(self.backlog, key), ..self };
                self.lemma_dequeued(key);
                m.lemma_removed(key);
                assert(m.removed(key) =~= self.forgotten(key));
            } else {
                self.lemma_with_op(key, self.complete(cqe).op(key));
            }
        }
    }

    pub proof fn lemma_complete_all(self, cqes: Seq<Cqe>)
        requires
            self.inv(),
            forall|i: int| 0 <= i < cqes.len() ==> (#[trigger] cqes[i]).valid(),
        ensures
            self.complete_all(cqes).inv(),
            self.complete_all(cqes).waker_token == self.waker_token,
            self.complete_all(cqes).waker_fd == self.waker_fd,
            self.waker_token matches Some(t) ==> self.complete_all(cqes).op(t) == self.op(t),
        decreases cqes.len(),
    {
        if cqes.len() > 0 {
            let most = cqes.drop_last();
            assert forall|i: int| 0 <= i < most.len() implies (#[trigger] most[i]).valid() by {
                assert(most[i] == cqes[i]);
            }
            self.lemma_complete_all(most);
            let m = self.complete_all(most);
            assert(cqes[cqes.len() - 1].valid());
            m.lemma_complete(cqes.last());
        }
    }

    /// Flushing with some room, and again with more, is flushing once with both.
    pub proof fn lemma_flush_portions(self, more: nat)
        ensures
            ({
                let first = self.flush_backlog();
                let second = first.with_room(first.room + more);
                &&& second.flush_backlog() == self.with_room(self.room + more).flush_backlog()
                &&& self.flush_woken() + second.flush_woken() == self.with_room(
                    self.room + more,
                ).flush_woken()
            }),
        decreases self.backlog.len(),
    {
        let both = self.with_room(self.room + more);
        match self.flush_step() {
            Some(m) => {
                m.lemma_flush_portions(more);
                assert(both.flush_step() is Some);
                assert(both.flush_step()->0 =~= m.with_room(m.room + more));
                let first = self.flush_backlog();
                let second = first.with_room(first.room + more);
                assert(self.flush_woken() + second.flush_woken() =~= maybe(self.op(self.backlog[0]).waker) + (
                m.flush_woken() + second.flush_woken()));
            },
            None => {
                assert(self.flush_woken() + both.flush_woken() =~= both.flush_woken());
            },
        }
    }

    /// Flushing takes operations off the front of the backlog only, each of which
    /// is then in the ring or finished as cancelled; a cancelled one takes no room.
    /// With enough room the backlog empties.
    pub proof fn lemma_flush_progress(self)
        requires
            self.inv(),
        ensures
            self.flush_backlog().backlog.len() <= self.backlog.len(),
            self.flush_backlog().backlog == self.backlog.skip(
                self.backlog.len() - self.flush_backlog().backlog.len(),
            ),
            forall|i: int|
                0 <= i < self.backlog.len() - self.flush_backlog().backlog.len() ==> {
                    let before = self.op(#[trigger] self.backlog[i]);
                    let after = self.flush_backlog().op(self.backlog[i]);
                    if before.cancelled {
                        &&& after.result == Some(Err::<usize, IoError>(IoError::Os(ECANCELED)))
                        &&& !after.platform_data.submitted
                    } else {
                        after.platform_data.submitted
                    }
                },
            self.flush_backlog().backlog.len() > 0 ==> self.flush_backlog().room == 0,
            forall|k: usize|
                self.has(k) && !self.backlog.contains(k) ==> #[trigger] self.flush_backlog().op(k) == self.op(k),
        decreases self.backlog.len(),
    {
        match self.flush_step() {
            Some(m) => {
                self.lemma_flush_step();
                m.lemma_flush_progress();
                let end = self.flush_backlog();
                let n = self.backlog.len() - end.backlog.len();
                assert(self.waiting(0));
                assert(m.backlog.skip(n - 1) =~= self.backlog.skip(n));
                assert(!m.backlog.contains(self.backlog[0])) by {
                    if m.backlog.contains(self.backlog[0]) {
                        let j = choose|j: int| 0 <= j < m.backlog.len() && m.backlog[j] == self.backlog[0];
                        assert(self.backlog[j + 1] == self.backlog[0]);
                    }
                }
                assert(m.has(self.backlog[0]));
                assert forall|i: int| 0 <= i < n implies {
                    let before = self.op(#[trigger] self.backlog[i]);
                    let after = end.op(self.backlog[i]);
                    if before.cancelled {
                        &&& after.result == Some(Err::<usize, IoError>(IoError::Os(ECANCELED)))
                        &&& !after.platform_data.submitted
                    } else {
                        after.platform_data.submitted
                    }
                } by {
                    if i > 0 {
                        assert(m.backlog[i - 1] == self.backlog[i]);
                        assert(self.backlog[i] != self.backlog[0]);
                    } else {
                        assert(end.op(self.backlog[0]) == m.op(self.backlog[0]));
                    }
                }
                assert forall|k: usize| self.has(k) && !self.backlog.contains(k) implies #[trigger] end.op(k)
                    == self.op(k) by {
                    assert(self.backlog.contains(self.backlog[0]));
                    assert(m.has(k));
                    assert(!m.backlog.contains(k)) by {
                        if m.backlog.contains(k) {
                            let j = choose|j: int| 0 <= j < m.backlog.len() && m.backlog[j] == k;
                            assert(self.backlog[j + 1] == k);
                        }
                    }
                }
            },
            None => {
                assert(self.backlog.skip(0) =~= self.backlog);
            },
        }
    }

    /// An operation that the ring takes, and that the kernel reports on, is what
    /// the next poll gives; and then it is gone.
    pub proof fn lemma_submit_complete_poll(self, key: usize, op: UringOp, cqe: Cqe, waker: Waker)
        requires
            self.inv(),
            self.has(key),
            !self.backlog.contains(key),
            !self.op(key).cancelled,
            self.op(key).platform_data.remote_completer.is_none(),
            self.waker_token != Some(key),
            self.room > 0,
            cqe.valid(),
            cqe.user_data as usize == key,
            !Self::is_reserved(cqe),
        ensures
            self.submit(key, op).complete(cqe).poll_result(key) == Some(
                (error::kernel_outcome(cqe.result), op.prepared().completed(cqe)),
            ),
            !self.submit(key, op).complete(cqe).poll(key, waker).has(key),
    {
    }

    /// Whether the ring has an operation, which is not the event loop's own.
    pub open spec fn in_flight(self, key: usize, op: UringOp) -> bool {
        &&& self.has(key)
        &&& self.op(key).platform_data.submitted
        &&& self.op(key).resources == Some(op)
        &&& self.waker_token != Some(key)
    }

    /// What the kernel works on stays as it is until the kernel reports on it, or the
    /// one who waits for it takes it: whatever happens to other operations, and even
    /// if it is cancelled itself.
    pub proof fn lemma_in_flight_kept(self, key: usize, op: UringOp)
        requires
            self.inv(),
            self.in_flight(key, op),
            !self.has(self.ops.next_key()),
        ensures
            self.reserve().in_flight(key, op),
            forall|other: usize, o: UringOp|
                other != key && self.has(other) ==> #[trigger] self.submit(other, o).in_flight(key, op),
            forall|k: usize| #[trigger] self.cancel(k).in_flight(key, op),
            forall|cqe: Cqe|
                cqe.user_data as usize != key ==> #[trigger] self.complete(cqe).in_flight(key, op),
            forall|other: usize, w: Waker|
                other != key && self.has(other) ==> #[trigger] self.poll(other, w).in_flight(key, op),
            self.flush_backlog().in_flight(key, op),
            self.flush_cancellations().in_flight(key, op),
            self.flush().in_flight(key, op),
            self.rearm().in_flight(key, op),
    {
        self.lemma_submitted_not_waiting(key);
        self.lemma_flush_backlog();
        self.lemma_flush_progress();
        self.lemma_flush_token();
        self.lemma_flush_cancellations();
        self.lemma_cancellations_token();
        let b = self.flush_backlog();
        assert(b.in_flight(key, op));
        b.lemma_flush_cancellations();
        b.lemma_cancellations_token();
        let c = self.flush_cancellations();
        c.lemma_flush_backlog();
        c.lemma_flush_progress();
        c.lemma_flush_token();
        assert(c.in_flight(key, op));
        assert forall|other: usize, w: Waker| other != key && self.has(other) implies #[trigger] self.poll(
            other,
            w,
        ).in_flight(key, op) by {
            let m = if self.op(other).platform_data.submitted {
                self
            } else {
                b.flush_cancellations()
            };
            assert(m.in_flight(key, op));
        }
        match self.waker_token {
            Some(token) => {
                let m = DriverModel { waker_token: None, ..self.removed(token) };
                assert(m.ops.free[0] == token);
                assert(m.ops.next_key() == token);
                assert(m.has(key) && m.op(key) == self.op(key));
            },
            None => {},
        }
    }

    /// Flushing the backlog leaves the operation that wakes the event loop where it
    /// is.
    pub proof fn lemma_flush_token(self)
        ensures
            self.flush_backlog().waker_token == self.waker_token,
        decreases self.backlog.len(),
    {
        if let Some(m) = self.flush_step() {
            m.lemma_flush_token();
        }
    }

    /// Flushing the cancellations leaves the operation that wakes the event loop
    /// where it is.
    pub proof fn lemma_cancellations_token(self)
        ensures
            self.flush_cancellations().waker_token == self.waker_token,
        decreases self.cancellations.len(),
    {
        if self.cancellations.len() > 0 {
            let key = self.cancellations[0];
            let m = DriverModel { cancellations: self.cancellations.drop_first(), ..self };
            if !self.has(key) {
                m.lemma_cancellations_token();
            } else if self.room > 0 {
                m.push(cancel_sqe(key)).lemma_cancellations_token();
            }
        }
    }
}

} // verus!
