//! The completion port driver: operations in flight.

use crate::config::Config;
use crate::error::IoError;
use crate::io::driver::iocp::blocking::{CompletionInfo, Dispatch, ThreadPool};
use crate::io::driver::iocp::op::{IocpOp, IocpOpPayload, OverlappedEntry, RecvFromPayload};
use crate::io::driver::iocp::submit::{Submission, SubmissionResult};
use crate::io::driver::op_registry::{OpEntry, OpRegistry};
use crate::io::driver::stable_slab::{SlabModel, PAGE_SIZE};
use crate::io::op::{RawHandle, Timespan};
use crate::io::socket::sockaddr::{self, SockAddrStorage};
use crate::poll::Poll;
use std::task::Waker;
use vstd::prelude::*;

verus! {

/// What the driver keeps of each operation besides.
#[derive(Debug, Clone, Copy, PartialEq, Eq, Structural)]
pub enum PlatformData {
    /// Nothing.
    Plain,
    /// It ends after a time.
    Timer,
    /// Nobody waits for it.
    Background,
    /// Somebody outside the event loop waits for it.
    Detached(u64),
}

pub type Entry = OpEntry<IocpOp, PlatformData>;

/// A finished operation that is owed to somebody outside the event loop.
pub struct DetachedCompletion {
    pub completer: u64,
    pub result: Result<usize, IoError>,
    pub op: IocpOp,
}

/// What the port reports of an operation: how many bytes it moved, or its error
/// number. For one that makes a connection, the answer of the socket that was told of
/// it and its error number. The name of the peer, or of a datagram's sender, where the
/// system stored one.
#[derive(Debug, Clone, Copy)]
pub struct PortReport {
    pub user_data: usize,
    pub bytes: usize,
    pub error: u32,
    pub told: i32,
    pub told_error: i32,
    pub remote: Option<(SockAddrStorage, i32)>,
}

impl PortReport {
    /// What the operation came to: what a blocking thread noted, else the error, else
    /// what the operation makes of its bytes.
    pub open spec fn result(self, op: IocpOp) -> Result<usize, IoError> {
        match op.header.blocking_result {
            Some(result) => result,
            None => if self.error != 0 {
                Err(IoError::Os(self.error as i32))
            } else {
                op.outcome(self.bytes, self.told, self.told_error)
            },
        }
    }

    /// The operation after that. One that received a datagram holds its sender's name.
    pub open spec fn finished(self, op: IocpOp) -> IocpOp {
        if op.header.blocking_result is None && self.error == 0 {
            match (op.payload, self.remote) {
                (IocpOpPayload::RecvFrom(p), Some((name, len))) => if 0 <= len <= sockaddr::STORAGE_LEN {
                    IocpOp {
                        payload: IocpOpPayload::RecvFrom(RecvFromPayload { addr: name, addr_len: len, ..p }),
                        ..op
                    }
                } else {
                    op
                },
                _ => op.finished(self.bytes, self.told, self.told_error, self.remote),
            }
        } else {
            op
        }
    }

    fn apply(&self, op: &mut IocpOp) -> (result: Result<usize, IoError>)
        ensures
            result == self.result(*old(op)),
            *final(op) == self.finished(*old(op)),
    {
        if let Some(result) = op.header.blocking_result {
            return result;
        }
        if self.error != 0 {
            return Err(IoError::Os(self.error as i32));
        }
        if let IocpOpPayload::RecvFrom(p) = &mut op.payload {
            if let Some((name, len)) = self.remote {
                if 0 <= len && len <= 128 {
                    p.addr = name;
                    p.addr_len = len;
                }
            }
            return Ok(self.bytes);
        }
        op.on_complete(self.bytes, self.told, self.told_error, self.remote)
    }
}

/// What is left to do for an operation that was submitted.
#[derive(Debug, Clone, Copy, PartialEq, Eq, Structural)]
pub enum SubmitAction {
    Nothing,
    /// Post the operation's key to the port.
    Post,
    /// Give a thread of the pool its task.
    Dispatch(Dispatch),
    /// Post the operation's key after a time.
    StartTimer(Timespan),
}

pub open spec fn new_entry() -> Entry {
    OpEntry {
        waker: None,
        result: None,
        resources: None,
        cancelled: false,
        platform_data: PlatformData::Plain,
    }
}

/// The entry with its operation in place, under its key.
pub open spec fn loaded(
    e: Entry,
    user_data: usize,
    op: IocpOp,
    registered: Seq<Option<RawHandle>>,
) -> Entry {
    OpEntry {
        resources: Some(
            IocpOp {
                header: crate::io::driver::iocp::op::OverlappedEntry { user_data, ..op.header },
                ..op
            }.primed(registered),
        ),
        ..e
    }
}

/// The driver of one event loop. The port belongs to the caller, which makes the
/// calls and hands back their answers.
pub struct IocpDriver {
    ops: OpRegistry<IocpOp, PlatformData>,
    port: usize,
    registered_files: Vec<Option<RawHandle>>,
}

impl IocpDriver {
    pub closed spec fn ops(self) -> SlabModel<Entry> {
        self.ops@
    }

    pub closed spec fn port(self) -> usize {
        self.port
    }

    pub closed spec fn registered(self) -> Seq<Option<RawHandle>> {
        self.registered_files@
    }

    pub open spec fn has(self, key: usize) -> bool {
        self.ops().entries.dom().contains(key)
    }

    pub open spec fn op(self, key: usize) -> Entry {
        self.ops().entries[key]
    }

    /// What is finished still has its resources.
    pub closed spec fn wf(self) -> bool {
        &&& self.ops.wf()
        &&& forall|k: usize| #[trigger]
            self.ops@.entries.dom().contains(k) ==> (self.ops@.entries[k].result is Some
                ==> self.ops@.entries[k].resources is Some)
    }

    pub open spec fn with_op(self, after: Self, key: usize, e: Entry) -> bool {
        &&& after.ops() == (SlabModel { entries: self.ops().entries.insert(key, e), ..self.ops() })
        &&& after.port() == self.port()
        &&& after.registered() == self.registered()
    }

    /// Whether the port's size can be counted.
    pub open spec fn fits(config: Config) -> bool {
        config.iocp.entries + PAGE_SIZE <= usize::MAX
    }

    /// Starts a driver on a port, which is zero where the system has none, for the
    /// reason `error`.
    pub fn new(config: &Config, port: usize, error: u32) -> (driver: Result<Self, IoError>)
        requires
            Self::fits(*config),
        ensures
            port == 0 ==> driver == Err::<Self, IoError>(IoError::Os(error as i32)),
            port != 0 ==> {
                &&& driver is Ok
                &&& driver->Ok_0.wf()
                &&& driver->Ok_0.ops() == SlabModel::<Entry>::empty().with_pages(
                    SlabModel::<Entry>::empty().pages_for(config.iocp.entries as nat),
                )
                &&& driver->Ok_0.port() == port
                &&& driver->Ok_0.registered() == Seq::<Option<RawHandle>>::empty()
            },
    {
        if port == 0 {
            return Err(IoError::Os(error as i32));
        }
        let driver = IocpDriver {
            ops: OpRegistry::with_capacity(config.iocp.entries as usize),
            port,
            registered_files: Vec::new(),
        };
        proof {
            Self::lemma_no_entries(SlabModel::<Entry>::empty().pages_for(config.iocp.entries as nat));
        }
        Ok(driver)
    }

    proof fn lemma_no_entries(n: nat)
        ensures
            SlabModel::<Entry>::empty().with_pages(n).entries == Map::<usize, Entry>::empty(),
        decreases n,
    {
        if n > 0 {
            Self::lemma_no_entries((n - 1) as nat);
        }
    }

    /// Sets a slot aside for an operation. A page of slots that is new is told too:
    /// its memory has to be registered.
    pub fn reserve_op(&mut self) -> (slot: (usize, Option<usize>))
        requires
            old(self).wf(),
            old(self).ops().can_insert(),
        ensures
            final(self).wf(),
            slot.0 == old(self).ops().next_key(),
            !old(self).has(slot.0),
            final(self).has(slot.0),
            final(self).op(slot.0) == new_entry(),
            final(self).ops() == old(self).ops().after_insert(new_entry()),
            final(self).port() == old(self).port(),
            final(self).registered() == old(self).registered(),
            slot.1 == (if old(self).ops().free.len() > 0 {
                None
            } else {
                Some((old(self).ops().capacity / PAGE_SIZE as nat) as usize)
            }),
    {
        let old_pages: usize = self.ops.page_count();
        let user_data: usize = self.ops.insert(OpEntry::new(None, PlatformData::Plain));
        let pages: usize = self.ops.page_count();
        if pages > old_pages {
            (user_data, Some(pages - 1))
        } else {
            (user_data, None)
        }
    }

    /// Where in its file an operation starts, as the system sees it: the low and the
    /// high half.
    pub fn file_offset(&self, user_data: usize) -> (halves: Option<(u32, u32)>)
        requires
            self.wf(),
        ensures
            halves == (if self.has(user_data) && self.op(user_data).resources is Some {
                let header = self.op(user_data).resources->0.header;
                Some((header.offset, header.offset_high))
            } else {
                None
            }),
    {
        match self.ops.get(user_data) {
            Some(entry) => match &entry.resources {
                Some(op) => Some((op.header.offset, op.header.offset_high)),
                None => None,
            },
            None => None,
        }
    }

    /// Whether one more operation can be set up.
    pub fn has_room(&self) -> (room: bool)
        requires
            self.wf(),
        ensures
            room == self.ops().can_insert(),
    {
        self.ops.has_room()
    }

    /// Notes who outside the event loop waits for an operation.
    pub fn attach_detached_completer(&mut self, user_data: usize, completer: u64)
        requires
            old(self).wf(),
        ensures
            final(self).wf(),
            if old(self).has(user_data) {
                old(self).with_op(
                    *final(self),
                    user_data,
                    OpEntry { platform_data: PlatformData::Detached(completer), ..old(self).op(user_data) },
                )
            } else {
                final(self).ops() == old(self).ops() && final(self).port() == old(self).port() && final(self).registered() == old(self).registered()
            },
    {
        if let Some(entry) = self.ops.get_mut(user_data) {
            entry.platform_data = PlatformData::Detached(completer);
        }
    }

    /// Puts an operation into its slot, and tells how it is submitted: not at all,
    /// where there is no such slot. `path` is what its buffer holds, where it opens a
    /// file.
    pub fn submit(&mut self, user_data: usize, op: IocpOp, overlapped: usize, path: Vec<u16>) -> (how: Option<
        Result<Submission, IoError>,
    >)
        requires
            old(self).wf(),
        ensures
            final(self).wf(),
            if old(self).has(user_data) {
                &&& old(self).with_op(
                    *final(self),
                    user_data,
                    loaded(old(self).op(user_data), user_data, op, old(self).registered()),
                )
                &&& how is Some
                &&& op.submission(
                    old(self).registered(),
                    CompletionInfo { port: old(self).port(), user_data, overlapped },
                    path@,
                    how->0,
                )
            } else {
                &&& how is None
                &&& *final(self) == *old(self)
            },
    {
        if !self.ops.contains(user_data) {
            return None;
        }
        let mut op = op;
        op.header.user_data = user_data;
        let completion = CompletionInfo { port: self.port, user_data, overlapped };
        let how = op.submit(self.registered_files.as_slice(), completion, path);
        if let Some(entry) = self.ops.get_mut(user_data) {
            entry.resources = Some(op);
        }
        Some(how)
    }

    /// The entry after its submission came to `result`. A full pool and an error are
    /// results at once.
    pub open spec fn settled(e: Entry, result: Result<SubmissionResult, IoError>, overloaded: bool) -> Entry {
        match result {
            Ok(SubmissionResult::Offload(_)) => if overloaded {
                OpEntry { result: Some(Err(IoError::Overloaded)), waker: None, ..e }
            } else {
                e
            },
            Ok(SubmissionResult::Timer(_)) => OpEntry { platform_data: PlatformData::Timer, ..e },
            Ok(_) => e,
            Err(err) => OpEntry { result: Some(Err(err)), waker: None, ..e },
        }
    }

    pub open spec fn action_for(result: Result<SubmissionResult, IoError>, pool: ThreadPool) -> SubmitAction {
        match result {
            Ok(SubmissionResult::Pending) => SubmitAction::Nothing,
            Ok(SubmissionResult::PostToQueue) => SubmitAction::Post,
            Ok(SubmissionResult::Offload(_)) => if pool.overloaded() {
                SubmitAction::Nothing
            } else if pool.idle_workers == 0 && pool.active_workers < pool.max_threads {
                SubmitAction::Dispatch(Dispatch::Spawn)
            } else {
                SubmitAction::Dispatch(Dispatch::Notify)
            },
            Ok(SubmissionResult::Timer(duration)) => SubmitAction::StartTimer(duration),
            Err(_) => SubmitAction::Nothing,
        }
    }

    /// Takes in what the submission of an operation came to, and tells what is left
    /// to do. Where the operation is finished at once, whoever waits is added to
    /// `woken`; if that is somebody outside the event loop, the operation leaves the
    /// driver and is added to `detached`.
    pub fn submitted(
        &mut self,
        user_data: usize,
        result: Result<SubmissionResult, IoError>,
        pool: &mut ThreadPool,
        woken: &mut Vec<Waker>,
        detached: &mut Vec<DetachedCompletion>,
    ) -> (action: SubmitAction)
        requires
            old(self).wf(),
            old(pool).wf(),
            old(self).has(user_data),
            old(self).op(user_data).resources is Some,
        ensures
            final(self).wf(),
            final(pool).wf(),
            action == Self::action_for(result, *old(pool)),
            old(pool).executed(*final(pool), action == SubmitAction::Dispatch(Dispatch::Spawn)),
            final(pool).queue@ == (if action is Dispatch {
                old(pool).queue@.push(result->Ok_0->Offload_0)
            } else {
                old(pool).queue@
            }),
            ({
                let e = old(self).op(user_data);
                let s = Self::settled(e, result, old(pool).overloaded());
                let failed = result is Err || (result->Ok_0 is Offload && old(pool).overloaded());
                &&& final(woken)@ == (if failed && e.waker is Some {
                    old(woken)@.push(e.waker->0)
                } else {
                    old(woken)@
                })
                &&& if s.result is Some && s.platform_data is Detached {
                    &&& final(self).ops() == old(self).ops().after_remove(user_data)
                    &&& final(self).port() == old(self).port()
                    &&& final(self).registered() == old(self).registered()
                    &&& final(detached)@ == old(detached)@.push(
                        DetachedCompletion {
                            completer: s.platform_data->Detached_0,
                            result: s.result->0,
                            op: s.resources->0,
                        },
                    )
                } else {
                    &&& old(self).with_op(*final(self), user_data, s)
                    &&& final(detached)@ == old(detached)@
                }
            }),
    {
        let mut action: SubmitAction = SubmitAction::Nothing;
        let mut failure: Option<IoError> = None;
        let mut timer: bool = false;
        match result {
            Ok(SubmissionResult::Pending) => {},
            Ok(SubmissionResult::PostToQueue) => {
                action = SubmitAction::Post;
            },
            Ok(SubmissionResult::Offload(task)) => match pool.execute(task) {
                Ok(dispatch) => {
                    action = SubmitAction::Dispatch(dispatch);
                },
                Err(_) => {
                    failure = Some(IoError::Overloaded);
                },
            },
            Ok(SubmissionResult::Timer(duration)) => {
                timer = true;
                action = SubmitAction::StartTimer(duration);
            },
            Err(e) => {
                failure = Some(e);
            },
        }
        let mut waker: Option<Waker> = None;
        let mut completer: Option<u64> = None;
        if let Some(entry) = self.ops.get_mut(user_data) {
            if timer {
                entry.platform_data = PlatformData::Timer;
            }
            if let Some(e) = failure {
                entry.result = Some(Err(e));
                waker = entry.waker.take();
            }
            if entry.result.is_some() {
                if let PlatformData::Detached(c) = entry.platform_data {
                    completer = Some(c);
                }
            }
        }
        if let Some(w) = waker {
            woken.push(w);
        }
        let ghost mid = self.ops@;
        if let Some(completer) = completer {
            let entry = self.ops.remove(user_data);
            let done = entry.result.unwrap();
            let op = entry.resources.unwrap();
            detached.push(DetachedCompletion { completer, result: done, op });
            assert(self.ops@ =~= old(self).ops().after_remove(user_data));
        }
        action
    }

    /// Sets an operation up that nobody waits for, and tells its key and how it is
    /// submitted.
    pub fn submit_background(&mut self, op: IocpOp, overlapped: usize, path: Vec<u16>) -> (setup: (usize, Result<
        Submission,
        IoError,
    >))
        requires
            old(self).wf(),
            old(self).ops().can_insert(),
        ensures
            final(self).wf(),
            setup.0 == old(self).ops().next_key(),
            final(self).has(setup.0),
            final(self).ops() == old(self).ops().after_insert(
                loaded(
                    OpEntry { platform_data: PlatformData::Background, ..new_entry() },
                    setup.0,
                    op,
                    old(self).registered(),
                ),
            ),
            final(self).port() == old(self).port(),
            final(self).registered() == old(self).registered(),
            op.submission(
                old(self).registered(),
                CompletionInfo { port: old(self).port(), user_data: setup.0, overlapped },
                path@,
                setup.1,
            ),
    {
        let (user_data, _) = self.reserve_op();
        if let Some(entry) = self.ops.get_mut(user_data) {
            entry.platform_data = PlatformData::Background;
        }
        let how: Result<Submission, IoError> = match self.submit(user_data, op, overlapped, path) {
            Some(how) => how,
            None => vstd::pervasive::unreached(),
        };
        proof {
            assert(self.ops@.entries =~= old(self).ops().after_insert(
                loaded(
                    OpEntry { platform_data: PlatformData::Background, ..new_entry() },
                    user_data,
                    op,
                    old(self).registered(),
                ),
            ).entries);
        }
        (user_data, how)
    }

    /// Takes in what the submission of an operation that nobody waits for came to.
    /// Where it failed, the operation is forgotten.
    pub fn background_submitted(
        &mut self,
        user_data: usize,
        result: Result<SubmissionResult, IoError>,
        pool: &mut ThreadPool,
    ) -> (done: Result<SubmitAction, IoError>)
        requires
            old(self).wf(),
            old(pool).wf(),
            old(self).has(user_data),
        ensures
            final(self).wf(),
            final(pool).wf(),
            done == (match result {
                Err(e) => Err::<SubmitAction, IoError>(e),
                Ok(SubmissionResult::Offload(_)) => if old(pool).overloaded() {
                    Err(IoError::Overloaded)
                } else {
                    Ok(Self::action_for(result, *old(pool)))
                },
                Ok(_) => Ok(SubmitAction::Nothing),
            }),
            old(pool).executed(
                *final(pool),
                done == Ok::<SubmitAction, IoError>(SubmitAction::Dispatch(Dispatch::Spawn)),
            ),
            final(pool).queue@ == (if done is Ok && done->Ok_0 is Dispatch {
                old(pool).queue@.push(result->Ok_0->Offload_0)
            } else {
                old(pool).queue@
            }),
            final(self).ops() == (if done is Ok {
                old(self).ops()
            } else {
                old(self).ops().after_remove(user_data)
            }),
            final(self).port() == old(self).port(),
            final(self).registered() == old(self).registered(),
    {
        match result {
            Ok(SubmissionResult::Offload(task)) => match pool.execute(task) {
                Ok(dispatch) => Ok(SubmitAction::Dispatch(dispatch)),
                Err(_) => {
                    let gone = self.ops.remove(user_data);
                    Err(IoError::Overloaded)
                },
            },
            Ok(_) => Ok(SubmitAction::Nothing),
            Err(e) => {
                let gone = self.ops.remove(user_data);
                Err(e)
            },
        }
    }

    /// Notes what a thread that may block came to, before the operation is posted.
    pub fn blocking_done(&mut self, user_data: usize, result: Result<usize, IoError>)
        requires
            old(self).wf(),
        ensures
            final(self).wf(),
            if old(self).has(user_data) && old(self).op(user_data).resources is Some {
                let e = old(self).op(user_data);
                let op = e.resources->0;
                old(self).with_op(
                    *final(self),
                    user_data,
                    OpEntry {
                        resources: Some(
                            IocpOp {
                                header: OverlappedEntry { blocking_result: Some(result), ..op.header },
                                ..op
                            },
                        ),
                        ..e
                    },
                )
            } else {
                &&& final(self).ops() == old(self).ops()
                &&& final(self).port() == old(self).port()
                &&& final(self).registered() == old(self).registered()
            },
    {
        if let Some(entry) = self.ops.get_mut(user_data) {
            if let Some(op) = &mut entry.resources {
                op.header.blocking_result = Some(result);
            }
        }
        assert(self.ops@ =~= old(self).ops() || old(self).op(user_data).resources is Some);
    }

    /// Takes in what the port reports of an operation. One that nobody waits for is
    /// forgotten. One that somebody outside the event loop waits for leaves the driver
    /// and is added to `detached`. Any other keeps its result, and whoever waits is
    /// added to `woken`. A report on no operation is passed over.
    pub fn complete(
        &mut self,
        report: &PortReport,
        woken: &mut Vec<Waker>,
        detached: &mut Vec<DetachedCompletion>,
    )
        requires
            old(self).wf(),
            old(self).has(report.user_data) ==> old(self).op(report.user_data).resources is Some,
        ensures
            final(self).wf(),
            final(self).port() == old(self).port(),
            final(self).registered() == old(self).registered(),
            ({
                let key = report.user_data;
                let e = old(self).op(key);
                let result = report.result(e.resources->0);
                let op = report.finished(e.resources->0);
                let plain = old(self).has(key) && (e.platform_data is Plain || e.platform_data is Timer);
                &&& final(self).ops() == (if !old(self).has(key) {
                    old(self).ops()
                } else if plain {
                    SlabModel {
                        entries: old(self).ops().entries.insert(
                            key,
                            OpEntry { result: Some(result), resources: Some(op), waker: None, ..e },
                        ),
                        ..old(self).ops()
                    }
                } else {
                    old(self).ops().after_remove(key)
                })
                &&& final(woken)@ == (if plain && e.waker is Some {
                    old(woken)@.push(e.waker->0)
                } else {
                    old(woken)@
                })
                &&& final(detached)@ == (if old(self).has(key) && e.platform_data is Detached {
                    old(detached)@.push(
                        DetachedCompletion { completer: e.platform_data->Detached_0, result, op },
                    )
                } else {
                    old(detached)@
                })
            }),
    {
        let key: usize = report.user_data;
        let kind: PlatformData = match self.ops.get(key) {
            Some(entry) => entry.platform_data,
            None => {
                return;
            },
        };
        match kind {
            PlatformData::Background => {
                let gone = self.ops.remove(key);
            },
            PlatformData::Detached(completer) => {
                let entry = self.ops.remove(key);
                let mut op: IocpOp = entry.resources.unwrap();
                let result: Result<usize, IoError> = report.apply(&mut op);
                detached.push(DetachedCompletion { completer, result, op });
            },
            PlatformData::Plain | PlatformData::Timer => {
                let mut waker: Option<Waker> = None;
                if let Some(entry) = self.ops.get_mut(key) {
                    if let Some(op) = &mut entry.resources {
                        entry.result = Some(report.apply(op));
                    }
                    waker = entry.waker.take();
                }
                if let Some(w) = waker {
                    woken.push(w);
                }
            },
        }
    }

    /// The result of an operation, if there is one; otherwise `waker` is noted.
    pub fn poll_op(&mut self, user_data: usize, waker: Waker) -> (polled: Poll<(Result<usize, IoError>, IocpOp)>)
        requires
            old(self).wf(),
            old(self).has(user_data),
        ensures
            final(self).wf(),
            final(self).port() == old(self).port(),
            final(self).registered() == old(self).registered(),
            ({
                let e = old(self).op(user_data);
                match e.result {
                    Some(res) => {
                        &&& polled == Poll::Ready((res, e.resources->0))
                        &&& final(self).ops() == old(self).ops().after_remove(user_data)
                    },
                    None => {
                        &&& polled == Poll::<(Result<usize, IoError>, IocpOp)>::Pending
                        &&& old(self).with_op(*final(self), user_data, OpEntry { waker: Some(waker), ..e })
                    },
                }
            }),
    {
        self.ops.poll_op(user_data, waker)
    }
}

} // verus!
