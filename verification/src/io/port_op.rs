//! An operation from its definition to its result, on a completion port.

use crate::error::IoError;
use crate::io::driver::iocp::blocking::{CompletionInfo, Dispatch, ThreadPool};
use crate::io::driver::iocp::driver::{self, DetachedCompletion, IocpDriver, SubmitAction};
use crate::io::driver::iocp::op::IocpOp;
use crate::io::driver::iocp::submit::{Submission, SubmissionResult};
use crate::io::driver::op_registry::OpEntry;
use crate::io::driver::stable_slab::PAGE_SIZE;
use crate::io::driver::platform::IntoPlatformOp;
use crate::io::local_op::State;
use crate::poll::Poll;
use std::task::Waker;
use vstd::prelude::*;

verus! {

/// An operation that the driver has been given, or will be.
pub struct PortOp<T: IntoPlatformOp<IocpOp>> {
    pub state: State,
    pub data: Option<T>,
    pub user_data: usize,
}

impl<T: IntoPlatformOp<IocpOp>> PortOp<T> {
    /// Whether the driver has the operation, and it is one of this kind.
    pub open spec fn held_by(self, driver: IocpDriver) -> bool {
        &&& self.state == State::Submitted
        &&& driver.has(self.user_data)
        &&& driver.op(self.user_data).resources is Some
        &&& T::kind_of(driver.op(self.user_data).resources->0)
    }

    pub fn new(data: T) -> (op: Self)
        ensures
            op == (PortOp { state: State::Defined, data: Some(data), user_data: 0 }),
    {
        PortOp { state: State::Defined, data: Some(data), user_data: 0 }
    }

    /// Gives the operation to the driver, and tells how it is submitted and which page
    /// of slots is new. `path` is what its buffer holds, where it opens a file.
    pub fn start(&mut self, driver: &mut IocpDriver, overlapped: usize, path: Vec<u16>) -> (started: (
        Result<Submission, IoError>,
        Option<usize>,
    ))
        requires
            old(driver).wf(),
            old(driver).ops().can_insert(),
            old(self).state == State::Defined,
            old(self).data is Some,
        ensures
            final(driver).wf(),
            final(driver).port() == old(driver).port(),
            final(driver).registered() == old(driver).registered(),
            *final(self) == (PortOp::<T> {
                state: State::Submitted,
                data: None,
                user_data: old(driver).ops().next_key(),
            }),
            started.1 == (if old(driver).ops().free.len() > 0 {
                None
            } else {
                Some((old(driver).ops().capacity / PAGE_SIZE as nat) as usize)
            }),
            exists|op: IocpOp| #[trigger]
                old(self).data->0.carried_by(op) && final(driver).ops() == old(driver).ops().after_insert(
                    driver::loaded(
                        driver::new_entry(),
                        final(self).user_data,
                        op,
                        old(driver).registered(),
                    ),
                ) && op.submission(
                    old(driver).registered(),
                    CompletionInfo {
                        port: old(driver).port(),
                        user_data: final(self).user_data,
                        overlapped,
                    },
                    path@,
                    started.0,
                ),
    {
        let mut data: Option<T> = None;
        std::mem::swap(&mut data, &mut self.data);
        let data: T = data.unwrap();
        let op: IocpOp = data.into_platform_op();
        let (user_data, page) = driver.reserve_op();
        self.user_data = user_data;
        let how: Result<Submission, IoError> = match driver.submit(user_data, op, overlapped, path) {
            Some(how) => how,
            None => vstd::pervasive::unreached(),
        };
        self.state = State::Submitted;
        proof {
            assert(driver.ops().entries =~= old(driver).ops().after_insert(
                driver::loaded(driver::new_entry(), user_data, op, old(driver).registered()),
            ).entries);
        }
        (how, page)
    }

    /// Takes in what the submission came to, and asks for the operation's result. It is
    /// there at once where the submission failed or the threads take no more work.
    pub fn started(
        &mut self,
        driver: &mut IocpDriver,
        result: Result<SubmissionResult, IoError>,
        pool: &mut ThreadPool,
        waker: Waker,
        woken: &mut Vec<Waker>,
        detached: &mut Vec<DetachedCompletion>,
    ) -> (outcome: (SubmitAction, Poll<(Result<usize, IoError>, T)>))
        requires
            old(driver).wf(),
            old(pool).wf(),
            old(self).held_by(*old(driver)),
            !(old(driver).op(old(self).user_data).platform_data is Detached),
        ensures
            final(driver).wf(),
            final(pool).wf(),
            final(driver).port() == old(driver).port(),
            final(driver).registered() == old(driver).registered(),
            final(detached)@ == old(detached)@,
            outcome.0 == IocpDriver::action_for(result, *old(pool)),
            old(pool).executed(*final(pool), outcome.0 == SubmitAction::Dispatch(Dispatch::Spawn)),
            final(pool).queue@ == (if outcome.0 is Dispatch {
                old(pool).queue@.push(result->Ok_0->Offload_0)
            } else {
                old(pool).queue@
            }),
            ({
                let key = old(self).user_data;
                let e = old(driver).op(key);
                let s = IocpDriver::settled(e, result, old(pool).overloaded());
                let failed = result is Err || (result->Ok_0 is Offload && old(pool).overloaded());
                &&& final(woken)@ == (if failed && e.waker is Some {
                    old(woken)@.push(e.waker->0)
                } else {
                    old(woken)@
                })
                &&& match s.result {
                    Some(res) => {
                        &&& outcome.1 == Poll::Ready((res, T::carried(e.resources->0)))
                        &&& *final(self) == (PortOp::<T> { state: State::Completed, ..*old(self) })
                        &&& final(driver).ops() == old(driver).ops().after_remove(key)
                    },
                    None => {
                        &&& outcome.1 is Pending
                        &&& *final(self) == *old(self)
                        &&& old(driver).with_op(*final(driver), key, OpEntry { waker: Some(waker), ..s })
                    },
                }
            }),
    {
        let action: SubmitAction = driver.submitted(self.user_data, result, pool, woken, detached);
        let polled = self.poll(driver, waker);
        proof {
            let key = old(self).user_data;
            let entries = old(driver).ops().entries;
            let s = IocpDriver::settled(old(driver).op(key), result, old(pool).overloaded());
            assert(entries.insert(key, s).remove(key) =~= entries.remove(key));
            assert(entries.insert(key, s).insert(key, OpEntry { waker: Some(waker), ..s }) =~= entries.insert(
                key,
                OpEntry { waker: Some(waker), ..s },
            ));
        }
        (action, polled)
    }

    /// The operation's result, if there is one; otherwise `waker` is noted.
    pub fn poll(&mut self, driver: &mut IocpDriver, waker: Waker) -> (polled: Poll<(Result<usize, IoError>, T)>)
        requires
            old(driver).wf(),
            old(self).held_by(*old(driver)),
        ensures
            final(driver).wf(),
            final(driver).port() == old(driver).port(),
            final(driver).registered() == old(driver).registered(),
            ({
                let key = old(self).user_data;
                let e = old(driver).op(key);
                match e.result {
                    Some(res) => {
                        &&& polled == Poll::Ready((res, T::carried(e.resources->0)))
                        &&& *final(self) == (PortOp::<T> { state: State::Completed, ..*old(self) })
                        &&& final(driver).ops() == old(driver).ops().after_remove(key)
                    },
                    None => {
                        &&& polled is Pending
                        &&& *final(self) == *old(self)
                        &&& old(driver).with_op(*final(driver), key, OpEntry { waker: Some(waker), ..e })
                    },
                }
            }),
    {
        match driver.poll_op(self.user_data, waker) {
            Poll::Ready((res, op)) => {
                self.state = State::Completed;
                Poll::Ready((res, T::from_platform_op(op)))
            },
            Poll::Pending => Poll::Pending,
        }
    }
}

} // verus!
