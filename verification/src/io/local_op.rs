//! An operation from its definition to its result, on one event loop.

use crate::error::IoError;
use crate::io::driver::platform::IntoPlatformOp;
use crate::io::driver::uring::driver::UringDriver;
use crate::io::driver::uring::model::DriverModel;
use crate::io::driver::uring::op::UringOp;
use crate::poll::Poll;
use std::task::Waker;
use vstd::prelude::*;

verus! {

/// How far an operation has come.
#[derive(Debug, Clone, Copy, PartialEq, Eq, Structural)]
pub enum State {
    Defined,
    Submitted,
    Completed,
}

/// An operation that the driver has been given, or will be at the first poll.
pub struct LocalOp<T: IntoPlatformOp<UringOp>> {
    pub state: State,
    pub data: Option<T>,
    pub user_data: usize,
}

impl<T: IntoPlatformOp<UringOp>> LocalOp<T> {
    /// Whether the operation can be polled: it is not over, and the driver has room
    /// for it or has it.
    pub open spec fn can_poll(self, m: DriverModel) -> bool {
        match self.state {
            State::Defined => {
                &&& self.data is Some
                &&& self.data->0.fit()
                &&& m.ops.can_insert()
            },
            State::Submitted => {
                &&& m.has(self.user_data)
                &&& m.waker_token != Some(self.user_data)
                &&& m.poll_result(self.user_data) matches Some((_, op)) ==> T::kind_of(op)
            },
            State::Completed => false,
        }
    }

    pub fn new(data: T) -> (op: Self)
        ensures
            op == (LocalOp { state: State::Defined, data: Some(data), user_data: 0 }),
    {
        LocalOp { state: State::Defined, data: Some(data), user_data: 0 }
    }

    /// Gives the operation to the driver the first time, and asks for its result
    /// each time. Whoever else the driver found ready is added to `woken`.
    pub fn poll(&mut self, driver: &mut UringDriver, waker: Waker, woken: &mut Vec<Waker>) -> (polled: Poll<
        (Result<usize, IoError>, T),
    >)
        requires
            old(driver).wf(),
            old(self).can_poll(old(driver)@),
        ensures
            final(driver).wf(),
            match old(self).state {
                State::Defined => {
                    let key = old(driver)@.ops.next_key();
                    &&& polled is Pending
                    &&& *final(self) == (LocalOp::<T> { state: State::Submitted, data: None, user_data: key })
                    &&& exists|op: UringOp| #[trigger]
                        old(self).data->0.carried_by(op) && final(driver)@ == old(driver)@.reserve().submit(
                            key,
                            op,
                        ).poll(key, waker) && final(woken)@ == old(woken)@ + old(driver)@.reserve().submit(
                            key,
                            op,
                        ).poll_woken(key)
                },
                State::Submitted => {
                    let key = old(self).user_data;
                    &&& final(driver)@ == old(driver)@.poll(key, waker)
                    &&& final(woken)@ == old(woken)@ + old(driver)@.poll_woken(key)
                    &&& match old(driver)@.poll_result(key) {
                        Some((res, op)) => {
                            &&& polled == Poll::Ready((res, T::carried(op)))
                            &&& *final(self) == (LocalOp::<T> { state: State::Completed, ..*old(self) })
                        },
                        None => {
                            &&& polled is Pending
                            &&& *final(self) == *old(self)
                        },
                    }
                },
                State::Completed => true,
            },
    {
        match self.state {
            State::Defined => {
                let mut data: Option<T> = None;
                std::mem::swap(&mut data, &mut self.data);
                let data: T = data.unwrap();
                let driver_op: UringOp = data.into_platform_op();
                let ghost start = driver@;
                proof {
                    driver.lemma_inv();
                }
                let user_data: usize = driver.reserve_op();
                self.user_data = user_data;
                let submitted: Poll<()> = driver.submit(user_data, driver_op);
                self.state = State::Submitted;
                proof {
                    lemma_first_poll(start, driver_op);
                }
                match driver.poll_op(user_data, waker, woken) {
                    Poll::Ready(_) => vstd::pervasive::unreached(),
                    Poll::Pending => Poll::Pending,
                }
            },
            State::Submitted => {
                match driver.poll_op(self.user_data, waker, woken) {
                    Poll::Ready((res, driver_op)) => {
                        self.state = State::Completed;
                        Poll::Ready((res, T::from_platform_op(driver_op)))
                    },
                    Poll::Pending => Poll::Pending,
                }
            },
            State::Completed => vstd::pervasive::unreached(),
        }
    }

    /// Gives the operation up. The driver cancels it if it has it.
    pub fn abandon(self, driver: &mut UringDriver)
        requires
            old(driver).wf(),
        ensures
            final(driver).wf(),
            final(driver)@ == (if self.state == State::Submitted {
                old(driver)@.cancel(self.user_data)
            } else {
                old(driver)@
            }),
    {
        if let State::Submitted = self.state {
            driver.cancel_op(self.user_data);
        }
    }
}

/// An operation has no result yet when it has just been submitted.
proof fn lemma_first_poll(m: DriverModel, op: UringOp)
    requires
        m.inv(),
        !m.has(m.ops.next_key()),
        op.ready(),
    ensures
        ({
            let key = m.ops.next_key();
            let n = m.reserve().submit(key, op);
            &&& n.has(key)
            &&& n.waker_token != Some(key)
            &&& n.poll_result(key) is None
        }),
{
    let key = m.ops.next_key();
    let e = crate::io::driver::uring::model::new_entry(None);
    let r = m.reserve();
    m.lemma_inserted(e);
    let staged = crate::io::driver::op_registry::OpEntry { resources: Some(op), ..r.op(key) };
    r.lemma_with_op(key, staged);
    let w = r.with_op(key, staged);
    w.lemma_dispatch(key);
    let n = r.submit(key, op);
    assert(n == w.dispatch(key));
    if n.room == 0 && !n.op(key).platform_data.submitted {
        n.lemma_flush_backlog();
        n.lemma_flush_progress();
        n.flush_backlog().lemma_flush_cancellations();
        lemma_room_gone(n);
        let last = n.backlog.len() - 1;
        assert(n.backlog[last] == key);
        let f = n.flush_backlog();
        if f.backlog.len() == 0 {
            assert(!n.op(n.backlog[last]).cancelled);
            assert(f.op(n.backlog[last]).platform_data.submitted);
            lemma_no_room_no_submission(n, key);
        } else {
            assert(f.backlog[f.backlog.len() - 1] == key);
            assert(f.waiting(f.backlog.len() - 1));
        }
    }
}

/// Flushing makes no room.
proof fn lemma_room_gone(m: DriverModel)
    ensures
        m.flush_backlog().room <= m.room,
    decreases m.backlog.len(),
{
    if let Some(n) = m.flush_step() {
        lemma_room_gone(n);
    }
}

/// Without room, flushing submits nothing.
proof fn lemma_no_room_no_submission(m: DriverModel, key: usize)
    requires
        m.room == 0,
        m.has(key),
        !m.op(key).platform_data.submitted,
    ensures
        !m.flush_backlog().op(key).platform_data.submitted,
    decreases m.backlog.len(),
{
    if let Some(n) = m.flush_step() {
        lemma_no_room_no_submission(n, key);
    }
}

} // verus!
