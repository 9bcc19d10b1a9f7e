//! Operations that are awaited on another thread than the driver's.

use crate::error::IoError;
use crate::io::driver::op_registry::OpEntry;
use crate::io::driver::platform::IntoPlatformOp;
use crate::io::driver::uring::driver::UringDriver;
use crate::io::driver::uring::model::{DriverModel, RemoteCompletion, UringOpState};
use crate::io::driver::uring::op::UringOp;
use crate::io::local_op::LocalOp;
use crate::io::op::Op;
use crate::poll::Poll;
use vstd::prelude::*;

verus! {

/// The driver with an operation for which somebody on another thread waits.
pub open spec fn submitted_for(m: DriverModel, op: UringOp, completer: u64) -> DriverModel {
    let key = m.ops.next_key();
    let r = m.reserve();
    let e = r.op(key);
    r.with_op(
        key,
        OpEntry {
            platform_data: UringOpState { remote_completer: Some(completer), ..e.platform_data },
            ..e
        },
    ).submit(key, op)
}

impl<T: IntoPlatformOp<UringOp>> Op<T> {
    /// The operation for an event loop of its own thread.
    pub fn submit_local(self) -> (op: LocalOp<T>)
        ensures
            op == (LocalOp {
                state: crate::io::local_op::State::Defined,
                data: Some(self.data),
                user_data: 0,
            }),
    {
        LocalOp::new(self.data)
    }

    /// Gives the operation to a driver, which will answer to `completer`. This is
    /// what runs on the driver's thread.
    pub fn submit_remote(self, driver: &mut UringDriver, completer: u64) -> (user_data: usize)
        requires
            old(driver).wf(),
            old(driver)@.ops.can_insert(),
            self.data.fit(),
        ensures
            final(driver).wf(),
            user_data == old(driver)@.ops.next_key(),
            exists|op: UringOp| #[trigger]
                self.data.carried_by(op) && final(driver)@ == submitted_for(old(driver)@, op, completer),
    {
        let op: UringOp = self.data.into_platform_op();
        let user_data: usize = driver.reserve_op();
        driver.attach_remote_completer(user_data, completer);
        let submitted: Poll<()> = driver.submit(user_data, op);
        user_data
    }
}

/// What is known of an operation that a driver on another thread has.
pub enum RemoteOpFuture<T> {
    /// Nothing yet.
    Waiting,
    /// Its result, and what comes back of it.
    Completed(Result<usize, IoError>, T),
    /// It was taken, or the driver is gone and the operation with it.
    Dropped,
}

impl<T: IntoPlatformOp<UringOp>> RemoteOpFuture<T> {
    pub fn new() -> (future: Self)
        ensures
            future is Waiting,
    {
        RemoteOpFuture::Waiting
    }

    /// Takes the driver's answer.
    pub fn complete(&mut self, completion: RemoteCompletion)
        requires
            T::kind_of(completion.op),
        ensures
            *final(self) == RemoteOpFuture::Completed(completion.result, T::carried(completion.op)),
    {
        let data: T = T::from_platform_op(completion.op);
        *self = RemoteOpFuture::Completed(completion.result, data);
    }

    /// The result and what comes back, once they are there, and then no more.
    pub fn poll(&mut self) -> (polled: Poll<(Result<usize, IoError>, T)>)
        requires
            !(*old(self) is Dropped),
        ensures
            match *old(self) {
                RemoteOpFuture::Completed(result, data) => {
                    &&& polled == Poll::Ready((result, data))
                    &&& *final(self) is Dropped
                },
                _ => polled is Pending && *final(self) == *old(self),
            },
    {
        let mut future: RemoteOpFuture<T> = RemoteOpFuture::Dropped;
        std::mem::swap(&mut future, self);
        match future {
            RemoteOpFuture::Completed(result, data) => Poll::Ready((result, data)),
            RemoteOpFuture::Waiting => {
                *self = RemoteOpFuture::Waiting;
                Poll::Pending
            },
            RemoteOpFuture::Dropped => vstd::pervasive::unreached(),
        }
    }
}

} // verus!
