//! What a worker shares with the others.

use crate::runtime::mesh;
use crate::sync::deque;
use crate::sync::queue::{BoundedJobQueue, JobQueue};
use std::collections::VecDeque;
use vstd::prelude::*;

verus! {

/// A load counter moved by a number of jobs. Counters start anew after the largest
/// number, and before zero.
pub open spec fn moved(load: usize, by: int) -> usize {
    ((load + by) % (usize::MAX + 1)) as usize
}

/// How a worker is woken, which is known only once its driver is there.
#[derive(Debug, Clone, Copy, PartialEq, Eq, Structural)]
pub struct LateBoundWaker {
    pub handle: Option<usize>,
}

impl LateBoundWaker {
    pub fn new() -> (waker: Self)
        ensures
            waker.handle is None,
    {
        LateBoundWaker { handle: None }
    }

    pub fn set(&mut self, handle: usize)
        ensures
            final(self).handle == Some(handle),
    {
        self.handle = Some(handle);
    }

    /// The driver to wake, if it is known: before that, nobody sleeps.
    pub fn wake(&self) -> (handle: Option<usize>)
        ensures
            handle == self.handle,
    {
        self.handle
    }
}

/// A worker's shared side.
#[verifier::ext_equal]
pub ghost struct SharedModel {
    /// Jobs that any worker may take.
    pub injector: Seq<u64>,
    /// Jobs for this worker alone.
    pub pinned: Seq<u64>,
    /// Its tasks that were woken from elsewhere.
    pub remote: Seq<u64>,
    /// Tasks that any worker may run.
    pub futures: Seq<u64>,
    pub futures_bound: nat,
    /// The queue of its tasks that others may take, where it has one.
    pub stealer: Option<nat>,
    pub waker: Option<usize>,
    pub injected_load: usize,
    pub local_load: usize,
    pub state: u8,
    pub shutdown: bool,
}

impl SharedModel {
    /// A worker that has not started yet.
    pub open spec fn fresh(queue_capacity: nat) -> SharedModel {
        SharedModel {
            injector: Seq::empty(),
            pinned: Seq::empty(),
            remote: Seq::empty(),
            futures: Seq::empty(),
            futures_bound: queue_capacity,
            stealer: None,
            waker: None,
            injected_load: 0,
            local_load: 0,
            state: mesh::RUNNING,
            shutdown: false,
        }
    }

    pub open spec fn scheduled(self, job: u64) -> SharedModel {
        SharedModel {
            injector: self.injector.push(job),
            injected_load: moved(self.injected_load, 1),
            ..self
        }
    }

    pub open spec fn scheduled_pinned(self, job: u64) -> SharedModel {
        SharedModel {
            pinned: self.pinned.push(job),
            injected_load: moved(self.injected_load, 1),
            ..self
        }
    }

    pub open spec fn scheduled_remote(self, task: u64) -> SharedModel {
        SharedModel { remote: self.remote.push(task), ..self }
    }

    pub open spec fn without_pinned(self) -> SharedModel {
        SharedModel {
            pinned: self.pinned.drop_first(),
            injected_load: moved(self.injected_load, -1),
            ..self
        }
    }

    pub open spec fn without_remote(self) -> SharedModel {
        SharedModel { remote: self.remote.drop_first(), ..self }
    }

    pub open spec fn without_injected(self) -> SharedModel {
        SharedModel {
            injector: self.injector.drop_first(),
            injected_load: moved(self.injected_load, -1),
            ..self
        }
    }

    /// With `n` more tasks in the worker's own queue.
    pub open spec fn enqueued(self, n: int) -> SharedModel {
        SharedModel { local_load: moved(self.local_load, n), ..self }
    }

    pub open spec fn with_state(self, state: u8) -> SharedModel {
        SharedModel { state, ..self }
    }

    /// After the worker announced that it may sleep.
    pub open spec fn announced(self) -> SharedModel {
        self.with_state(mesh::PARKING)
    }

    /// Whether the worker may sleep after its last look, with so many jobs from the
    /// mesh: only if there was nothing.
    pub open spec fn may_sleep(self, arrived: nat) -> bool {
        arrived == 0 && !self.has_input()
    }

    /// After the worker's last look, with so many jobs from the mesh.
    pub open spec fn checked(self, arrived: nat) -> SharedModel {
        self.enqueued(arrived as int).with_state(
            if self.may_sleep(arrived) {
                mesh::PARKED
            } else {
                mesh::RUNNING
            },
        )
    }

    /// After the worker went on.
    pub open spec fn resumed(self) -> SharedModel {
        self.with_state(mesh::RUNNING)
    }

    pub open spec fn load(self) -> usize {
        moved(self.injected_load, self.local_load as int)
    }

    /// Whether anything was handed in.
    pub open spec fn has_input(self) -> bool {
        self.pinned.len() > 0 || self.remote.len() > 0 || self.injector.len() > 0
    }

    /// Whether the load of what was handed in is the number of those jobs.
    pub open spec fn counted(self) -> bool {
        self.injected_load == moved(0, (self.injector.len() + self.pinned.len()) as int)
    }
}

proof fn lemma_wraps(load: usize)
    ensures
        load.wrapping_add(1) == moved(load, 1),
        load.wrapping_sub(1) == moved(load, -1),
{
    let r = usize::MAX + 1;
    if load == usize::MAX {
        assert((load + 1) % r == 0) by (nonlinear_arith)
            requires
                load + 1 == r,
                r > 0,
        ;
    } else {
        vstd::arithmetic::div_mod::lemma_small_mod((load + 1) as nat, r as nat);
    }
    if load == 0 {
        vstd::arithmetic::div_mod::lemma_mod_add_multiples_vanish(-1, r);
        vstd::arithmetic::div_mod::lemma_small_mod(usize::MAX as nat, r as nat);
    } else {
        vstd::arithmetic::div_mod::lemma_small_mod((load - 1) as nat, r as nat);
    }
}

proof fn lemma_sum(load: usize, more: usize)
    ensures
        load.wrapping_add(more) == moved(load, more as int),
{
    let r = usize::MAX + 1;
    if load + more < r {
        vstd::arithmetic::div_mod::lemma_small_mod((load + more) as nat, r as nat);
    } else {
        vstd::arithmetic::div_mod::lemma_mod_add_multiples_vanish(load + more - r, r);
        vstd::arithmetic::div_mod::lemma_small_mod((load + more - r) as nat, r as nat);
    }
}

proof fn lemma_moved(load: usize, n: int, by: int)
    requires
        load == moved(0, n),
    ensures
        moved(load, by) == moved(0, n + by),
{
    let r = usize::MAX + 1;
    vstd::arithmetic::div_mod::lemma_add_mod_noop(n, by, r);
    vstd::arithmetic::div_mod::lemma_add_mod_noop(load as int, by, r);
    vstd::arithmetic::div_mod::lemma_mod_twice(n, r);
}

/// The load that spawners compare counts the jobs that were handed in and not yet
/// taken: every way in and out keeps it so.
pub proof fn lemma_load_counts_jobs(shared: SharedModel, job: u64)
    requires
        shared.counted(),
    ensures
        forall|bound: nat| (#[trigger] SharedModel::fresh(bound)).counted(),
        shared.scheduled(job).counted(),
        shared.scheduled_pinned(job).counted(),
        shared.scheduled_remote(job).counted(),
        shared.remote.len() > 0 ==> shared.without_remote().counted(),
        shared.pinned.len() > 0 ==> shared.without_pinned().counted(),
        shared.injector.len() > 0 ==> shared.without_injected().counted(),
{
    let n = (shared.injector.len() + shared.pinned.len()) as int;
    lemma_moved(shared.injected_load, n, 1);
    lemma_moved(shared.injected_load, n, -1);
}

/// What a worker shares with the others.
pub struct ExecutorShared {
    injector: JobQueue,
    pinned: JobQueue,
    remote_queue: VecDeque<u64>,
    future_injector: BoundedJobQueue,
    stealer: Option<crossbeam_deque::Stealer<u64>>,
    waker: LateBoundWaker,
    injected_load: usize,
    local_load: usize,
    state: u8,
    shutdown: bool,
}

impl ExecutorShared {
    pub closed spec fn view(self) -> SharedModel {
        SharedModel {
            injector: self.injector@,
            pinned: self.pinned@,
            remote: self.remote_queue@,
            futures: self.future_injector@,
            futures_bound: self.future_injector.bound(),
            stealer: match self.stealer {
                Some(stealer) => Some(deque::stealer_queue(stealer)),
                None => None,
            },
            waker: self.waker.handle,
            injected_load: self.injected_load,
            local_load: self.local_load,
            state: self.state,
            shutdown: self.shutdown,
        }
    }

    pub fn new(queue_capacity: usize) -> (shared: Self)
        requires
            0 < queue_capacity <= isize::MAX / 16,
        ensures
            shared@ == SharedModel::fresh(queue_capacity as nat),
    {
        ExecutorShared {
            injector: JobQueue::new(),
            pinned: JobQueue::new(),
            remote_queue: VecDeque::new(),
            future_injector: BoundedJobQueue::new(queue_capacity),
            stealer: None,
            waker: LateBoundWaker::new(),
            injected_load: 0,
            local_load: 0,
            state: mesh::RUNNING,
            shutdown: false,
        }
    }

    /// Lets the others take from a queue.
    pub fn set_stealer(&mut self, stealer: crossbeam_deque::Stealer<u64>)
        ensures
            final(self)@ == (SharedModel { stealer: Some(deque::stealer_queue(stealer)), ..old(self)@ }),
    {
        self.stealer = Some(stealer);
    }

    /// The others' end of the queue that they may take from.
    pub fn stealer(&self) -> (stealer: Option<&crossbeam_deque::Stealer<u64>>)
        ensures
            match stealer {
                Some(s) => self@.stealer == Some(deque::stealer_queue(*s)),
                None => self@.stealer is None,
            },
    {
        self.stealer.as_ref()
    }

    /// Makes the worker's driver known.
    pub fn set_waker(&mut self, handle: usize)
        ensures
            final(self)@ == (SharedModel { waker: Some(handle), ..old(self)@ }),
    {
        self.waker.set(handle);
    }

    /// Hands in a job that any worker may take. Gives the driver to wake.
    pub fn schedule(&mut self, job: u64) -> (wake: Option<usize>)
        ensures
            final(self)@ == old(self)@.scheduled(job),
            wake == old(self)@.waker,
    {
        self.injector.push(job);
        proof {
            lemma_wraps(self.injected_load);
        }
        self.injected_load = self.injected_load.wrapping_add(1);
        self.waker.wake()
    }

    /// Hands in a job for this worker alone. Gives the driver to wake.
    pub fn schedule_pinned(&mut self, job: u64) -> (wake: Option<usize>)
        ensures
            final(self)@ == old(self)@.scheduled_pinned(job),
            wake == old(self)@.waker,
    {
        self.pinned.push(job);
        proof {
            lemma_wraps(self.injected_load);
        }
        self.injected_load = self.injected_load.wrapping_add(1);
        self.waker.wake()
    }

    /// Hands in one of the worker's tasks that was woken from elsewhere. Gives the
    /// driver to wake.
    pub fn schedule_remote(&mut self, task: u64) -> (wake: Option<usize>)
        ensures
            final(self)@ == old(self)@.scheduled_remote(task),
            wake == old(self)@.waker,
    {
        self.remote_queue.push_back(task);
        self.waker.wake()
    }

    /// Hands in a task that any worker may run, if there is room. Gives the driver
    /// to wake, or the task back.
    pub fn schedule_future(&mut self, task: u64) -> (wake: Result<Option<usize>, u64>)
        ensures
            if old(self)@.futures.len() < old(self)@.futures_bound {
                &&& final(self)@ == (SharedModel { futures: old(self)@.futures.push(task), ..old(self)@ })
                &&& wake == Ok::<Option<usize>, u64>(old(self)@.waker)
            } else {
                &&& final(self)@ == old(self)@
                &&& wake == Err::<Option<usize>, u64>(task)
            },
    {
        match self.future_injector.push(task) {
            Ok(_) => Ok(self.waker.wake()),
            Err(task) => Err(task),
        }
    }

    /// Takes a task that any worker may run.
    pub fn take_future(&mut self) -> (task: Option<u64>)
        ensures
            if old(self)@.futures.len() > 0 {
                &&& task == Some(old(self)@.futures[0])
                &&& final(self)@ == (SharedModel {
                    futures: old(self)@.futures.drop_first(),
                    ..old(self)@
                })
            } else {
                &&& task is None
                &&& final(self)@ == old(self)@
            },
    {
        self.future_injector.pop()
    }

    /// Takes a job for this worker alone.
    pub fn take_pinned(&mut self) -> (job: Option<u64>)
        ensures
            if old(self)@.pinned.len() > 0 {
                &&& job == Some(old(self)@.pinned[0])
                &&& final(self)@ == old(self)@.without_pinned()
            } else {
                &&& job is None
                &&& final(self)@ == old(self)@
            },
    {
        let job: Option<u64> = self.pinned.pop();
        if job.is_some() {
            proof {
                lemma_wraps(self.injected_load);
            }
            self.injected_load = self.injected_load.wrapping_sub(1);
        }
        job
    }

    /// Takes a task that was woken from elsewhere.
    pub fn take_remote(&mut self) -> (task: Option<u64>)
        ensures
            if old(self)@.remote.len() > 0 {
                &&& task == Some(old(self)@.remote[0])
                &&& final(self)@ == old(self)@.without_remote()
            } else {
                &&& task is None
                &&& final(self)@ == old(self)@
            },
    {
        let task: Option<u64> = self.remote_queue.pop_front();
        assert(old(self)@.remote.len() > 0 ==> self.remote_queue@ =~= old(self)@.remote.drop_first());
        task
    }

    /// Takes a job that any worker may take.
    pub fn take_injected(&mut self) -> (job: Option<u64>)
        ensures
            if old(self)@.injector.len() > 0 {
                &&& job == Some(old(self)@.injector[0])
                &&& final(self)@ == old(self)@.without_injected()
            } else {
                &&& job is None
                &&& final(self)@ == old(self)@
            },
    {
        let job: Option<u64> = self.injector.pop();
        if job.is_some() {
            proof {
                lemma_wraps(self.injected_load);
            }
            self.injected_load = self.injected_load.wrapping_sub(1);
        }
        job
    }

    /// Whether anything was handed in.
    pub fn has_input(&mut self) -> (input: bool)
        ensures
            final(self)@ == old(self)@,
            input == old(self)@.has_input(),
    {
        let no_pinned: bool = self.pinned.is_empty();
        let no_jobs: bool = self.injector.is_empty();
        !no_pinned || self.remote_queue.len() > 0 || !no_jobs
    }

    /// Counts a task that the worker takes into its own queue.
    pub fn count_enqueued(&mut self)
        ensures
            final(self)@ == old(self)@.enqueued(1),
    {
        proof {
            lemma_wraps(self.local_load);
        }
        self.local_load = self.local_load.wrapping_add(1);
    }

    /// Counts a task that the worker takes off its own queue.
    pub fn count_dequeued(&mut self)
        ensures
            final(self)@ == old(self)@.enqueued(-1),
    {
        proof {
            lemma_wraps(self.local_load);
        }
        self.local_load = self.local_load.wrapping_sub(1);
    }

    /// How busy the worker is: what was handed in, and its own tasks.
    pub fn total_load(&self) -> (load: usize)
        ensures
            load == self@.load(),
    {
        proof {
            lemma_sum(self.injected_load, self.local_load);
        }
        self.injected_load.wrapping_add(self.local_load)
    }

    pub fn state(&self) -> (state: u8)
        ensures
            state == self@.state,
    {
        self.state
    }

    pub fn set_state(&mut self, state: u8)
        ensures
            final(self)@ == old(self)@.with_state(state),
    {
        self.state = state;
    }

    /// Tells the worker to stop. Gives the driver to wake.
    pub fn shut_down(&mut self) -> (wake: Option<usize>)
        ensures
            final(self)@ == (SharedModel { shutdown: true, ..old(self)@ }),
            wake == old(self)@.waker,
    {
        self.shutdown = true;
        self.waker.wake()
    }

    pub fn is_shut_down(&self) -> (shutdown: bool)
        ensures
            shutdown == self@.shutdown,
    {
        self.shutdown
    }
}

} // verus!
