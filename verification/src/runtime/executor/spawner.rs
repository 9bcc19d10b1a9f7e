//! Which worker a job goes to.

use crate::runtime::executor::shared::{ExecutorShared, SharedModel};
use crate::runtime::mesh::{self, MeshContext, Network};
use vstd::prelude::*;

verus! {

/// The number of a worker that belongs to no mesh.
pub const NO_ID: usize = usize::MAX;

/// A worker as the others see it.
#[verifier::ext_equal]
pub ghost struct HandleModel {
    pub id: usize,
    pub shared: SharedModel,
}

/// A worker as the others see it.
pub struct ExecutorHandle {
    pub id: usize,
    pub shared: ExecutorShared,
}

impl ExecutorHandle {
    pub open spec fn view(self) -> HandleModel {
        HandleModel { id: self.id, shared: self.shared@ }
    }

    /// Hands in a job that any worker may take. Gives the driver to wake.
    pub fn schedule(&mut self, job: u64) -> (wake: Option<usize>)
        ensures
            final(self)@ == (HandleModel { shared: old(self)@.shared.scheduled(job), ..old(self)@ }),
            wake == old(self)@.shared.waker,
    {
        self.shared.schedule(job)
    }

    /// Hands in a job for this worker alone. Gives the driver to wake.
    pub fn schedule_pinned(&mut self, job: u64) -> (wake: Option<usize>)
        ensures
            final(self)@ == (HandleModel {
                shared: old(self)@.shared.scheduled_pinned(job),
                ..old(self)@
            }),
            wake == old(self)@.shared.waker,
    {
        self.shared.schedule_pinned(job)
    }

    pub fn total_load(&self) -> (load: usize)
        ensures
            load == self@.shared.load(),
    {
        self.shared.total_load()
    }

    pub fn id(&self) -> (id: usize)
        ensures
            id == self@.id,
    {
        self.id
    }
}

/// All workers.
pub struct ExecutorRegistry {
    pub handles: Vec<ExecutorHandle>,
}

/// The place that lies `i` after `start`, in a ring of `count`.
pub open spec fn around(start: int, i: int, count: int) -> int {
    (start + i) % count
}

/// Whose job a worker takes, of those from the `i`-th place on: the first other one
/// that has any.
pub open spec fn victim(workers: Seq<HandleModel>, me: usize, start: int, i: int) -> Option<int>
    decreases workers.len() - i,
{
    if i >= workers.len() {
        None
    } else {
        let idx = around(start, i, workers.len() as int);
        if idx != me && workers[idx].shared.injector.len() > 0 {
            Some(idx)
        } else {
            victim(workers, me, start, i + 1)
        }
    }
}

/// The one of two workers with the smaller load, the first where they are equal.
pub open spec fn lighter(workers: Seq<HandleModel>, i: int, j: int) -> int {
    if workers[i].shared.load() <= workers[j].shared.load() {
        i
    } else {
        j
    }
}

/// With another shared side of one worker.
pub open spec fn with_shared(workers: Seq<HandleModel>, i: int, shared: SharedModel) -> Seq<HandleModel> {
    workers.update(i, HandleModel { shared, ..workers[i] })
}

impl ExecutorRegistry {
    pub open spec fn view(self) -> Seq<HandleModel> {
        Seq::new(self.handles@.len(), |i: int| self.handles@[i]@)
    }

    pub fn new(handles: Vec<ExecutorHandle>) -> (registry: Self)
        ensures
            registry.handles@ == handles@,
    {
        ExecutorRegistry { handles }
    }

    pub fn all(&self) -> (handles: &Vec<ExecutorHandle>)
        ensures
            handles@ == self.handles@,
    {
        &self.handles
    }

    /// Hands in a job to a worker. Gives the driver to wake.
    pub fn schedule(&mut self, worker: usize, job: u64) -> (wake: Option<usize>)
        requires
            worker < old(self)@.len(),
        ensures
            final(self)@ == with_shared(
                old(self)@,
                worker as int,
                old(self)@[worker as int].shared.scheduled(job),
            ),
            wake == old(self)@[worker as int].shared.waker,
    {
        let wake: Option<usize> = self.handles[worker].schedule(job);
        assert(self@ =~= with_shared(
            old(self)@,
            worker as int,
            old(self)@[worker as int].shared.scheduled(job),
        ));
        wake
    }

    /// Takes a job that was handed in to another worker than `me`, looking round from
    /// `start`.
    pub fn steal(&mut self, me: usize, start: usize) -> (job: Option<u64>)
        ensures
            match victim(old(self)@, me, start as int, 0) {
                Some(v) => {
                    &&& 0 <= v < old(self)@.len()
                    &&& v != me
                    &&& old(self)@[v].shared.injector.len() > 0
                    &&& job == Some(old(self)@[v].shared.injector[0])
                    &&& final(self)@ == with_shared(
                        old(self)@,
                        v,
                        old(self)@[v].shared.without_injected(),
                    )
                },
                None => job is None && final(self)@ == old(self)@,
            },
    {
        let count: usize = self.handles.len();
        let ghost workers = self@;
        let mut i: usize = 0;
        while i < count
            invariant
                i <= count,
                count == self.handles@.len(),
                workers == old(self)@,
                self@ == workers,
                victim(workers, me, start as int, 0) == victim(workers, me, start as int, i as int),
            decreases count - i,
        {
            let first: usize = start % count;
            let idx: usize = if first >= count - i {
                first - (count - i)
            } else {
                first + i
            };
            proof {
                vstd::arithmetic::div_mod::lemma_add_mod_noop(start as int, i as int, count as int);
                vstd::arithmetic::div_mod::lemma_small_mod(i as nat, count as nat);
                if first >= count - i {
                    vstd::arithmetic::div_mod::lemma_mod_add_multiples_vanish(idx as int, count as int);
                }
                vstd::arithmetic::div_mod::lemma_small_mod(idx as nat, count as nat);
                assert(around(start as int, i as int, count as int) == idx);
                assert(workers[idx as int] == self.handles@[idx as int]@);
            }
            if idx != me {
                let job: Option<u64> = self.handles[idx].shared.take_injected();
                if job.is_some() {
                    assert(self@ =~= with_shared(
                        workers,
                        idx as int,
                        workers[idx as int].shared.without_injected(),
                    ));
                    return job;
                }
                assert(self@ =~= workers);
            }
            i += 1;
        }
        None
    }

    /// Tells all workers to stop. Gives the drivers to wake, in order.
    pub fn shut_down(&mut self) -> (wakes: Vec<usize>)
        ensures
            final(self)@ == Seq::new(
                old(self)@.len(),
                |i: int|
                    HandleModel {
                        shared: SharedModel { shutdown: true, ..old(self)@[i].shared },
                        ..old(self)@[i]
                    },
            ),
            wakes@ == drivers(old(self)@),
    {
        let mut wakes: Vec<usize> = Vec::new();
        let mut i: usize = 0;
        let ghost before = self@;
        assert(drivers(before.take(0)) =~= Seq::<usize>::empty());
        while i < self.handles.len()
            invariant
                i <= self.handles@.len(),
                before == old(self)@,
                self.handles@.len() == before.len(),
                forall|j: int|
                    0 <= j < i ==> #[trigger] self.handles@[j]@ == (HandleModel {
                        shared: SharedModel { shutdown: true, ..before[j].shared },
                        ..before[j]
                    }),
                forall|j: int| i <= j < before.len() ==> #[trigger] self.handles@[j]@ == before[j],
                wakes@ == drivers(before.take(i as int)),
            decreases self.handles@.len() - i,
        {
            assert(self.handles@[i as int]@ == before[i as int]);
            let wake: Option<usize> = self.handles[i].shared.shut_down();
            assert(before.take(i + 1).drop_last() =~= before.take(i as int));
            if let Some(handle) = wake {
                wakes.push(handle);
            }
            i += 1;
        }
        assert(before.take(before.len() as int) =~= before);
        assert(self@ =~= Seq::new(
            before.len(),
            |i: int|
                HandleModel {
                    shared: SharedModel { shutdown: true, ..before[i].shared },
                    ..before[i]
                },
        ));
        wakes
    }
}

impl Default for ExecutorRegistry {
    fn default() -> (registry: Self)
        ensures
            registry.handles@.len() == 0,
    {
        ExecutorRegistry { handles: Vec::new() }
    }
}

/// The drivers of those workers that have one by now.
pub open spec fn drivers(workers: Seq<HandleModel>) -> Seq<usize>
    decreases workers.len(),
{
    if workers.len() == 0 {
        Seq::empty()
    } else {
        match workers.last().shared.waker {
            Some(handle) => drivers(workers.drop_last()).push(handle),
            None => drivers(workers.drop_last()),
        }
    }
}

/// A seed after one step of Marsaglia's generator.
pub open spec fn xorshift(seed: u64) -> u64 {
    let a = seed ^ (seed << 13u64);
    let b = a ^ (a >> 17u64);
    b ^ (b << 5u64)
}

/// The generator never runs dry: a seed other than zero stays so.
pub proof fn lemma_seed_stays_nonzero(seed: u64)
    requires
        seed != 0,
    ensures
        xorshift(seed) != 0,
{
    assert(forall|x: u64| x != 0 ==> #[trigger] (x ^ (x << 13u64)) != 0) by (bit_vector);
    assert(forall|x: u64| x != 0 ==> #[trigger] (x ^ (x >> 17u64)) != 0) by (bit_vector);
    assert(forall|x: u64| x != 0 ==> #[trigger] (x ^ (x << 5u64)) != 0) by (bit_vector);
}

/// How a job was delivered.
#[derive(Debug, Clone, Copy, PartialEq, Eq, Structural)]
pub enum Delivery {
    /// Through the mesh. The handle is to be notified, if there is one.
    Mesh(Option<usize>),
    /// Into a worker's queue. The driver is to be woken, if it is known.
    Injected(Option<usize>),
}

/// Picks workers for jobs.
pub struct Spawner {
    pub seed: u64,
}

impl Spawner {
    pub fn new(seed: u64) -> (spawner: Self)
        ensures
            spawner.seed == seed,
    {
        Spawner { seed }
    }

    /// The worker that comes next: the lighter of two that the seed picks.
    pub open spec fn choice(seed: u64, workers: Seq<HandleModel>) -> int {
        let n = workers.len();
        lighter(workers, (seed % n as u64) as int, ((seed >> 32u64) % n as u64) as int)
    }

    /// Picks a worker, if there is any: the lighter of two at random.
    pub fn p2c_select(&mut self, registry: &ExecutorRegistry) -> (worker: Option<usize>)
        ensures
            if registry@.len() == 0 {
                worker is None && *final(self) == *old(self)
            } else {
                &&& final(self).seed == xorshift(old(self).seed)
                &&& worker matches Some(w)
                &&& w == Spawner::choice(final(self).seed, registry@)
                &&& w < registry@.len()
            },
            ({
                let a = old(self).seed ^ (old(self).seed << 13u64);
                let b = a ^ (a >> 17u64);
                registry@.len() > 0 ==> final(self).seed == b ^ (b << 5u64)
            }),
            worker matches Some(w) ==> {
                let n = registry@.len() as int;
                let (i, j) = (final(self).seed as int % n, final(self).seed as int / 0x1_0000_0000 % n);
                &&& w == i || w == j
                &&& registry@[w as int].shared.load() <= registry@[i].shared.load()
                &&& registry@[w as int].shared.load() <= registry@[j].shared.load()
            },
    {
        let count: usize = registry.handles.len();
        if count == 0 {
            return None;
        }
        let mut seed: u64 = self.seed;
        seed = seed ^ (seed << 13u64);
        seed = seed ^ (seed >> 17u64);
        seed = seed ^ (seed << 5u64);
        self.seed = seed;
        let idx1: usize = (seed % (count as u64)) as usize;
        let idx2: usize = ((seed >> 32u64) % (count as u64)) as usize;
        assert(registry@[idx1 as int] == registry.handles@[idx1 as int]@);
        assert(registry@[idx2 as int] == registry.handles@[idx2 as int]@);
        proof {
            crate::runtime::executor::laws::lemma_choice_is_no_busier(seed, registry@);
        }
        let load1: usize = registry.handles[idx1].total_load();
        let load2: usize = registry.handles[idx2].total_load();
        if load1 <= load2 {
            Some(idx1)
        } else {
            Some(idx2)
        }
    }

    /// Hands a job to a worker of the spawner's choice. The job comes back where
    /// there is no worker.
    pub fn spawn_job(&mut self, registry: &mut ExecutorRegistry, job: u64) -> (spawned: Result<
        Option<usize>,
        u64,
    >)
        ensures
            if old(registry)@.len() == 0 {
                &&& spawned == Err::<Option<usize>, u64>(job)
                &&& final(registry)@ == old(registry)@
                &&& *final(self) == *old(self)
            } else {
                let w = Spawner::choice(xorshift(old(self).seed), old(registry)@);
                &&& final(self).seed == xorshift(old(self).seed)
                &&& 0 <= w < old(registry)@.len()
                &&& final(registry)@ == with_shared(
                    old(registry)@,
                    w,
                    old(registry)@[w].shared.scheduled(job),
                )
                &&& spawned == Ok::<Option<usize>, u64>(old(registry)@[w].shared.waker)
            },
            old(registry)@.len() > 0 ==> {
                let n = old(registry)@.len() as int;
                let (i, j) = (final(self).seed as int % n, final(self).seed as int / 0x1_0000_0000 % n);
                exists|w: int|
                    0 <= w < n && (w == i || w == j) && old(registry)@[w].shared.load() <= old(
                        registry,
                    )@[i].shared.load() && old(registry)@[w].shared.load() <= old(registry)@[j].shared.load()
                        && #[trigger] final(registry)@[w].shared.injector == old(
                        registry,
                    )@[w].shared.injector.push(job)
            },
    {
        match self.p2c_select(registry) {
            None => Err(job),
            Some(worker) => {
                let wake: Option<usize> = registry.schedule(worker, job);
                assert(registry@[worker as int].shared.injector == old(
                    registry,
                )@[worker as int].shared.injector.push(job));
                Ok(wake)
            },
        }
    }

    /// Sends a job through the mesh to a worker of the spawner's choice, or hands it
    /// in where the mesh does not take it. The job comes back where there is no
    /// worker.
    pub fn spawn_with_mesh(
        &mut self,
        registry: &mut ExecutorRegistry,
        net: &mut Network,
        mesh: &mut MeshContext,
        job: u64,
    ) -> (spawned: Result<Delivery, u64>)
        requires
            old(net).carries(*old(mesh)),
        ensures
            final(net).carries(*final(mesh)),
            final(mesh).id == old(mesh).id,
            final(mesh).ingress@ == old(mesh).ingress@,
            final(mesh).egress@.len() == old(mesh).egress@.len(),
            if old(registry)@.len() == 0 {
                &&& spawned == Err::<Delivery, u64>(job)
                &&& final(registry)@ == old(registry)@
                &&& *final(self) == *old(self)
                &&& *final(net) == *old(net)
                &&& *final(mesh) == *old(mesh)
            } else {
                let w = Spawner::choice(xorshift(old(self).seed), old(registry)@);
                &&& final(self).seed == xorshift(old(self).seed)
                &&& 0 <= w < old(registry)@.len()
                &&& delivers(*old(registry), *final(registry), *old(net), *final(net), *old(mesh), w, job, spawned)
            },
    {
        match self.p2c_select(registry) {
            None => Err(job),
            Some(worker) => Ok(deliver(registry, net, mesh, worker, job)),
        }
    }

    /// Hands a job to a given worker alone. The job comes back where there is no such
    /// worker.
    pub fn spawn_job_to(&self, registry: &mut ExecutorRegistry, job: u64, worker_id: usize) -> (spawned: Result<
        Option<usize>,
        u64,
    >)
        ensures
            if worker_id < old(registry)@.len() {
                &&& final(registry)@ == with_shared(
                    old(registry)@,
                    worker_id as int,
                    old(registry)@[worker_id as int].shared.scheduled_pinned(job),
                )
                &&& spawned == Ok::<Option<usize>, u64>(old(registry)@[worker_id as int].shared.waker)
            } else {
                &&& final(registry)@ == old(registry)@
                &&& spawned == Err::<Option<usize>, u64>(job)
            },
    {
        if worker_id < registry.handles.len() {
            let wake: Option<usize> = registry.handles[worker_id].schedule_pinned(job);
            assert(registry@ =~= with_shared(
                old(registry)@,
                worker_id as int,
                old(registry)@[worker_id as int].shared.scheduled_pinned(job),
            ));
            Ok(wake)
        } else {
            Err(job)
        }
    }

    /// Sends a job through the mesh to a given worker, or hands it in for that worker
    /// alone where the mesh does not take it. The job comes back where there is no
    /// such worker.
    pub fn spawn_to_with_mesh(
        &self,
        registry: &mut ExecutorRegistry,
        net: &mut Network,
        mesh: &mut MeshContext,
        job: u64,
        worker_id: usize,
    ) -> (spawned: Result<Delivery, u64>)
        requires
            old(net).carries(*old(mesh)),
        ensures
            final(net).carries(*final(mesh)),
            final(mesh).id == old(mesh).id,
            final(mesh).ingress@ == old(mesh).ingress@,
            final(mesh).egress@.len() == old(mesh).egress@.len(),
            delivers_to(
                *old(registry),
                *final(registry),
                *old(net),
                *final(net),
                *old(mesh),
                worker_id,
                job,
                spawned,
            ),
    {
        let state: u8 = if worker_id < registry.handles.len() {
            assert(registry@[worker_id as int] == registry.handles@[worker_id as int]@);
            registry.handles[worker_id].shared.state()
        } else {
            mesh::RUNNING
        };
        match net.send(mesh, worker_id, job, state) {
            Ok(notify) => Ok(Delivery::Mesh(notify)),
            Err(job) => match self.spawn_job_to(registry, job, worker_id) {
                Ok(wake) => Ok(Delivery::Injected(wake)),
                Err(job) => Err(job),
            },
        }
    }
}

/// The handle to notify of a job for a worker in this state.
pub open spec fn to_notify(state: u8, handle: usize) -> Option<usize> {
    if mesh::must_notify(state) && handle != 0 {
        Some(handle)
    } else {
        None
    }
}

/// A worker's state as the mesh sees it.
pub open spec fn state_at(workers: Seq<HandleModel>, id: usize) -> u8 {
    if id < workers.len() {
        workers[id as int].shared.state
    } else {
        mesh::RUNNING
    }
}

/// Whether a job reached a worker: through the mesh, if the worker belongs to it and
/// there is room, else as one that any worker may take.
pub open spec fn delivers(
    registry: ExecutorRegistry,
    registry_after: ExecutorRegistry,
    net: Network,
    net_after: Network,
    mesh: MeshContext,
    worker: int,
    job: u64,
    spawned: Result<Delivery, u64>,
) -> bool {
    let id = registry@[worker].id;
    if id != NO_ID && net.has_room(mesh, id) {
        &&& net_after.delivered(net, mesh.id as int, id as int, job)
        &&& registry_after@ == registry@
        &&& spawned == Ok::<Delivery, u64>(
            Delivery::Mesh(to_notify(state_at(registry@, id), net.peer_handles@[id as int])),
        )
    } else {
        &&& net_after.same(net, mesh.id as int, id as int)
        &&& registry_after@ == with_shared(registry@, worker, registry@[worker].shared.scheduled(job))
        &&& spawned == Ok::<Delivery, u64>(Delivery::Injected(registry@[worker].shared.waker))
    }
}

/// Whether a job reached a given worker: through the mesh, if there is room, else as
/// one for this worker alone. Without such a worker it came back.
pub open spec fn delivers_to(
    registry: ExecutorRegistry,
    registry_after: ExecutorRegistry,
    net: Network,
    net_after: Network,
    mesh: MeshContext,
    worker_id: usize,
    job: u64,
    spawned: Result<Delivery, u64>,
) -> bool {
    if net.has_room(mesh, worker_id) {
        &&& net_after.delivered(net, mesh.id as int, worker_id as int, job)
        &&& registry_after@ == registry@
        &&& spawned == Ok::<Delivery, u64>(
            Delivery::Mesh(
                to_notify(state_at(registry@, worker_id), net.peer_handles@[worker_id as int]),
            ),
        )
    } else {
        &&& net_after.same(net, mesh.id as int, worker_id as int)
        &&& if worker_id < registry@.len() {
            &&& registry_after@ == with_shared(
                registry@,
                worker_id as int,
                registry@[worker_id as int].shared.scheduled_pinned(job),
            )
            &&& spawned == Ok::<Delivery, u64>(
                Delivery::Injected(registry@[worker_id as int].shared.waker),
            )
        } else {
            &&& registry_after@ == registry@
            &&& spawned == Err::<Delivery, u64>(job)
        }
    }
}

/// Sends a job through the mesh to a worker, or hands it in where the mesh does not
/// take it.
pub fn deliver(
    registry: &mut ExecutorRegistry,
    net: &mut Network,
    mesh: &mut MeshContext,
    worker: usize,
    job: u64,
) -> (delivery: Delivery)
    requires
        old(net).carries(*old(mesh)),
        worker < old(registry)@.len(),
    ensures
        final(net).carries(*final(mesh)),
        final(mesh).id == old(mesh).id,
        final(mesh).ingress@ == old(mesh).ingress@,
        final(mesh).egress@.len() == old(mesh).egress@.len(),
        delivers(
            *old(registry),
            *final(registry),
            *old(net),
            *final(net),
            *old(mesh),
            worker as int,
            job,
            Ok(delivery),
        ),
{
    assert(registry@[worker as int] == registry.handles@[worker as int]@);
    let id: usize = registry.handles[worker].id();
    if id != NO_ID {
        let state: u8 = if id < registry.handles.len() {
            assert(registry@[id as int] == registry.handles@[id as int]@);
            registry.handles[id].shared.state()
        } else {
            mesh::RUNNING
        };
        match net.send(mesh, id, job, state) {
            Ok(notify) => Delivery::Mesh(notify),
            Err(job) => Delivery::Injected(registry.schedule(worker, job)),
        }
    } else {
        Delivery::Injected(registry.schedule(worker, job))
    }
}

} // verus!
