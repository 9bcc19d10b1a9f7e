//! What a running task may ask of its worker.

use crate::poll::Poll;
use crate::runtime::executor::spawner::{self, Delivery, ExecutorRegistry, Spawner, NO_ID};
use crate::runtime::mesh::{MeshContext, Network};
use std::collections::VecDeque;
use vstd::prelude::*;

verus! {

/// A future that lets other tasks run once.
#[derive(Debug, Clone, Copy, PartialEq, Eq, Structural)]
pub struct YieldNow {
    pub yielded: bool,
}

/// Lets other tasks run.
pub fn yield_now() -> (future: YieldNow)
    ensures
        !future.yielded,
{
    YieldNow { yielded: false }
}

impl YieldNow {
    /// Pending the first time, when the caller has to wake its task so that it is
    /// polled again. Ready from then on.
    pub fn poll(&mut self) -> (polled: Poll<()>)
        ensures
            final(self).yielded,
            polled == (if old(self).yielded {
                Poll::Ready(())
            } else {
                Poll::<()>::Pending
            }),
    {
        if self.yielded {
            Poll::Ready(())
        } else {
            self.yielded = true;
            Poll::Pending
        }
    }
}

/// The thread has a buffer pool already.
#[derive(Debug, Clone, Copy, PartialEq, Eq, Structural)]
pub struct PoolAlreadyBound;

impl PoolAlreadyBound {
    pub fn message(&self) -> (text: &'static str)
        ensures
            text@ == "Buffer pool already bound for this thread"@,
    {
        "Buffer pool already bound for this thread"
    }
}

/// A thread's buffer pool, which is bound once.
pub struct PoolSlot<P> {
    pub pool: Option<P>,
}

impl<P> PoolSlot<P> {
    pub fn new() -> (slot: Self)
        ensures
            slot.pool is None,
    {
        PoolSlot { pool: None }
    }

    /// Binds a pool, unless there is one already: that one stays.
    pub fn try_bind_pool(&mut self, pool: P) -> (bound: Result<(), PoolAlreadyBound>)
        ensures
            bound is Ok <==> old(self).pool is None,
            final(self).pool == (if old(self).pool is None {
                Some(pool)
            } else {
                old(self).pool
            }),
    {
        if self.pool.is_some() {
            return Err(PoolAlreadyBound);
        }
        self.pool = Some(pool);
        Ok(())
    }

    /// Binds a pool to a thread that has none.
    pub fn bind_pool(&mut self, pool: P)
        requires
            old(self).pool is None,
        ensures
            final(self).pool == Some(pool),
    {
        self.pool = Some(pool);
    }

    pub fn current_pool(&self) -> (pool: Option<&P>)
        ensures
            pool == (match &self.pool {
                Some(p) => Some(p),
                None => None,
            }),
    {
        self.pool.as_ref()
    }
}

/// The two workers that a ticket picks, of `count`.
pub open spec fn pair(ticket: usize, count: int) -> (int, int) {
    let first = ticket as int % count;
    (first, (first + 7) % count)
}

/// Spawns a job from a worker that belongs to a mesh: through the mesh to the lighter
/// of two workers that the ticket picks, or, where that one is not in the mesh or
/// its ring is full, to a worker of the spawner's choice. The job comes back where
/// there is no worker.
pub fn spawn(
    spawner: &mut Spawner,
    registry: &mut ExecutorRegistry,
    net: &mut Network,
    mesh: &mut MeshContext,
    ticket: usize,
    job: u64,
) -> (spawned: Result<Delivery, u64>)
    requires
        old(net).carries(*old(mesh)),
    ensures
        final(net).carries(*final(mesh)),
        final(mesh).id == old(mesh).id,
        final(mesh).ingress@ == old(mesh).ingress@,
        final(mesh).egress@.len() == old(mesh).egress@.len(),
        if old(registry)@.len() == 0 {
            &&& spawned == Err::<Delivery, u64>(job)
            &&& final(registry)@ == old(registry)@
            &&& *final(net) == *old(net)
            &&& *final(mesh) == *old(mesh)
            &&& *final(spawner) == *old(spawner)
        } else {
            let (i, j) = pair(ticket, old(registry)@.len() as int);
            let w = spawner::lighter(old(registry)@, i, j);
            let id = old(registry)@[w].id;
            let me = old(mesh).id as int;
            if id != NO_ID && old(net).has_room(*old(mesh), id) {
                let n = old(registry)@.len() as int;
                &&& w == ticket as int % n || w == (ticket + 7) % n
                &&& old(registry)@[w].shared.load() <= old(registry)@[ticket as int % n].shared.load()
                &&& old(registry)@[w].shared.load() <= old(registry)@[(ticket + 7) % n].shared.load()
                &&& final(net).delivered(*old(net), me, id as int, job)
                &&& final(registry)@ == old(registry)@
                &&& *final(spawner) == *old(spawner)
                &&& spawned == Ok::<Delivery, u64>(
                    Delivery::Mesh(
                        spawner::to_notify(
                            spawner::state_at(old(registry)@, id),
                            old(net).peer_handles@[id as int],
                        ),
                    ),
                )
            } else {
                let c = Spawner::choice(spawner::xorshift(old(spawner).seed), old(registry)@);
                &&& final(net).same(*old(net), me, id as int)
                &&& final(spawner).seed == spawner::xorshift(old(spawner).seed)
                &&& 0 <= c < old(registry)@.len()
                &&& final(registry)@ == spawner::with_shared(
                    old(registry)@,
                    c,
                    old(registry)@[c].shared.scheduled(job),
                )
                &&& spawned == Ok::<Delivery, u64>(Delivery::Injected(old(registry)@[c].shared.waker))
            }
        },
{
    let count: usize = registry.handles.len();
    if count > 0 {
        let idx1: usize = ticket % count;
        let step: usize = 7 % count;
        let idx2: usize = if idx1 >= count - step {
            idx1 - (count - step)
        } else {
            idx1 + step
        };
        proof {
            vstd::arithmetic::div_mod::lemma_add_mod_noop(idx1 as int, 7, count as int);
            vstd::arithmetic::div_mod::lemma_small_mod(idx1 as nat, count as nat);
            if idx1 >= count - step {
                vstd::arithmetic::div_mod::lemma_mod_add_multiples_vanish(idx2 as int, count as int);
            }
            vstd::arithmetic::div_mod::lemma_small_mod(idx2 as nat, count as nat);
        }
        assert(registry@[idx1 as int] == registry.handles@[idx1 as int]@);
        assert(registry@[idx2 as int] == registry.handles@[idx2 as int]@);
        proof {
            crate::runtime::executor::laws::lemma_ticket_is_no_busier(ticket, registry@);
        }
        let target: usize = if registry.handles[idx1].total_load() <= registry.handles[idx2].total_load() {
            idx1
        } else {
            idx2
        };
        let id: usize = registry.handles[target].id();
        if id != NO_ID {
            let state: u8 = if id < registry.handles.len() {
                assert(registry@[id as int] == registry.handles@[id as int]@);
                registry.handles[id].shared.state()
            } else {
                crate::runtime::mesh::RUNNING
            };
            if let Ok(notify) = net.send(mesh, id, job, state) {
                return Ok(Delivery::Mesh(notify));
            }
        }
    }
    match spawner.spawn_job(registry, job) {
        Ok(wake) => Ok(Delivery::Injected(wake)),
        Err(job) => Err(job),
    }
}

/// Where a job for a given worker went.
#[derive(Debug, Clone, Copy, PartialEq, Eq, Structural)]
pub enum Placement {
    /// Into the queue of the worker that spawned it, which is the one asked for.
    Local,
    /// To another worker.
    Sent(Delivery),
}

/// Spawns a job on a given worker: on the spawning worker itself through its own
/// queue, on another through the mesh, or, where its ring is full, as a job for that
/// worker alone. The job comes back where there is no such worker.
pub fn spawn_to(
    spawner: &Spawner,
    registry: &mut ExecutorRegistry,
    net: &mut Network,
    mesh: &mut MeshContext,
    queue: &mut VecDeque<u64>,
    worker_id: usize,
    job: u64,
) -> (spawned: Result<Placement, u64>)
    requires
        old(net).carries(*old(mesh)),
    ensures
        final(net).carries(*final(mesh)),
        final(mesh).id == old(mesh).id,
        final(mesh).ingress@ == old(mesh).ingress@,
        final(mesh).egress@.len() == old(mesh).egress@.len(),
        if worker_id == old(mesh).id {
            &&& spawned == Ok::<Placement, u64>(Placement::Local)
            &&& final(queue)@ == old(queue)@.push(job)
            &&& final(registry)@ == old(registry)@
            &&& *final(net) == *old(net)
            &&& *final(mesh) == *old(mesh)
        } else {
            &&& final(queue)@ == old(queue)@
            &&& spawned matches Ok(p) ==> p is Sent
            &&& spawner::delivers_to(
                *old(registry),
                *final(registry),
                *old(net),
                *final(net),
                *old(mesh),
                worker_id,
                job,
                match spawned {
                    Ok(Placement::Sent(delivery)) => Ok(delivery),
                    Ok(Placement::Local) => Ok(Delivery::Mesh(None)),
                    Err(job) => Err(job),
                },
            )
        },
{
    if mesh.id == worker_id {
        queue.push_back(job);
        return Ok(Placement::Local);
    }
    match spawner.spawn_to_with_mesh(registry, net, mesh, job, worker_id) {
        Ok(delivery) => Ok(Placement::Sent(delivery)),
        Err(job) => Err(job),
    }
}

} // verus!
