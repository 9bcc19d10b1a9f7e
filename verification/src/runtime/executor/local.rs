//! A worker.

use crate::config::Config;
use crate::runtime::executor::shared::{ExecutorShared, SharedModel};
use crate::runtime::executor::spawner::{self, ExecutorRegistry, HandleModel, NO_ID};
use crate::runtime::executor::turn::{Phase, Turn};
use crate::runtime::mesh::{self, MeshContext, Ring};
use crate::sync::deque::StealableQueue;
use std::collections::VecDeque;
use vstd::prelude::*;

verus! {

/// What a worker does next.
#[derive(Debug, Clone, Copy, PartialEq, Eq, Structural)]
pub enum Action {
    /// Looks further.
    Continue,
    /// Polls the main future.
    PollMain,
    /// Runs a task of its own.
    Run(u64),
    /// Looks after I/O.
    Park,
}

/// A worker's own queue and its shared side, after a look at what was handed in: a
/// job for it alone comes first, then a task of its own that was woken from
/// elsewhere, then a job that any worker may take. Taking a job makes it a task of
/// the worker's own.
pub open spec fn injector_polled(queue: Seq<u64>, shared: SharedModel) -> (Seq<u64>, SharedModel) {
    if shared.pinned.len() > 0 {
        (queue.push(shared.pinned[0]), shared.without_pinned().enqueued(1))
    } else if shared.remote.len() > 0 {
        (queue.push(shared.remote[0]), shared.without_remote())
    } else if shared.injector.len() > 0 {
        (queue.push(shared.injector[0]), shared.without_injected().enqueued(1))
    } else {
        (queue, shared)
    }
}

/// Nothing that was handed in is lost: what leaves one of the queues is the worker's
/// own from then on.
pub proof fn lemma_injector_loses_nothing(queue: Seq<u64>, shared: SharedModel)
    ensures
        ({
            let (queue_after, after) = injector_polled(queue, shared);
            queue_after.to_multiset().add(after.pinned.to_multiset()).add(after.remote.to_multiset()).add(
                after.injector.to_multiset(),
            ) =~= queue.to_multiset().add(shared.pinned.to_multiset()).add(
                shared.remote.to_multiset(),
            ).add(shared.injector.to_multiset())
        }),
{
    if shared.pinned.len() > 0 {
        lemma_moves(queue, shared.pinned);
    } else if shared.remote.len() > 0 {
        lemma_moves(queue, shared.remote);
    } else if shared.injector.len() > 0 {
        lemma_moves(queue, shared.injector);
    }
}

/// A worker's own queue and its shared side, after `n` looks at what was handed in.
pub open spec fn injector_polled_times(queue: Seq<u64>, shared: SharedModel, n: nat) -> (Seq<u64>, SharedModel)
    decreases n,
{
    if n == 0 {
        (queue, shared)
    } else {
        let (q, s) = injector_polled(queue, shared);
        injector_polled_times(q, s, (n - 1) as nat)
    }
}

/// All that was handed in reaches the worker's own queue, and in order: jobs for it
/// alone, its tasks that were woken from elsewhere, then jobs that any worker may
/// take, each oldest first. It takes one look for each.
pub proof fn lemma_injector_drains(queue: Seq<u64>, shared: SharedModel)
    ensures
        ({
            let n = shared.pinned.len() + shared.remote.len() + shared.injector.len();
            let (q, s) = injector_polled_times(queue, shared, n);
            &&& q == queue + shared.pinned + shared.remote + shared.injector
            &&& !s.has_input()
        }),
    decreases shared.pinned.len() + shared.remote.len() + shared.injector.len(),
{
    let n = shared.pinned.len() + shared.remote.len() + shared.injector.len();
    let all = queue + shared.pinned + shared.remote + shared.injector;
    if n > 0 {
        let (q, s) = injector_polled(queue, shared);
        lemma_injector_drains(q, s);
        assert(q + s.pinned + s.remote + s.injector =~= all);
    } else {
        assert(queue =~= all);
    }
}

proof fn lemma_moves(to: Seq<u64>, from: Seq<u64>)
    requires
        from.len() > 0,
    ensures
        to.push(from[0]).to_multiset() =~= to.to_multiset().insert(from[0]),
        from.to_multiset() =~= from.drop_first().to_multiset().insert(from[0]),
{
    broadcast use vstd::seq_lib::group_to_multiset_ensures;

    let rest = from.drop_first();
    assert(from =~= seq![from[0]] + rest);
    vstd::seq_lib::lemma_multiset_commutative(seq![from[0]], rest);
    assert(seq![from[0]] =~= Seq::<u64>::empty().push(from[0]));
}

/// A worker: its own tasks, its ends of the mesh, and how far it is between two
/// looks after I/O.
pub struct LocalExecutor {
    pub id: usize,
    pub queue: VecDeque<u64>,
    pub mesh: Option<MeshContext>,
    /// Tasks that others may take, where the worker has such a queue.
    pub stealable: Option<StealableQueue>,
    pub turn: Turn,
}

impl LocalExecutor {
    /// Whether the inbox is the worker's.
    pub open spec fn reads(self, inbox: Seq<Ring<u64>>) -> bool {
        self.mesh matches Some(mesh) ==> mesh.reads(inbox)
    }

    /// The jobs that a look into the inbox takes out.
    pub open spec fn arrives(self, inbox: Seq<Ring<u64>>) -> Seq<u64> {
        if self.mesh is Some {
            MeshContext::arrived(inbox, inbox.len() as int)
        } else {
            Seq::empty()
        }
    }

    /// Whether the inbox is what a look leaves of it.
    pub open spec fn looked_into(self, before: Seq<Ring<u64>>, after: Seq<Ring<u64>>) -> bool {
        if self.mesh is Some {
            &&& after.len() == before.len()
            &&& forall|i: int|
                0 <= i < before.len() ==> {
                    &&& (#[trigger] after[i])@ == (if before[i]@.len() > 0 {
                        before[i]@.drop_first()
                    } else {
                        before[i]@
                    })
                    &&& after[i].capacity() == before[i].capacity()
                    &&& after[i].taken() + after[i]@.len() == before[i].taken() + before[i]@.len()
                }
        } else {
            after == before
        }
    }

    /// Whether the worker has the same ends of the mesh for writing, and the same
    /// queue for others.
    pub open spec fn same_ends(self, after: Self) -> bool {
        &&& after.stealable == self.stealable
        &&& after.mesh is Some == self.mesh is Some
        &&& self.mesh matches Some(mesh) ==> after.mesh->0.id == mesh.id && after.mesh->0.egress@
            == mesh.egress@
    }

    /// A worker that belongs to no mesh.
    pub fn new() -> (executor: Self)
        ensures
            executor.id == NO_ID,
            executor.queue@ == Seq::<u64>::empty(),
            executor.mesh is None,
            executor.stealable is None,
            executor.turn == Turn::start(),
    {
        LocalExecutor {
            id: NO_ID,
            queue: VecDeque::new(),
            mesh: None,
            stealable: None,
            turn: Turn::new(),
        }
    }

    /// Gives the worker its number.
    pub fn with_id(self, id: usize) -> (executor: Self)
        ensures
            executor == (LocalExecutor { id, ..self }),
    {
        let mut executor: LocalExecutor = self;
        executor.id = id;
        executor
    }

    /// Gives the worker its queue of tasks that others may take.
    pub fn with_worker(self, stealable: StealableQueue) -> (executor: Self)
        ensures
            executor == (LocalExecutor { stealable: Some(stealable), ..self }),
    {
        let mut executor: LocalExecutor = self;
        executor.stealable = Some(stealable);
        executor
    }

    /// Gives the worker its ends of the mesh, and its number there.
    pub fn attach_mesh(&mut self, mesh: MeshContext)
        ensures
            *final(self) == (LocalExecutor { id: mesh.id, mesh: Some(mesh), ..*old(self) }),
    {
        self.id = mesh.id;
        self.mesh = Some(mesh);
    }

    /// Takes a job as a task of the worker's own.
    pub fn enqueue_job(&mut self, shared: &mut ExecutorShared, job: u64)
        ensures
            *final(self) == (LocalExecutor { queue: final(self).queue, ..*old(self) }),
            final(self).queue@ == old(self).queue@.push(job),
            final(shared)@ == old(shared)@.enqueued(1),
    {
        shared.count_enqueued();
        self.queue.push_back(job);
    }

    /// Starts a task that stays with the worker.
    pub fn spawn_local(&mut self, shared: &mut ExecutorShared, task: u64)
        ensures
            *final(self) == (LocalExecutor { queue: final(self).queue, ..*old(self) }),
            final(self).queue@ == old(self).queue@.push(task),
            final(shared)@ == old(shared)@.enqueued(1),
    {
        self.queue.push_back(task);
        shared.count_enqueued();
    }

    /// Takes what the others sent, one job from each, and tells whether there was
    /// any.
    pub fn try_poll_mesh(&mut self, shared: &mut ExecutorShared, inbox: &mut Vec<Ring<u64>>) -> (found: bool)
        requires
            old(self).reads(old(inbox)@),
        ensures
            final(self).reads(final(inbox)@),
            old(self).looked_into(old(inbox)@, final(inbox)@),
            final(self).id == old(self).id,
            final(self).turn == old(self).turn,
            old(self).same_ends(*final(self)),
            final(self).queue@ == old(self).queue@ + old(self).arrives(old(inbox)@),
            final(shared)@ == old(shared)@.enqueued(old(self).arrives(old(inbox)@).len() as int),
            found == (old(self).arrives(old(inbox)@).len() > 0),
    {
        let ghost arrived = self.arrives(inbox@);
        let mut jobs: Vec<u64> = Vec::new();
        let found: bool = match &mut self.mesh {
            Some(mesh) => mesh.poll_ingress(inbox, &mut jobs),
            None => false,
        };
        assert(jobs@ =~= arrived);
        assert(self.queue@ + jobs@.take(0) =~= self.queue@);
        proof {
            lemma_moved_none(shared@.local_load);
        }
        let mut i: usize = 0;
        let ghost start = *self;
        while i < jobs.len()
            invariant
                i <= jobs@.len(),
                *self == (LocalExecutor { queue: self.queue, ..start }),
                self.queue@ == old(self).queue@ + jobs@.take(i as int),
                shared@ == old(shared)@.enqueued(i as int),
            decreases jobs@.len() - i,
        {
            self.enqueue_job(shared, jobs[i]);
            proof {
                lemma_moved_more(old(shared)@.local_load, i as int);
                assert(jobs@.take(i + 1) =~= jobs@.take(i as int).push(jobs@[i as int]));
            }
            i += 1;
        }
        assert(jobs@.take(jobs@.len() as int) =~= jobs@);
        found
    }

    /// Takes something that was handed in, and tells whether there was anything.
    pub fn try_poll_injector(&mut self, shared: &mut ExecutorShared) -> (found: bool)
        ensures
            *final(self) == (LocalExecutor { queue: final(self).queue, ..*old(self) }),
            (final(self).queue@, final(shared)@) == injector_polled(old(self).queue@, old(shared)@),
            found == old(shared)@.has_input(),
    {
        if let Some(job) = shared.take_pinned() {
            self.enqueue_job(shared, job);
            return true;
        }
        if let Some(task) = shared.take_remote() {
            self.queue.push_back(task);
            return true;
        }
        if let Some(job) = shared.take_injected() {
            self.enqueue_job(shared, job);
            return true;
        }
        false
    }

    /// The place from which a worker looks round.
    pub open spec fn look_from(seed: usize, executed: usize) -> int {
        seed.wrapping_add(executed) as int
    }

    /// All workers after one of them looked round for a job of another's.
    pub open spec fn robbed(workers: Seq<HandleModel>, home: int, start: int) -> Seq<HandleModel> {
        match spawner::victim(workers, home as usize, start, 0) {
            Some(v) => {
                let w = spawner::with_shared(workers, v, workers[v].shared.without_injected());
                spawner::with_shared(w, home, w[home].shared.enqueued(1))
            },
            None => workers,
        }
    }

    /// Takes a job that was handed in to another worker, and tells whether there was
    /// any. `home`: the worker's place among all.
    pub fn try_steal(&mut self, registry: &mut ExecutorRegistry, home: usize, seed: usize) -> (found: bool)
        requires
            home < old(registry)@.len(),
        ensures
            ({
                let start = Self::look_from(seed, old(self).turn.executed);
                let v = spawner::victim(old(registry)@, home, start, 0);
                &&& found == (v is Some)
                &&& final(registry)@ == Self::robbed(old(registry)@, home as int, start)
                &&& *final(self) == (LocalExecutor { queue: final(self).queue, ..*old(self) })
                &&& final(self).queue@ == (match v {
                    Some(v) => old(self).queue@.push(old(registry)@[v].shared.injector[0]),
                    None => old(self).queue@,
                })
            }),
    {
        let start: usize = seed.wrapping_add(self.turn.executed);
        match registry.steal(home, start) {
            Some(job) => {
                let ghost taken = registry@;
                assert(taken.len() == old(registry)@.len());
                assert(taken.len() == registry.handles@.len());
                assert(taken[home as int] == registry.handles@[home as int]@);
                self.enqueue_job(&mut registry.handles[home].shared, job);
                assert(registry@ =~= spawner::with_shared(
                    taken,
                    home as int,
                    taken[home as int].shared.enqueued(1),
                ));
                true
            },
            None => false,
        }
    }

    /// Whether a look for work at the next place takes the worker, all workers and
    /// the inbox from one state to the next, with this action.
    pub open spec fn stepped(
        self,
        after: Self,
        workers: Seq<HandleModel>,
        workers_after: Seq<HandleModel>,
        inbox: Seq<Ring<u64>>,
        inbox_after: Seq<Ring<u64>>,
        home: usize,
        seed: usize,
        main_woken: bool,
        action: Action,
    ) -> bool {
        &&& after.id == self.id
        &&& self.same_ends(after)
        &&& self.turn.phase is Mesh || after.mesh == self.mesh
        &&& self.turn.phase is Mesh || inbox_after == inbox
        &&& match self.turn.phase {
            Phase::Mesh => {
                let jobs = self.arrives(inbox);
                &&& action is Continue
                &&& after.turn == self.turn.looked(jobs.len() > 0)
                &&& self.looked_into(inbox, inbox_after)
                &&& after.queue@ == self.queue@ + jobs
                &&& workers_after == spawner::with_shared(
                    workers,
                    home as int,
                    workers[home as int].shared.enqueued(jobs.len() as int),
                )
            },
            Phase::Main => {
                &&& action == (if main_woken {
                    Action::PollMain
                } else {
                    Action::Continue
                })
                &&& after == (LocalExecutor { turn: self.turn.looked(main_woken), ..self })
                &&& workers_after == workers
            },
            Phase::Local => {
                let found = self.queue@.len() > 0;
                &&& after.turn == self.turn.looked(found)
                &&& if found {
                    &&& action == Action::Run(self.queue@[0])
                    &&& after.queue@ == self.queue@.drop_first()
                    &&& workers_after == spawner::with_shared(
                        workers,
                        home as int,
                        workers[home as int].shared.enqueued(-1),
                    )
                } else {
                    &&& action is Continue
                    &&& after.queue@ == self.queue@
                    &&& workers_after == workers
                }
            },
            Phase::Injector => {
                let shared = workers[home as int].shared;
                let (queue, shared_after) = injector_polled(self.queue@, shared);
                &&& action is Continue
                &&& after.turn == self.turn.looked(shared.has_input())
                &&& after.queue@ == queue
                &&& workers_after == spawner::with_shared(workers, home as int, shared_after)
            },
            Phase::Steal => {
                let start = Self::look_from(seed, self.turn.executed);
                let v = spawner::victim(workers, home, start, 0);
                &&& action is Continue
                &&& after.turn == self.turn.looked(v is Some)
                &&& workers_after == Self::robbed(workers, home as int, start)
                &&& after.queue@ == (match v {
                    Some(v) => self.queue@.push(workers[v].shared.injector[0]),
                    None => self.queue@,
                })
            },
            Phase::Park => {
                &&& action is Park
                &&& after == self
                &&& workers_after == workers
            },
        }
    }

    /// Looks for work at the next place. `home`: the worker's place among all;
    /// `main_woken`: whether there is a main future and it was woken.
    pub fn step(
        &mut self,
        registry: &mut ExecutorRegistry,
        home: usize,
        inbox: &mut Vec<Ring<u64>>,
        seed: usize,
        main_woken: bool,
    ) -> (action: Action)
        requires
            old(self).turn.wf(),
            old(self).reads(old(inbox)@),
            home < old(registry)@.len(),
        ensures
            final(self).turn.wf(),
            final(self).reads(final(inbox)@),
            old(self).stepped(
                *final(self),
                old(registry)@,
                final(registry)@,
                old(inbox)@,
                final(inbox)@,
                home,
                seed,
                main_woken,
                action,
            ),
    {
        assert(registry@[home as int] == registry.handles@[home as int]@);
        let ghost before = registry@;
        match self.turn.phase {
            Phase::Mesh => {
                let found: bool = self.try_poll_mesh(&mut registry.handles[home].shared, inbox);
                assert(registry@ =~= spawner::with_shared(
                    before,
                    home as int,
                    registry.handles@[home as int].shared@,
                ));
                self.turn.look(found);
                Action::Continue
            },
            Phase::Main => {
                self.turn.look(main_woken);
                if main_woken {
                    Action::PollMain
                } else {
                    Action::Continue
                }
            },
            Phase::Local => {
                match self.queue.pop_front() {
                    Some(task) => {
                        assert(self.queue@ =~= old(self).queue@.drop_first());
                        registry.handles[home].shared.count_dequeued();
                        assert(registry@ =~= spawner::with_shared(
                            before,
                            home as int,
                            registry.handles@[home as int].shared@,
                        ));
                        self.turn.look(true);
                        Action::Run(task)
                    },
                    None => {
                        self.turn.look(false);
                        Action::Continue
                    },
                }
            },
            Phase::Injector => {
                let found: bool = self.try_poll_injector(&mut registry.handles[home].shared);
                assert(registry@ =~= spawner::with_shared(
                    before,
                    home as int,
                    registry.handles@[home as int].shared@,
                ));
                self.turn.look(found);
                Action::Continue
            },
            Phase::Steal => {
                let found: bool = self.try_steal(registry, home, seed);
                self.turn.look(found);
                Action::Continue
            },
            Phase::Park => Action::Park,
        }
    }

    /// Begins to look after I/O. With tasks left the driver only submits and collects
    /// (true). Without any, the worker announces that it may sleep.
    pub fn park_begin(&self, shared: &mut ExecutorShared, main_woken: bool) -> (busy: bool)
        ensures
            busy == (self.queue@.len() > 0 || main_woken),
            final(shared)@ == (if busy {
                old(shared)@
            } else {
                old(shared)@.announced()
            }),
    {
        if self.queue.len() > 0 || main_woken {
            return true;
        }
        shared.set_state(mesh::PARKING);
        false
    }

    /// Looks into all queues one last time. Tells whether the worker may sleep: only
    /// if there was nothing.
    pub fn park_check(&mut self, shared: &mut ExecutorShared, inbox: &mut Vec<Ring<u64>>) -> (sleep: bool)
        requires
            old(self).reads(old(inbox)@),
        ensures
            final(self).reads(final(inbox)@),
            old(self).looked_into(old(inbox)@, final(inbox)@),
            final(self).id == old(self).id,
            final(self).turn == old(self).turn,
            old(self).same_ends(*final(self)),
            final(self).queue@ == old(self).queue@ + old(self).arrives(old(inbox)@),
            sleep == old(shared)@.may_sleep(old(self).arrives(old(inbox)@).len()),
            final(shared)@ == old(shared)@.checked(old(self).arrives(old(inbox)@).len()),
    {
        if self.try_poll_mesh(shared, inbox) {
            shared.set_state(mesh::RUNNING);
            return false;
        }
        if shared.has_input() {
            shared.set_state(mesh::RUNNING);
            return false;
        }
        shared.set_state(mesh::PARKED);
        true
    }

    /// Goes on after I/O. Tells whether the worker shall stop.
    pub fn resume(&mut self, shared: &mut ExecutorShared) -> (stop: bool)
        ensures
            *final(self) == (LocalExecutor { turn: Turn::start(), ..*old(self) }),
            final(shared)@ == old(shared)@.resumed(),
            stop == old(shared)@.shutdown,
    {
        shared.set_state(mesh::RUNNING);
        self.turn = Turn::new();
        shared.is_shut_down()
    }
}

/// Collects what a worker is made of.
pub struct LocalExecutorBuilder {
    pub config: Config,
    pub shared: Option<ExecutorShared>,
}

impl LocalExecutorBuilder {
    pub fn new() -> (builder: Self)
        ensures
            builder.config == Config::defaults(),
            builder.shared is None,
    {
        LocalExecutorBuilder { config: Config::default(), shared: None }
    }

    /// Gives the worker a shared side that others know already.
    pub fn with_shared(self, shared: ExecutorShared) -> (builder: Self)
        ensures
            builder == (LocalExecutorBuilder { shared: Some(shared), ..self }),
    {
        let mut builder: LocalExecutorBuilder = self;
        builder.shared = Some(shared);
        builder
    }

    pub fn config(self, config: Config) -> (builder: Self)
        ensures
            builder == (LocalExecutorBuilder { config, ..self }),
    {
        let mut builder: LocalExecutorBuilder = self;
        builder.config = config;
        builder
    }

    /// A worker without tasks, and its shared side: the one that was given, else a
    /// new one. Its driver is known from now on.
    pub fn build(self, driver: usize, queue_capacity: usize) -> (built: (LocalExecutor, ExecutorShared))
        requires
            0 < queue_capacity <= isize::MAX / 16,
        ensures
            built.0.id == NO_ID,
            built.0.queue@ == Seq::<u64>::empty(),
            built.0.mesh is None,
            built.0.stealable is None,
            built.0.turn == Turn::start(),
            built.1@ == (SharedModel {
                waker: Some(driver),
                ..match self.shared {
                    Some(shared) => shared@,
                    None => SharedModel::fresh(queue_capacity as nat),
                }
            }),
    {
        let mut shared: ExecutorShared = match self.shared {
            Some(shared) => shared,
            None => ExecutorShared::new(queue_capacity),
        };
        shared.set_waker(driver);
        (LocalExecutor::new(), shared)
    }
}

/// A job for one worker alone, or a task of its own, is never taken by another: a
/// worker that looks round leaves those queues as they are.
pub proof fn lemma_pinned_stays(workers: Seq<HandleModel>, home: int, start: int, i: int)
    requires
        0 <= home < workers.len(),
        workers.len() <= usize::MAX,
        0 <= i < workers.len(),
    ensures
        LocalExecutor::robbed(workers, home, start).len() == workers.len(),
        LocalExecutor::robbed(workers, home, start)[i].shared.pinned == workers[i].shared.pinned,
        LocalExecutor::robbed(workers, home, start)[i].shared.remote == workers[i].shared.remote,
        LocalExecutor::robbed(workers, home, start)[i].id == workers[i].id,
{
    lemma_victim_in_range(workers, home as usize, start, 0);
}

proof fn lemma_victim_in_range(workers: Seq<HandleModel>, me: usize, start: int, i: int)
    requires
        0 <= i,
    ensures
        spawner::victim(workers, me, start, i) matches Some(v) ==> 0 <= v < workers.len() && v != me,
    decreases workers.len() - i,
{
    if i < workers.len() {
        vstd::arithmetic::div_mod::lemma_mod_bound(start + i, workers.len() as int);
        lemma_victim_in_range(workers, me, start, i + 1);
    }
}

proof fn lemma_moved_none(load: usize)
    ensures
        crate::runtime::executor::shared::moved(load, 0) == load,
{
    vstd::arithmetic::div_mod::lemma_small_mod(load as nat, (usize::MAX + 1) as nat);
}

proof fn lemma_moved_more(load: usize, n: int)
    ensures
        crate::runtime::executor::shared::moved(crate::runtime::executor::shared::moved(load, n), 1)
            == crate::runtime::executor::shared::moved(load, n + 1),
{
    let r = usize::MAX + 1;
    vstd::arithmetic::div_mod::lemma_add_mod_noop(load + n, 1, r);
    vstd::arithmetic::div_mod::lemma_add_mod_noop((load + n) % r, 1, r);
    vstd::arithmetic::div_mod::lemma_mod_twice(load + n, r);
}

} // verus!
