//! How a runtime is laid out.

use crate::config::Config;
use crate::error::IoError;
use crate::io::buffer::buddy::ARENA_SIZE;
use crate::io::buffer::hybrid::TOTAL_SIZE;
use crate::runtime::executor::shared::{ExecutorShared, SharedModel};
use crate::runtime::executor::spawner::{ExecutorHandle, ExecutorRegistry};
use crate::sync::deque::StealableQueue;
use vstd::prelude::*;

verus! {

/// Which pool the workers take their buffers from.
#[derive(Debug, Clone, Copy, PartialEq, Eq, Structural)]
pub enum BufferConfig {
    Buddy,
    Hybrid,
}

impl BufferConfig {
    pub open spec fn bytes(self) -> usize {
        match self {
            BufferConfig::Buddy => ARENA_SIZE,
            BufferConfig::Hybrid => TOTAL_SIZE,
        }
    }

    /// How much memory one worker needs.
    pub fn memory_requirement(&self) -> (bytes: usize)
        ensures
            bytes == self.bytes(),
    {
        match self {
            BufferConfig::Buddy => ARENA_SIZE,
            BufferConfig::Hybrid => TOTAL_SIZE,
        }
    }
}

impl Default for BufferConfig {
    fn default() -> (config: Self)
        ensures
            config is Buddy,
    {
        BufferConfig::Buddy
    }
}

/// Calls `num_cpus::get`, which is documented to return at least one.
#[verifier::external_body]
fn logical_cpus() -> (count: usize)
    ensures
        count >= 1,
{
    num_cpus::get()
}

/// A runtime before its threads are started: the first worker is the thread that
/// blocks on the main future, the others get threads of their own.
pub struct RuntimePlan {
    pub config: Config,
    pub buffer_config: BufferConfig,
    pub worker_count: usize,
    /// How much memory each worker gets.
    pub thread_sizes: Vec<usize>,
    /// The handles of the workers' drivers, zero while they are not known.
    pub peer_handles: Vec<usize>,
    pub registry: ExecutorRegistry,
    /// For each worker a queue of tasks that others may take.
    pub stealable_workers: Vec<StealableQueue>,
    /// The workers that get threads of their own.
    pub spawned: Vec<usize>,
    /// How many wait for each other before any of them runs.
    pub barrier: usize,
}

impl RuntimePlan {
    /// Whether the plan is for `n` workers.
    pub open spec fn is_for(self, n: usize, memory: usize, queue_capacity: nat) -> bool {
        &&& self.worker_count == n
        &&& self.barrier == n
        &&& self.thread_sizes@ == Seq::new(n as nat, |i: int| memory)
        &&& self.peer_handles@ == Seq::new(n as nat, |i: int| 0usize)
        &&& self.registry@.len() == n
        &&& forall|i: int|
            0 <= i < n ==> (#[trigger] self.registry@[i]).id == i && self.registry@[i].shared
                == (SharedModel {
                stealer: Some(self.stealable_workers@[i].queue()),
                ..SharedModel::fresh(queue_capacity)
            })
        &&& self.stealable_workers@.len() == n
        &&& forall|i: int|
            0 <= i < n ==> (#[trigger] self.stealable_workers@[i]).initial() == Seq::<u64>::empty()
        &&& self.spawned@ == Seq::new((n - 1) as nat, |i: int| (i + 1) as usize)
    }
}

/// Collects what a runtime is made of.
pub struct RuntimeBuilder {
    pub config: Config,
    pub buffer_config: Option<BufferConfig>,
}

impl RuntimeBuilder {
    pub fn new() -> (builder: Self)
        ensures
            builder.config == Config::defaults(),
            builder.buffer_config is None,
    {
        RuntimeBuilder { config: Config::default(), buffer_config: None }
    }

    pub fn config(self, config: Config) -> (builder: Self)
        ensures
            builder == (RuntimeBuilder { config, ..self }),
    {
        let mut builder: RuntimeBuilder = self;
        builder.config = config;
        builder
    }

    pub fn buffer_config(self, buffer_config: BufferConfig) -> (builder: Self)
        ensures
            builder == (RuntimeBuilder { buffer_config: Some(buffer_config), ..self }),
    {
        let mut builder: RuntimeBuilder = self;
        builder.buffer_config = Some(buffer_config);
        builder
    }

    /// The pool that was asked for, else the buddy allocator's.
    pub open spec fn pool(self) -> BufferConfig {
        match self.buffer_config {
            Some(buffer_config) => buffer_config,
            None => BufferConfig::Buddy,
        }
    }

    /// Lays out a runtime: with as many workers as were asked for, else one for each
    /// processor. None is refused.
    pub fn build(self, queue_capacity: usize) -> (built: Result<RuntimePlan, IoError>)
        requires
            0 < queue_capacity <= isize::MAX / 16,
        ensures
            built is Err <==> self.config.worker_threads == Some(0usize),
            built matches Err(e) ==> e is NoWorkers,
            built matches Ok(plan) ==> {
                &&& plan.worker_count >= 1
                &&& self.config.worker_threads matches Some(n) ==> plan.worker_count == n
                &&& plan.is_for(plan.worker_count, self.pool().bytes(), queue_capacity as nat)
                &&& plan.config == self.config
                &&& plan.buffer_config == self.pool()
            },
    {
        let worker_count: usize = match self.config.worker_threads {
            Some(n) => n,
            None => logical_cpus(),
        };
        self.build_with(worker_count, queue_capacity)
    }

    /// Lays out a runtime with a given number of workers. None is refused.
    pub fn build_with(self, worker_count: usize, queue_capacity: usize) -> (built: Result<
        RuntimePlan,
        IoError,
    >)
        requires
            0 < queue_capacity <= isize::MAX / 16,
        ensures
            match built {
                Err(e) => worker_count == 0 && e is NoWorkers,
                Ok(plan) => {
                    &&& worker_count > 0
                    &&& plan.is_for(worker_count, self.pool().bytes(), queue_capacity as nat)
                    &&& plan.config == self.config
                    &&& plan.buffer_config == self.pool()
                },
            },
    {
        if worker_count == 0 {
            return Err(IoError::NoWorkers);
        }
        let buffer_config: BufferConfig = match self.buffer_config {
            Some(buffer_config) => buffer_config,
            None => BufferConfig::default(),
        };
        let memory: usize = buffer_config.memory_requirement();
        let mut thread_sizes: Vec<usize> = Vec::new();
        let mut peer_handles: Vec<usize> = Vec::new();
        let mut handles: Vec<ExecutorHandle> = Vec::new();
        let mut stealable_workers: Vec<StealableQueue> = Vec::new();
        let mut spawned: Vec<usize> = Vec::new();
        let mut i: usize = 0;
        while i < worker_count
            invariant
                i <= worker_count,
                0 < queue_capacity <= isize::MAX / 16,
                thread_sizes@ == Seq::new(i as nat, |j: int| memory),
                peer_handles@ == Seq::new(i as nat, |j: int| 0usize),
                handles@.len() == i,
                forall|j: int|
                    0 <= j < i ==> (#[trigger] handles@[j])@.id == j && handles@[j]@.shared == (SharedModel {
                        stealer: Some(stealable_workers@[j].queue()),
                        ..SharedModel::fresh(queue_capacity as nat)
                    }),
                stealable_workers@.len() == i,
                forall|j: int|
                    0 <= j < i ==> (#[trigger] stealable_workers@[j]).initial() == Seq::<u64>::empty(),
                spawned@ == Seq::new(
                    (if i == 0 {
                        0
                    } else {
                        i - 1
                    }) as nat,
                    |j: int| (j + 1) as usize,
                ),
            decreases worker_count - i,
        {
            thread_sizes.push(memory);
            peer_handles.push(0);
            let worker: StealableQueue = StealableQueue::new();
            let mut shared: ExecutorShared = ExecutorShared::new(queue_capacity);
            shared.set_stealer(worker.stealer());
            handles.push(ExecutorHandle { id: i, shared });
            stealable_workers.push(worker);
            if i > 0 {
                spawned.push(i);
            }
            i += 1;
            assert(thread_sizes@ =~= Seq::new(i as nat, |j: int| memory));
            assert(peer_handles@ =~= Seq::new(i as nat, |j: int| 0usize));
            assert(spawned@ =~= Seq::new((i - 1) as nat, |j: int| (j + 1) as usize));
        }
        let registry: ExecutorRegistry = ExecutorRegistry::new(handles);
        assert forall|j: int| 0 <= j < worker_count implies (#[trigger] registry@[j]).id == j
            && registry@[j].shared == (SharedModel {
            stealer: Some(stealable_workers@[j].queue()),
            ..SharedModel::fresh(queue_capacity as nat)
        }) by {
            assert(registry@[j] == handles@[j]@);
        }
        Ok(
            RuntimePlan {
                config: self.config,
                buffer_config,
                worker_count,
                thread_sizes,
                peer_handles,
                registry,
                stealable_workers,
                spawned,
                barrier: worker_count,
            },
        )
    }
}

/// A plan is for all its workers alike: each has its memory, its number and an empty
/// queue of tasks that others may take. All but the first get a thread of their own, each
/// one, and everybody is waited for.
pub proof fn lemma_plan_covers_workers(plan: RuntimePlan, n: usize, memory: usize, queue_capacity: nat, w: usize)
    requires
        plan.is_for(n, memory, queue_capacity),
        n > 0,
    ensures
        plan.worker_count == n,
        plan.barrier == n,
        plan.thread_sizes@.len() == n,
        plan.peer_handles@.len() == n,
        plan.registry@.len() == n,
        plan.stealable_workers@.len() == n,
        plan.spawned@.len() == n - 1,
        plan.spawned@.contains(w) <==> 1 <= w < n,
        w < n ==> {
            &&& plan.thread_sizes@[w as int] == memory
            &&& plan.peer_handles@[w as int] == 0
            &&& plan.registry@[w as int].id == w
            &&& plan.registry@[w as int].shared.stealer == Some(plan.stealable_workers@[w as int].queue())
            &&& plan.stealable_workers@[w as int].initial().len() == 0
            &&& plan.registry@[w as int].shared.futures_bound == queue_capacity
            &&& plan.registry@[w as int].shared.injected_load == 0
            &&& plan.registry@[w as int].shared.local_load == 0
            &&& plan.registry@[w as int].shared.state == 0
            &&& !plan.registry@[w as int].shared.shutdown
            &&& plan.registry@[w as int].shared.waker is None
            &&& !plan.registry@[w as int].shared.has_input()
        },
{
    if 1 <= w < n {
        assert(plan.spawned@[w - 1] == w);
    }
    if plan.spawned@.contains(w) {
        let i = choose|i: int| 0 <= i < plan.spawned@.len() && plan.spawned@[i] == w;
        assert(plan.spawned@[i] == i + 1);
    }
}

/// Each worker has the memory of its pool: the arena of the buddy pool, or all slabs of
/// the hybrid one. The buddy pool is taken where none was asked for.
pub proof fn lemma_pool_memory(builder: RuntimeBuilder)
    ensures
        BufferConfig::Buddy.bytes() == 33554432,
        BufferConfig::Hybrid.bytes() == crate::io::buffer::hybrid::slab_base(5),
        builder.buffer_config is None ==> builder.pool() is Buddy,
        builder.buffer_config matches Some(pool) ==> builder.pool() == pool,
{
    reveal_with_fuel(crate::io::buffer::hybrid::slab_base, 6);
}

} // verus!
