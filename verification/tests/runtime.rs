use std::collections::VecDeque;

use veloq_runtime::config::Config;
use veloq_runtime::error::{ErrorKind, IoError};
use veloq_runtime::io::buffer::buddy::ARENA_SIZE;
use veloq_runtime::io::buffer::hybrid::TOTAL_SIZE;
use veloq_runtime::poll::Poll;
use veloq_runtime::runtime::builder::{BufferConfig, RuntimeBuilder};
use veloq_runtime::runtime::context::{self, yield_now, Placement, PoolSlot};
use veloq_runtime::runtime::executor::local::{Action, LocalExecutor, LocalExecutorBuilder};
use veloq_runtime::runtime::executor::shared::ExecutorShared;
use veloq_runtime::runtime::executor::spawner::{
    deliver, Delivery, ExecutorHandle, ExecutorRegistry, Spawner, NO_ID,
};
use veloq_runtime::runtime::executor::turn::{Phase, Turn, BUDGET};
use veloq_runtime::runtime::mesh::{channel, full_mesh, MeshContext, Network, PARKED, PARKING, RUNNING};
use veloq_runtime::runtime::task::harness::{self, AfterPoll};
use veloq_runtime::runtime::task::pinned::{self, Lifecycle, Route, Start, NO_OWNER};
use veloq_runtime::sync::queue::{BoundedJobQueue, JobQueue};

fn registry(n: usize) -> ExecutorRegistry {
    let mut handles = Vec::new();
    for id in 0..n {
        handles.push(ExecutorHandle { id, shared: ExecutorShared::new(4) });
    }
    ExecutorRegistry::new(handles)
}

/// Two workers, each with a ring to the other and to itself.
fn pair(capacity: usize) -> (Network, MeshContext, MeshContext) {
    let (mut net, mut ends) = full_mesh(2, capacity);
    net.peer_handles[1] = 42;
    let second = ends.remove(1);
    let first = ends.remove(0);
    (net, first, second)
}

#[test]
fn a_full_mesh_joins_all() {
    let (mut net, mut ends) = full_mesh(3, 2);
    assert_eq!(net.peer_handles, vec![0, 0, 0]);
    for from in 0..3 {
        for to in 0..3 {
            assert_eq!(net.send(&mut ends[from], to, (10 * from + to) as u64, RUNNING), Ok(None));
        }
    }
    for to in 0..3 {
        let mut jobs = Vec::new();
        assert_eq!(ends[to].id, to);
        assert!(ends[to].poll_ingress(&mut net.inboxes[to], &mut jobs));
        assert_eq!(jobs, vec![to as u64, (10 + to) as u64, (20 + to) as u64]);
    }
}

#[test]
fn a_sent_job_is_read_in_its_turn() {
    let (mut net, mut first, second) = pair(4);
    let mut registry = registry(2);
    let mut executor = LocalExecutor::new();
    executor.attach_mesh(second);
    for job in 1..4 {
        net.send(&mut first, 1, job, RUNNING).unwrap();
    }
    let mut run = Vec::new();
    loop {
        match executor.step(&mut registry, 1, &mut net.inboxes[1], 0, false) {
            Action::Continue => {}
            Action::Run(job) => run.push(job),
            _ => break,
        }
    }
    assert_eq!(run, vec![1, 2, 3]);
    assert!(executor.mesh.is_some());
}

#[test]
fn queues_keep_their_order() {
    let mut queue = JobQueue::new();
    assert!(queue.is_empty());
    assert_eq!(queue.pop(), None);
    for job in 1..4 {
        queue.push(job);
    }
    assert!(!queue.is_empty());
    assert_eq!(queue.pop(), Some(1));
    assert_eq!(queue.pop(), Some(2));
    assert_eq!(queue.pop(), Some(3));
    assert!(queue.is_empty());
}

#[test]
fn a_bounded_queue_gives_jobs_back() {
    let mut queue = BoundedJobQueue::new(2);
    assert_eq!(queue.push(5), Ok(()));
    assert!(!queue.is_full());
    assert_eq!(queue.push(6), Ok(()));
    assert!(queue.is_full());
    assert_eq!(queue.push(7), Err(7));
    assert_eq!(queue.pop(), Some(5));
    assert_eq!(queue.push(8), Ok(()));
    assert_eq!(queue.pop(), Some(6));
    assert_eq!(queue.pop(), Some(8));
    assert_eq!(queue.pop(), None);
}

#[test]
fn a_ring_holds_a_power_of_two() {
    let (mut ring, mut producer, mut consumer) = channel(3);
    assert!(consumer.is_empty(&ring));
    for round in 0..5 {
        for i in 0..4 {
            assert_eq!(producer.push(&mut ring, 10 * round + i), Ok(()));
        }
        assert_eq!(producer.push(&mut ring, 99), Err(99));
        assert!(!consumer.is_empty(&ring));
        assert_eq!(consumer.pop(&mut ring), Some(10 * round));
        let mut rest = Vec::new();
        assert_eq!(consumer.drain_into(&mut ring, &mut rest, 2), 2);
        assert_eq!(consumer.drain_into(&mut ring, &mut rest, 9), 1);
        assert_eq!(rest, vec![10 * round + 1, 10 * round + 2, 10 * round + 3]);
        assert_eq!(consumer.pop(&mut ring), None);
    }
}

#[test]
fn a_ring_of_nothing_holds_one() {
    let (mut ring, mut producer, _) = channel(0);
    assert_eq!(producer.push(&mut ring, 1), Ok(()));
    assert_eq!(producer.push(&mut ring, 2), Err(2));
}

#[test]
fn a_sleeping_peer_is_notified() {
    let (mut net, mut first, mut second) = pair(1);
    assert_eq!(net.send(&mut first, 1, 7, PARKED), Ok(Some(42)));
    assert_eq!(net.send(&mut first, 1, 8, PARKED), Err(8));
    assert_eq!(net.send(&mut first, 5, 9, PARKED), Err(9));
    let mut jobs = Vec::new();
    assert!(second.poll_ingress(&mut net.inboxes[1], &mut jobs));
    assert_eq!(jobs, vec![7]);
    assert!(!second.poll_ingress(&mut net.inboxes[1], &mut jobs));
    assert_eq!(net.send(&mut first, 1, 8, RUNNING), Ok(None));
    assert_eq!(net.send(&mut second, 0, 3, PARKING), Ok(None));
}

#[test]
fn a_wake_during_a_poll_is_answered_by_another() {
    let mut header = harness::Header::new();
    header.add_reference();
    header.begin();
    assert!(!header.wake_by_ref());
    assert_eq!(header.finish(Poll::Pending), AfterPoll::Again);
    header.begin();
    assert_eq!(header.finish(Poll::Pending), AfterPoll::Over { freed: false });
    assert_eq!(header.state, harness::IDLE);
    assert!(header.wake_by_ref());
    assert!(!header.wake_by_ref());
    assert_eq!(header.references, 2);
    header.begin();
    assert_eq!(header.finish(Poll::Ready(())), AfterPoll::Over { freed: false });
    assert_eq!(header.state, harness::COMPLETED);
    assert_eq!(header.wake(), (false, true));
}

#[test]
fn a_task_goes_to_its_worker() {
    let mut header = pinned::Header::new();
    assert_eq!(header.owner_id, NO_OWNER);
    assert_eq!(header.wake_by_ref(None, true), Route::Nowhere);
    header.bind(3);
    assert_eq!(header.state, Lifecycle::Bound);
    assert_eq!(header.start(true), Start::Poll);
    assert_eq!(header.start(true), Start::Requeue);
    assert_eq!(header.wake_by_ref(Some(3), true), Route::Local);
    assert_eq!(header.wake_by_ref(Some(2), true), Route::Remote);
    assert_eq!(header.wake_by_ref(None, false), Route::Remote);
    assert_eq!(header.references, 4);
    assert!(!header.finish(Poll::Ready(())));
    assert_eq!(header.start(true), Start::Release { freed: false });
    assert!(!header.drop_reference());
    assert_eq!(header.wake(Some(3), false), (Route::Nowhere, true));
}

#[test]
fn a_running_task_without_a_queue_is_let_go() {
    let mut header = pinned::Header::new();
    header.bind(0);
    header.add_reference();
    assert_eq!(header.start(true), Start::Poll);
    assert_eq!(header.start(false), Start::Release { freed: false });
    assert!(header.finish(Poll::Pending));
}

#[test]
fn a_worker_looks_in_order() {
    let mut turn = Turn::new();
    let mut seen = Vec::new();
    for _ in 0..5 {
        seen.push(turn.phase);
        turn.look(false);
    }
    assert_eq!(seen, vec![Phase::Mesh, Phase::Main, Phase::Local, Phase::Injector, Phase::Steal]);
    assert_eq!(turn.phase, Phase::Park);
    turn.look(true);
    assert_eq!(turn, Turn::new());
}

#[test]
fn a_worker_looks_after_io_within_its_budget() {
    let mut turn = Turn::new();
    while turn.phase != Phase::Park {
        turn.look(true);
    }
    assert_eq!(turn.executed, BUDGET);
    let mut turn = Turn { phase: Phase::Main, executed: BUDGET - 1, did_work: false };
    turn.look(true);
    turn.look(true);
    assert_eq!(turn.executed, BUDGET + 1);
    assert_eq!(turn.phase, Phase::Park);
}

#[test]
fn input_is_taken_by_rank() {
    let mut shared = ExecutorShared::new(1);
    let mut executor = LocalExecutor::new().with_id(0);
    assert_eq!(shared.schedule(1), None);
    shared.set_waker(9);
    assert_eq!(shared.schedule_remote(2), Some(9));
    assert_eq!(shared.schedule_pinned(3), Some(9));
    assert_eq!(shared.total_load(), 2);
    assert!(shared.has_input());
    while executor.try_poll_injector(&mut shared) {}
    assert_eq!(executor.queue, VecDeque::from(vec![3, 2, 1]));
    assert_eq!(shared.total_load(), 2);
    assert!(!shared.has_input());
    assert_eq!(shared.schedule_future(4), Ok(Some(9)));
    assert_eq!(shared.schedule_future(5), Err(5));
    assert_eq!(shared.take_future(), Some(4));
    assert_eq!(shared.take_future(), None);
}

#[test]
fn a_worker_is_built_with_or_without_a_shared_side() {
    let (executor, mut shared) = LocalExecutorBuilder::new().config(Config::new()).build(7, 4);
    assert_eq!(executor.id, NO_ID);
    assert_eq!(shared.schedule(1), Some(7));
    let (_, mut shared) = LocalExecutorBuilder::new().with_shared(shared).build(8, 4);
    assert_eq!(shared.schedule_pinned(2), Some(8));
    assert_eq!(shared.take_injected(), Some(1));
}

#[test]
fn a_worker_steals_from_the_others() {
    let mut registry = registry(3);
    let mut thief = LocalExecutor::new().with_id(0);
    registry.schedule(2, 11);
    registry.handles[1].schedule_pinned(12);
    registry.schedule(0, 13);
    assert!(thief.try_steal(&mut registry, 0, 1));
    assert_eq!(thief.queue, VecDeque::from(vec![11]));
    assert!(!thief.try_steal(&mut registry, 0, 1));
    assert_eq!(registry.all()[0].total_load(), 2);
    assert_eq!(registry.all()[1].total_load(), 1);
    assert_eq!(registry.all()[2].total_load(), 0);
    assert_eq!(registry.steal(usize::MAX, usize::MAX), Some(13));
}

#[test]
fn a_worker_runs_what_it_finds() {
    let mut registry = registry(2);
    let mut executor = LocalExecutor::new().with_id(0);
    let mut inbox = Vec::new();
    executor.spawn_local(&mut registry.handles[0].shared, 1);
    registry.schedule(0, 2);
    registry.schedule(1, 3);
    let mut main = true;
    let mut actions = Vec::new();
    loop {
        match executor.step(&mut registry, 0, &mut inbox, 0, main) {
            Action::Continue => {}
            Action::Park => break,
            action => {
                main = false;
                actions.push(action);
            }
        }
    }
    assert_eq!(actions, vec![Action::PollMain, Action::Run(1), Action::Run(2), Action::Run(3)]);
    assert_eq!(registry.all()[0].total_load(), 0);
    assert_eq!(registry.all()[1].total_load(), 0);
}

#[test]
fn a_worker_takes_what_the_mesh_brings() {
    let mut registry = registry(2);
    let (mut net, mut first, second) = pair(2);
    let mut executor = LocalExecutor::new();
    assert_eq!(executor.id, NO_ID);
    executor.attach_mesh(second);
    assert_eq!(executor.id, 1);
    assert_eq!(deliver(&mut registry, &mut net, &mut first, 1, 5), Delivery::Mesh(None));
    let mut action = Action::Continue;
    while action == Action::Continue {
        action = executor.step(&mut registry, 1, &mut net.inboxes[1], 0, false);
    }
    assert_eq!(action, Action::Run(5));
}

#[test]
fn a_worker_sleeps_only_without_work() {
    let mut shared = ExecutorShared::new(1);
    let mut inbox = Vec::new();
    let mut executor = LocalExecutor::new();
    assert!(executor.park_begin(&mut shared, true));
    assert_eq!(shared.state(), RUNNING);
    assert!(!executor.park_begin(&mut shared, false));
    assert_eq!(shared.state(), PARKING);
    shared.schedule_pinned(1);
    assert!(!executor.park_check(&mut shared, &mut inbox));
    assert_eq!(shared.state(), RUNNING);
    assert!(shared.take_pinned() == Some(1));
    assert!(!executor.park_begin(&mut shared, false));
    assert!(executor.park_check(&mut shared, &mut inbox));
    assert_eq!(shared.state(), PARKED);
    assert!(!executor.resume(&mut shared));
    assert_eq!(shared.state(), RUNNING);
    shared.shut_down();
    assert!(executor.resume(&mut shared));
    executor.spawn_local(&mut shared, 3);
    assert!(executor.park_begin(&mut shared, false));
}

#[test]
fn a_spawner_prefers_the_lighter_worker() {
    let mut registry = registry(2);
    let mut spawner = Spawner::new(1);
    let mut copy = Spawner::new(1);
    let worker = copy.p2c_select(&registry).unwrap();
    assert_eq!(copy.seed, 270369);
    assert_eq!(spawner.spawn_job(&mut registry, 8), Ok(None));
    assert_eq!(registry.all()[worker].total_load(), 1);
    for job in 0..20 {
        spawner.spawn_job(&mut registry, job).unwrap();
        assert_ne!(spawner.seed, 0);
    }
    assert_eq!(registry.all()[0].total_load() + registry.all()[1].total_load(), 21);
    let mut nobody = ExecutorRegistry::default();
    assert_eq!(spawner.p2c_select(&nobody), None);
    assert_eq!(spawner.spawn_job(&mut nobody, 5), Err(5));
}

#[test]
fn a_job_goes_to_the_worker_asked_for() {
    let mut registry = registry(2);
    registry.handles[1].shared.set_state(PARKED);
    registry.handles[1].shared.set_waker(6);
    let (mut net, mut first, _) = pair(1);
    let spawner = Spawner::new(1);
    let mut queue = VecDeque::new();
    let mut spawn = |worker, job, queue: &mut VecDeque<u64>| {
        context::spawn_to(&spawner, &mut registry, &mut net, &mut first, queue, worker, job)
    };
    assert_eq!(spawn(0, 1, &mut queue), Ok(Placement::Local));
    assert_eq!(queue, VecDeque::from(vec![1]));
    assert_eq!(spawn(1, 2, &mut queue), Ok(Placement::Sent(Delivery::Mesh(Some(42)))));
    assert_eq!(spawn(1, 3, &mut queue), Ok(Placement::Sent(Delivery::Injected(Some(6)))));
    assert_eq!(spawn(9, 4, &mut queue), Err(4));
    assert_eq!(registry.handles[1].shared.take_pinned(), Some(3));
}

#[test]
fn a_job_falls_back_to_the_injector() {
    let mut registry = registry(2);
    let (mut net, mut first, _) = pair(1);
    let mut spawner = Spawner::new(1);
    let mut spawn = |registry: &mut ExecutorRegistry, job| {
        context::spawn(&mut spawner, registry, &mut net, &mut first, 1, job)
    };
    assert_eq!(spawn(&mut registry, 1), Ok(Delivery::Mesh(None)));
    assert_eq!(spawn(&mut registry, 2), Ok(Delivery::Injected(None)));
    assert_eq!(registry.all()[0].total_load() + registry.all()[1].total_load(), 1);
    assert_eq!(spawn(&mut ExecutorRegistry::default(), 3), Err(3));
    registry.handles[0].id = NO_ID;
    registry.handles[1].id = NO_ID;
    assert_eq!(deliver(&mut registry, &mut net, &mut first, 0, 4), Delivery::Injected(None));
    let sent = spawner.spawn_with_mesh(&mut registry, &mut net, &mut first, 5);
    assert_eq!(sent, Ok(Delivery::Injected(None)));
}

#[test]
fn all_workers_are_told_to_stop() {
    let mut registry = registry(3);
    registry.handles[0].shared.set_waker(10);
    registry.handles[2].shared.set_waker(12);
    assert_eq!(registry.shut_down(), vec![10, 12]);
    assert!(registry.all().iter().all(|h| h.shared.is_shut_down()));
}

#[test]
fn a_task_yields_once() {
    let mut future = yield_now();
    assert!(matches!(future.poll(), Poll::Pending));
    assert!(matches!(future.poll(), Poll::Ready(())));
    assert!(matches!(future.poll(), Poll::Ready(())));
}

#[test]
fn a_pool_is_bound_once() {
    let mut slot = PoolSlot::new();
    assert_eq!(slot.current_pool(), None);
    assert_eq!(slot.try_bind_pool(1), Ok(()));
    let refused = slot.try_bind_pool(2).unwrap_err();
    assert_eq!(refused.message(), "Buffer pool already bound for this thread");
    assert_eq!(slot.current_pool(), Some(&1));
    let mut other = PoolSlot::new();
    other.bind_pool(3);
    assert_eq!(other.current_pool(), Some(&3));
}

#[test]
fn a_runtime_is_laid_out() {
    let builder = RuntimeBuilder::new().config(Config::new().worker_threads(3));
    let plan = match builder.build(16) {
        Ok(plan) => plan,
        Err(_) => panic!("there are workers"),
    };
    assert_eq!(plan.worker_count, 3);
    assert_eq!(plan.barrier, 3);
    assert_eq!(plan.thread_sizes, vec![ARENA_SIZE; 3]);
    assert_eq!(plan.peer_handles, vec![0, 0, 0]);
    assert_eq!(plan.spawned, vec![1, 2]);
    assert_eq!(plan.stealable_workers.len(), 3);
    for (queue, handle) in plan.stealable_workers.iter().zip(plan.registry.all()) {
        assert!(queue.worker.is_empty());
        queue.worker.push(4);
        assert_eq!(handle.shared.stealer().unwrap().steal().success(), Some(4));
    }
    let ids: Vec<usize> = plan.registry.all().iter().map(|h| h.id()).collect();
    assert_eq!(ids, vec![0, 1, 2]);
    assert_eq!(plan.registry.all()[0].shared.state(), RUNNING);
}

#[test]
fn a_runtime_needs_workers() {
    let builder = RuntimeBuilder::new().buffer_config(BufferConfig::Hybrid);
    let plan = match builder.build(1) {
        Ok(plan) => plan,
        Err(_) => panic!("there is a processor"),
    };
    assert_eq!(plan.worker_count, num_cpus::get());
    assert_eq!(plan.thread_sizes[0], TOTAL_SIZE);
    match RuntimeBuilder::new().config(Config::new().worker_threads(0)).build(1) {
        Ok(_) => panic!("there are no workers"),
        Err(e) => {
            assert_eq!(e, IoError::NoWorkers);
            assert_eq!(e.kind(), ErrorKind::InvalidInput);
        }
    }
}
