//! What holds of workers, their loads and their turns, whatever they do.

use crate::runtime::context;
use crate::runtime::executor::local::{self, Action, LocalExecutor};
use crate::runtime::executor::shared::{self, SharedModel};
use crate::runtime::executor::spawner::{self, Delivery, ExecutorRegistry, HandleModel, Spawner};
use crate::runtime::executor::turn::{Phase, Turn};
use crate::runtime::mesh::{self, MeshContext, Network, Ring};
use vstd::prelude::*;

verus! {

/// Of two workers, the chosen one is one of them and no busier than either. Of two
/// that are equally busy it is the first.
pub proof fn lemma_lighter_is_no_busier(workers: Seq<HandleModel>, i: int, j: int)
    ensures
        ({
            let w = spawner::lighter(workers, i, j);
            &&& w == i || w == j
            &&& workers[w].shared.load() <= workers[i].shared.load()
            &&& workers[w].shared.load() <= workers[j].shared.load()
            &&& workers[i].shared.load() == workers[j].shared.load() ==> w == i
        }),
{
}

/// The spawner's choice is one of two workers, the one that the seed's remainder picks
/// and the one that the remainder of its upper half picks, and is no busier than either.
pub proof fn lemma_choice_is_no_busier(seed: u64, workers: Seq<HandleModel>)
    requires
        0 < workers.len() <= u64::MAX,
    ensures
        ({
            let n = workers.len() as int;
            let (i, j) = (seed as int % n, seed as int / 0x1_0000_0000 % n);
            let w = Spawner::choice(seed, workers);
            &&& 0 <= w < n
            &&& w == i || w == j
            &&& workers[w].shared.load() <= workers[i].shared.load()
            &&& workers[w].shared.load() <= workers[j].shared.load()
        }),
{
    assert(seed >> 32u64 == seed / 0x1_0000_0000u64) by (bit_vector);
    let n = workers.len() as int;
    vstd::arithmetic::div_mod::lemma_mod_bound(seed as int, n);
    vstd::arithmetic::div_mod::lemma_mod_bound(seed as int / 0x1_0000_0000, n);
}

/// The worker that a ticket stands for is one of two, the ticket's remainder and the one
/// seven places on, and is no busier than either.
pub proof fn lemma_ticket_is_no_busier(ticket: usize, workers: Seq<HandleModel>)
    requires
        0 < workers.len(),
    ensures
        ({
            let n = workers.len() as int;
            let (i, j) = (ticket as int % n, (ticket + 7) % n);
            let (a, b) = context::pair(ticket, n);
            let w = spawner::lighter(workers, a, b);
            &&& 0 <= w < n
            &&& w == i || w == j
            &&& workers[w].shared.load() <= workers[i].shared.load()
            &&& workers[w].shared.load() <= workers[j].shared.load()
        }),
{
    let n = workers.len() as int;
    vstd::arithmetic::div_mod::lemma_add_mod_noop(ticket as int, 7, n);
    vstd::arithmetic::div_mod::lemma_add_mod_noop(ticket as int % n, 7, n);
    vstd::arithmetic::div_mod::lemma_mod_twice(ticket as int, n);
    vstd::arithmetic::div_mod::lemma_mod_bound(ticket as int, n);
    vstd::arithmetic::div_mod::lemma_mod_bound(ticket + 7, n);
}

/// A counter that does not run over is moved by exactly the number.
pub proof fn lemma_moved_by(load: usize, by: int)
    requires
        0 <= load + by <= usize::MAX,
    ensures
        shared::moved(load, by) == load + by,
{
    vstd::arithmetic::div_mod::lemma_small_mod((load + by) as nat, (usize::MAX + 1) as nat);
}

/// How busy a worker is: the jobs handed in to it and its own tasks together.
pub proof fn lemma_load_is_sum(worker: SharedModel)
    requires
        worker.injected_load + worker.local_load <= usize::MAX,
    ensures
        worker.load() == worker.injected_load + worker.local_load,
{
    lemma_moved_by(worker.injected_load, worker.local_load as int);
}

/// What is handed in goes behind the rest of its own queue, and leaves the others and
/// all else alone. A job makes the worker busier by one, a woken task does not.
pub proof fn lemma_handed_in(worker: SharedModel, job: u64)
    requires
        worker.injected_load + worker.local_load < usize::MAX,
    ensures
        ({
            let s = worker.scheduled(job);
            &&& s.injector.len() == worker.injector.len() + 1
            &&& s.injector.last() == job
            &&& s.injector.drop_last() == worker.injector
            &&& s.pinned == worker.pinned && s.remote == worker.remote && s.futures == worker.futures
            &&& s.load() == worker.load() + 1
            &&& s.local_load == worker.local_load
            &&& s.waker == worker.waker && s.state == worker.state && s.shutdown == worker.shutdown
        }),
        ({
            let s = worker.scheduled_pinned(job);
            &&& s.pinned.len() == worker.pinned.len() + 1
            &&& s.pinned.last() == job
            &&& s.pinned.drop_last() == worker.pinned
            &&& s.injector == worker.injector && s.remote == worker.remote && s.futures == worker.futures
            &&& s.load() == worker.load() + 1
            &&& s.local_load == worker.local_load
            &&& s.waker == worker.waker && s.state == worker.state && s.shutdown == worker.shutdown
        }),
        ({
            let s = worker.scheduled_remote(job);
            &&& s.remote.len() == worker.remote.len() + 1
            &&& s.remote.last() == job
            &&& s.remote.drop_last() == worker.remote
            &&& s.injector == worker.injector && s.pinned == worker.pinned && s.futures == worker.futures
            &&& s.load() == worker.load()
            &&& s.waker == worker.waker && s.state == worker.state && s.shutdown == worker.shutdown
        }),
{
    lemma_moved_by(worker.injected_load, 1);
    lemma_load_is_sum(worker);
    lemma_load_is_sum(worker.scheduled(job));
    lemma_load_is_sum(worker.scheduled_pinned(job));
    assert(worker.scheduled(job).injector.drop_last() =~= worker.injector);
    assert(worker.scheduled_pinned(job).pinned.drop_last() =~= worker.pinned);
    assert(worker.scheduled_remote(job).remote.drop_last() =~= worker.remote);
}

/// What is taken was the oldest of its queue. The rest stays in order, and so does all
/// else. Taking a job makes the worker less busy by one.
pub proof fn lemma_taken_out(worker: SharedModel)
    requires
        worker.injected_load + worker.local_load <= usize::MAX,
    ensures
        worker.injector.len() > 0 && worker.injected_load > 0 ==> {
            let s = worker.without_injected();
            &&& s.injector == worker.injector.skip(1)
            &&& s.pinned == worker.pinned && s.remote == worker.remote && s.futures == worker.futures
            &&& s.load() == worker.load() - 1
            &&& s.waker == worker.waker && s.state == worker.state && s.shutdown == worker.shutdown
        },
        worker.pinned.len() > 0 && worker.injected_load > 0 ==> {
            let s = worker.without_pinned();
            &&& s.pinned == worker.pinned.skip(1)
            &&& s.injector == worker.injector && s.remote == worker.remote && s.futures == worker.futures
            &&& s.load() == worker.load() - 1
            &&& s.waker == worker.waker && s.state == worker.state && s.shutdown == worker.shutdown
        },
        worker.remote.len() > 0 ==> {
            let s = worker.without_remote();
            &&& s.remote == worker.remote.skip(1)
            &&& s.injector == worker.injector && s.pinned == worker.pinned && s.futures == worker.futures
            &&& s.load() == worker.load()
            &&& s.waker == worker.waker && s.state == worker.state && s.shutdown == worker.shutdown
        },
{
    lemma_load_is_sum(worker);
    if worker.injected_load > 0 {
        lemma_moved_by(worker.injected_load, -1);
        lemma_load_is_sum(worker.without_injected());
        lemma_load_is_sum(worker.without_pinned());
    }
    assert(worker.injector.len() > 0 ==> worker.injector.drop_first() =~= worker.injector.skip(1));
    assert(worker.pinned.len() > 0 ==> worker.pinned.drop_first() =~= worker.pinned.skip(1));
    assert(worker.remote.len() > 0 ==> worker.remote.drop_first() =~= worker.remote.skip(1));
}

/// A job that a worker makes its own keeps it as busy as it was, whether it was handed in
/// for it alone or for anybody.
pub proof fn lemma_taking_keeps_load(queue: Seq<u64>, worker: SharedModel)
    requires
        worker.injected_load + worker.local_load <= usize::MAX,
        worker.pinned.len() > 0 || worker.injector.len() > 0 ==> worker.injected_load > 0,
    ensures
        local::injector_polled(queue, worker).1.load() == worker.load(),
        worker.has_input() ==> local::injector_polled(queue, worker).0.len() == queue.len() + 1,
{
    let after = local::injector_polled(queue, worker).1;
    lemma_load_is_sum(worker);
    if worker.injected_load > 0 {
        lemma_moved_by(worker.injected_load, -1);
    }
    if worker.injected_load > 0 || worker.local_load < usize::MAX {
        lemma_moved_by(worker.local_load, 1);
    }
    lemma_load_is_sum(after);
}

/// A worker's own tasks are counted one by one.
pub proof fn lemma_own_tasks_counted(worker: SharedModel, n: int)
    requires
        0 <= worker.local_load + n,
        worker.injected_load + worker.local_load + n <= usize::MAX,
        worker.injected_load + worker.local_load <= usize::MAX,
    ensures
        worker.enqueued(n).load() == worker.load() + n,
        worker.enqueued(n).injected_load == worker.injected_load,
        worker.enqueued(n).injector == worker.injector,
        worker.enqueued(n).pinned == worker.pinned,
        worker.enqueued(n).remote == worker.remote,
        worker.enqueued(n).state == worker.state,
{
    lemma_moved_by(worker.local_load, n);
    lemma_load_is_sum(worker);
    lemma_load_is_sum(worker.enqueued(n));
}

/// A worker sleeps only if nothing is left for it: none of its queues holds anything and
/// nobody sent anything. While it may sleep the others see so and notify it; while it
/// runs they need not.
pub proof fn lemma_sleeps_only_without_work(worker: SharedModel, arrived: nat, handle: usize)
    requires
        handle != 0,
    ensures
        worker.may_sleep(arrived) <==> arrived == 0 && worker.pinned.len() == 0 && worker.remote.len() == 0
            && worker.injector.len() == 0,
        worker.has_input() <==> worker.pinned.len() + worker.remote.len() + worker.injector.len() > 0,
        spawner::to_notify(worker.announced().state, handle) == Some(handle),
        worker.may_sleep(arrived) ==> worker.checked(arrived).state == 2,
        worker.may_sleep(arrived) ==> spawner::to_notify(worker.checked(arrived).state, handle) == Some(handle),
        !worker.may_sleep(arrived) ==> worker.checked(arrived).state == 0,
        worker.announced().state == 1,
        worker.resumed().state == 0,
        spawner::to_notify(worker.resumed().state, handle) is None,
        worker.announced().load() == worker.load(),
        worker.resumed().load() == worker.load(),
{
}

/// Who sleeps or is about to is notified through its handle, and nobody else is. Zero is
/// no handle.
pub proof fn lemma_who_is_notified(state: u8, handle: usize)
    ensures
        mesh::must_notify(state) <==> state == 1 || state == 2,
        spawner::to_notify(state, handle) is Some <==> handle != 0 && (state == 1 || state == 2),
        spawner::to_notify(state, handle) matches Some(h) ==> h == handle,
{
}

/// A worker takes from the first other one, looking round from a place, that has a job
/// which any worker may take: none before it has any. It takes from nobody only if none
/// of the others has any.
pub proof fn lemma_first_with_job(workers: Seq<HandleModel>, me: usize, start: int)
    ensures
        match spawner::victim(workers, me, start, 0) {
            Some(v) => {
                &&& 0 <= v < workers.len()
                &&& v != me
                &&& workers[v].shared.injector.len() > 0
                &&& exists|d: int| first_at(workers, me, start, v, d)
            },
            None => forall|w: int|
                0 <= w < workers.len() && w != me ==> (#[trigger] workers[w]).shared.injector.len() == 0,
        },
{
    lemma_first_from(workers, me, start, 0);
    let n = workers.len() as int;
    match spawner::victim(workers, me, start, 0) {
        Some(v) => {
            let d = choose|d: int| 0 <= d && first_at(workers, me, start, v, d);
            assert(first_at(workers, me, start, v, d));
        },
        None => {
            assert forall|w: int| 0 <= w < n && w != me implies (
            #[trigger] workers[w]).shared.injector.len() == 0 by {
                let d = (w - start) % n;
                vstd::arithmetic::div_mod::lemma_mod_bound(w - start, n);
                vstd::arithmetic::div_mod::lemma_add_mod_noop_right(start, w - start, n);
                vstd::arithmetic::div_mod::lemma_small_mod(w as nat, n as nat);
                assert((start + d) % n == w);
                assert(passed(workers, me, start, d));
            }
        },
    }
}

/// Whether nothing is to be taken `d` places on.
pub open spec fn passed(workers: Seq<HandleModel>, me: usize, start: int, d: int) -> bool {
    let w = (start + d) % workers.len() as int;
    w == me || workers[w].shared.injector.len() == 0
}

/// Whether a worker is `d` places on, and nothing is to be taken before.
pub open spec fn first_at(workers: Seq<HandleModel>, me: usize, start: int, v: int, d: int) -> bool {
    &&& 0 <= d < workers.len()
    &&& v == (start + d) % workers.len() as int
    &&& forall|e: int| 0 <= e < d ==> #[trigger] passed(workers, me, start, e)
}

proof fn lemma_first_from(workers: Seq<HandleModel>, me: usize, start: int, i: int)
    requires
        0 <= i,
        forall|e: int| 0 <= e < i && e < workers.len() ==> #[trigger] passed(workers, me, start, e),
    ensures
        match spawner::victim(workers, me, start, i) {
            Some(v) => {
                &&& 0 <= v < workers.len()
                &&& v != me
                &&& workers[v].shared.injector.len() > 0
                &&& exists|d: int| 0 <= d && first_at(workers, me, start, v, d)
            },
            None => forall|e: int| 0 <= e < workers.len() ==> #[trigger] passed(workers, me, start, e),
        },
    decreases workers.len() - i,
{
    let n = workers.len() as int;
    if i < n {
        let idx = (start + i) % n;
        vstd::arithmetic::div_mod::lemma_mod_bound(start + i, n);
        assert(spawner::around(start, i, n) == idx);
        if idx != me && workers[idx].shared.injector.len() > 0 {
            assert(first_at(workers, me, start, idx, i));
        } else {
            assert(passed(workers, me, start, i));
            lemma_first_from(workers, me, start, i + 1);
        }
    }
}

/// A worker that takes another's job has it among its own tasks; the other has one job
/// less, its oldest. Nobody else notices.
pub proof fn lemma_taken_from_another(workers: Seq<HandleModel>, home: usize, start: int, other: int)
    requires
        home < workers.len(),
        0 <= other < workers.len(),
    ensures
        ({
            let after = LocalExecutor::robbed(workers, home as int, start);
            match spawner::victim(workers, home, start, 0) {
                Some(v) => {
                    &&& after.len() == workers.len()
                    &&& after[v].shared.injector == workers[v].shared.injector.skip(1)
                    &&& after[home as int].shared.injector == workers[home as int].shared.injector
                    &&& workers[home as int].shared.local_load < usize::MAX
                        ==> after[home as int].shared.local_load == workers[home as int].shared.local_load + 1
                    &&& workers[v].shared.injected_load > 0 ==> after[v].shared.injected_load
                        == workers[v].shared.injected_load - 1
                    &&& other != v && other != home ==> after[other] == workers[other]
                },
                None => after == workers,
            }
        }),
{
    lemma_first_with_job(workers, home, start);
    if let Some(v) = spawner::victim(workers, home, start, 0) {
        assert(workers[v].shared.injector.drop_first() =~= workers[v].shared.injector.skip(1));
        if workers[home as int].shared.local_load < usize::MAX {
            lemma_moved_by(workers[home as int].shared.local_load, 1);
        }
        if workers[v].shared.injected_load > 0 {
            lemma_moved_by(workers[v].shared.injected_load, -1);
        }
    }
}

/// The place from which a worker looks round moves on with every task that it ran.
pub proof fn lemma_looks_from(seed: usize, executed: usize)
    requires
        seed + executed <= usize::MAX,
    ensures
        LocalExecutor::look_from(seed, executed) == seed + executed,
{
}

/// A change to one worker's shared side is a change to nothing else.
pub proof fn lemma_only_one_changes(workers: Seq<HandleModel>, i: int, side: SharedModel, j: int)
    requires
        0 <= i < workers.len(),
        0 <= j < workers.len(),
    ensures
        spawner::with_shared(workers, i, side).len() == workers.len(),
        spawner::with_shared(workers, i, side)[i].shared == side,
        spawner::with_shared(workers, i, side)[i].id == workers[i].id,
        j != i ==> spawner::with_shared(workers, i, side)[j] == workers[j],
{
}

/// All workers with a driver are woken, and nothing else: in order, where all have one.
pub proof fn lemma_all_drivers(workers: Seq<HandleModel>, handle: usize)
    ensures
        spawner::drivers(workers).contains(handle) <==> exists|i: int|
            0 <= i < workers.len() && (#[trigger] workers[i]).shared.waker == Some(handle),
        spawner::drivers(workers).len() <= workers.len(),
        (forall|i: int| 0 <= i < workers.len() ==> (#[trigger] workers[i]).shared.waker is Some) ==> {
            &&& spawner::drivers(workers).len() == workers.len()
            &&& forall|i: int|
                0 <= i < workers.len() ==> #[trigger] spawner::drivers(workers)[i]
                    == workers[i].shared.waker->0
        },
    decreases workers.len(),
{
    let all = spawner::drivers(workers);
    if workers.len() > 0 {
        let most = workers.drop_last();
        let fewer = spawner::drivers(most);
        lemma_all_drivers(most, handle);
        if exists|i: int| 0 <= i < workers.len() && (#[trigger] workers[i]).shared.waker == Some(handle) {
            let i = choose|i: int|
                0 <= i < workers.len() && (#[trigger] workers[i]).shared.waker == Some(handle);
            if i == workers.len() - 1 {
                assert(all[all.len() - 1] == handle);
            } else {
                assert(most[i] == workers[i]);
                let k = choose|k: int| 0 <= k < fewer.len() && fewer[k] == handle;
                assert(all[k] == handle);
            }
        }
        if all.contains(handle) {
            let k = choose|k: int| 0 <= k < all.len() && all[k] == handle;
            if k < fewer.len() {
                assert(fewer[k] == handle);
                let i = choose|i: int|
                    0 <= i < most.len() && (#[trigger] most[i]).shared.waker == Some(handle);
                assert(workers[i].shared.waker == Some(handle));
            } else {
                assert(workers[workers.len() - 1].shared.waker == Some(handle));
            }
        }
        if forall|i: int| 0 <= i < workers.len() ==> (#[trigger] workers[i]).shared.waker is Some {
            assert forall|i: int| 0 <= i < most.len() implies (#[trigger] most[i]).shared.waker is Some by {
                assert(most[i] == workers[i]);
            }
            assert(workers[workers.len() - 1].shared.waker is Some);
        }
    }
}

/// A job that was delivered to a worker is behind all others in the ring that leads to
/// it, or in the queue that it was handed in to, and nowhere else. Whoever sleeps is
/// named to be woken.
pub proof fn lemma_delivered_to_worker(
    registry: ExecutorRegistry,
    registry_after: ExecutorRegistry,
    net: Network,
    net_after: Network,
    mesh: MeshContext,
    worker: int,
    job: u64,
    spawned: Result<Delivery, u64>,
)
    requires
        net.carries(mesh),
        0 <= worker < registry@.len(),
        spawner::delivers(registry, registry_after, net, net_after, mesh, worker, job, spawned),
    ensures
        match spawned {
            Ok(Delivery::Mesh(notified)) => {
                let id = registry@[worker].id as int;
                let (ring, before) = (net_after.inboxes@[id]@[mesh.id as int]@, net.inboxes@[id]@[mesh.id as int]@);
                &&& registry@[worker].id < usize::MAX
                &&& ring.len() == before.len() + 1
                &&& ring.last() == job
                &&& ring.drop_last() == before
                &&& registry_after@ == registry@
                &&& id < registry@.len() && (registry@[id].shared.state == 1 || registry@[id].shared.state == 2)
                    && net.peer_handles@[id] != 0 ==> notified == Some(net.peer_handles@[id])
                &&& id < registry@.len() && registry@[id].shared.state == 0 ==> notified is None
            },
            Ok(Delivery::Injected(wake)) => {
                let (queue, before) = (registry_after@[worker].shared.injector, registry@[worker].shared.injector);
                &&& queue.len() == before.len() + 1
                &&& queue.last() == job
                &&& queue.drop_last() == before
                &&& wake == registry@[worker].shared.waker
                &&& registry@[worker].id < mesh.egress@.len() && registry@[worker].id < usize::MAX ==> {
                    let ring = net.inboxes@[registry@[worker].id as int]@[mesh.id as int];
                    ring@.len() >= ring.capacity()
                }
            },
            Err(_) => false,
        },
{
    let id = registry@[worker].id as int;
    if spawned matches Ok(Delivery::Mesh(_)) {
        let (ring, before) = (net_after.inboxes@[id]@[mesh.id as int]@, net.inboxes@[id]@[mesh.id as int]@);
        assert(ring.drop_last() =~= before);
    } else {
        let (queue, before) = (registry_after@[worker].shared.injector, registry@[worker].shared.injector);
        assert(queue.drop_last() =~= before);
    }
}

/// A look into the inbox takes at most one job of each sender, the oldest, and takes one
/// of every sender that has any.
pub proof fn lemma_one_of_each(inbox: Seq<Ring<u64>>, n: int)
    requires
        0 <= n <= inbox.len(),
    ensures
        MeshContext::arrived(inbox, n).len() <= n,
        (forall|i: int| 0 <= i < n ==> (#[trigger] inbox[i])@.len() > 0) ==> {
            &&& MeshContext::arrived(inbox, n).len() == n
            &&& forall|i: int| 0 <= i < n ==> #[trigger] MeshContext::arrived(inbox, n)[i] == inbox[i]@[0]
        },
        MeshContext::arrived(inbox, n).len() == 0 <==> forall|i: int|
            0 <= i < n ==> (#[trigger] inbox[i])@.len() == 0,
    decreases n,
{
    if n > 0 {
        lemma_one_of_each(inbox, n - 1);
        assert(inbox[n - 1]@.len() >= 0);
    }
}

/// What a step of a worker does at each place: it runs the first of its own tasks if it
/// has any, polls the main future exactly where that was woken, and looks after I/O only
/// at the end of a turn.
pub proof fn lemma_step_acts(
    executor: LocalExecutor,
    after: LocalExecutor,
    workers: Seq<HandleModel>,
    workers_after: Seq<HandleModel>,
    inbox: Seq<Ring<u64>>,
    inbox_after: Seq<Ring<u64>>,
    home: usize,
    seed: usize,
    main_woken: bool,
    action: Action,
)
    requires
        executor.stepped(after, workers, workers_after, inbox, inbox_after, home, seed, main_woken, action),
        executor.turn.wf(),
    ensures
        action is Park <==> executor.turn.phase is Park,
        action is PollMain <==> executor.turn.phase is Main && main_woken,
        action is Run <==> executor.turn.phase is Local && executor.queue@.len() > 0,
        action matches Action::Run(task) ==> {
            &&& task == executor.queue@[0]
            &&& after.queue@ == executor.queue@.skip(1)
        },
        !(action is Run) ==> executor.queue@.is_prefix_of(after.queue@),
        !(executor.turn.phase is Mesh) ==> inbox_after == inbox,
        action is Run || action is PollMain ==> after.turn.executed == executor.turn.executed + 1,
        action is Continue ==> after.turn.executed == executor.turn.executed,
{
    if action is Run {
        assert(executor.queue@.drop_first() =~= executor.queue@.skip(1));
    } else {
        assert(executor.queue@ =~= after.queue@.subrange(0, executor.queue@.len() as int));
    }
}

/// A worker looks for work in one order: what others sent, the main future, its own
/// tasks, what was handed in, what others have, and last for I/O.
pub proof fn lemma_order_of_looks(turn: Turn)
    requires
        turn.wf(),
    ensures
        Turn::start().phase is Mesh,
        Turn::start().executed == 0,
        turn.phase is Mesh ==> forall|found: bool| (#[trigger] turn.looked(found)).phase is Main,
        turn.phase is Main ==> forall|found: bool| (#[trigger] turn.looked(found)).phase is Local,
        turn.phase is Local ==> turn.looked(false).phase is Injector,
        turn.phase is Injector ==> turn.looked(false).phase is Steal,
        turn.phase is Steal && !turn.did_work ==> turn.looked(false).phase is Park,
        turn.phase is Park ==> forall|found: bool| #[trigger] turn.looked(found) == Turn::start(),
{
}

/// A worker that finds something goes on, until it has run sixty-four tasks since it last
/// looked after I/O: then I/O comes first.
pub proof fn lemma_tasks_between_io(turn: Turn)
    requires
        turn.wf(),
    ensures
        turn.phase is Local ==> (turn.looked(true).phase is Mesh <==> turn.executed + 1 < 64),
        turn.phase is Local ==> (turn.looked(true).phase is Park <==> turn.executed + 1 >= 64),
        turn.phase is Injector ==> (turn.looked(true).phase is Mesh <==> turn.executed < 64),
        turn.phase is Steal ==> (turn.looked(true).phase is Mesh <==> turn.executed < 64),
        turn.phase is Steal && turn.did_work ==> (turn.looked(false).phase is Mesh <==> turn.executed < 64),
        turn.executed <= 65,
{
}

} // verus!
