//! Why a job that was sent is run by the worker it was sent to.

use crate::runtime::executor::local::{Action, LocalExecutor};
use crate::runtime::executor::spawner::{self, Delivery, ExecutorRegistry, HandleModel};
use crate::runtime::mesh::{self, MeshContext, Network, Ring};
use vstd::prelude::*;

verus! {

/// Whether a worker looked into its inbox once, and others may have sent more since.
pub open spec fn advanced(before: Seq<Ring<u64>>, after: Seq<Ring<u64>>) -> bool {
    &&& after.len() == before.len()
    &&& forall|i: int|
        0 <= i < before.len() ==> {
            let rest = if before[i]@.len() > 0 {
                before[i]@.drop_first()
            } else {
                before[i]@
            };
            rest.is_prefix_of((#[trigger] after[i])@)
        }
}

/// What a worker's step leaves of its inbox when it looks there is one look on, and
/// what it found is in its queue.
pub proof fn lemma_step_looks(
    executor: LocalExecutor,
    after: LocalExecutor,
    workers: Seq<HandleModel>,
    workers_after: Seq<HandleModel>,
    inbox: Seq<Ring<u64>>,
    inbox_after: Seq<Ring<u64>>,
    home: usize,
    seed: usize,
    main_woken: bool,
    action: Action,
)
    requires
        executor.stepped(after, workers, workers_after, inbox, inbox_after, home, seed, main_woken, action),
        executor.turn.phase is Mesh,
        executor.mesh is Some,
    ensures
        advanced(inbox, inbox_after),
        after.mesh is Some,
        after.mesh->0.id == executor.mesh->0.id,
        after.queue@ == executor.queue@ + executor.arrives(inbox),
{
}

/// A worker that sends leaves another's looks as they were.
pub proof fn lemma_send_between_looks(
    looked: Seq<Ring<u64>>,
    before: Network,
    after: Network,
    from: int,
    to: int,
    job: u64,
    me: int,
)
    requires
        0 <= me < before.inboxes@.len(),
        0 <= to < before.inboxes@.len(),
        0 <= from < before.inboxes@[to]@.len(),
        advanced(looked, before.inboxes@[me]@),
        after.delivered(before, from, to, job),
    ensures
        advanced(looked, after.inboxes@[me]@),
{
    let (b, a) = (before.inboxes@[me]@, after.inboxes@[me]@);
    assert(after.inboxes@[me]@.len() == before.inboxes@[me]@.len());
    assert forall|i: int| 0 <= i < looked.len() implies ({
        let rest = if looked[i]@.len() > 0 {
            looked[i]@.drop_first()
        } else {
            looked[i]@
        };
        rest.is_prefix_of((#[trigger] a[i])@)
    }) by {
        let rest = if looked[i]@.len() > 0 {
            looked[i]@.drop_first()
        } else {
            looked[i]@
        };
        assert(rest.is_prefix_of(b[i]@));
        if !(me == to && i == from) {
            assert(a[i] == b[i]);
        } else {
            assert(a[i]@ == b[i]@.push(job));
            assert(rest =~= a[i]@.subrange(0, rest.len() as int));
        }
    }
}

/// A job sent to a worker through the mesh is read by that worker: its ends still fit
/// its inbox, and after one look for each job that was in the ring before, the next
/// look finds the job, whatever others send meanwhile. `looks` are the inbox right
/// after the sending and at each later look.
pub proof fn lemma_sent_job_is_read(
    before: Network,
    after: Network,
    sender: MeshContext,
    receiver: LocalExecutor,
    job: u64,
    looks: Seq<Seq<Ring<u64>>>,
)
    requires
        before.carries(sender),
        receiver.mesh is Some,
        receiver.mesh->0.id < sender.egress@.len(),
        before.carries(receiver.mesh->0),
        receiver.reads(before.inboxes@[receiver.mesh->0.id as int]@),
        after.delivered(before, sender.id as int, receiver.mesh->0.id as int, job),
        looks.len() > before.inboxes@[receiver.mesh->0.id as int]@[sender.id as int]@.len(),
        looks[0] == after.inboxes@[receiver.mesh->0.id as int]@,
        forall|k: int| 0 <= k < looks.len() - 1 ==> advanced(#[trigger] looks[k], looks[k + 1]),
    ensures
        receiver.reads(looks[0]),
        ({
            let n = before.inboxes@[receiver.mesh->0.id as int]@[sender.id as int]@.len();
            receiver.arrives(looks[n as int]).contains(job)
        }),
{
    let to = receiver.mesh->0.id as int;
    let from = sender.id as int;
    let n = before.inboxes@[to]@[from]@.len() as int;
    mesh::lemma_delivery_keeps_ends(before, after, sender, receiver.mesh->0, to, job);
    assert(from < before.inboxes@[to]@.len());
    assert(after.inboxes@[to]@.len() == before.inboxes@[to]@.len());
    lemma_job_moves_up(looks, from, n, job, n);
    let inbox = looks[n];
    lemma_first_arrives(inbox, from, inbox.len() as int);
}

/// A job that was spawned on a given worker is in a place that this worker alone takes
/// from: its ring from the spawning worker, or its queue of jobs for it alone. It comes
/// back only where there is no such worker.
pub proof fn lemma_spawned_where_asked(
    registry: ExecutorRegistry,
    registry_after: ExecutorRegistry,
    net: Network,
    net_after: Network,
    mesh: MeshContext,
    worker_id: usize,
    job: u64,
    spawned: Result<Delivery, u64>,
)
    requires
        net.carries(mesh),
        spawner::delivers_to(registry, registry_after, net, net_after, mesh, worker_id, job, spawned),
    ensures
        match spawned {
            Ok(Delivery::Mesh(_)) => net_after.inboxes@[worker_id as int]@[mesh.id as int]@.contains(job),
            Ok(Delivery::Injected(_)) => {
                &&& worker_id < registry_after@.len()
                &&& registry_after@[worker_id as int].shared.pinned.contains(job)
            },
            Err(back) => back == job && worker_id >= registry@.len(),
        },
{
    if net.has_room(mesh, worker_id) {
        let ring = net_after.inboxes@[worker_id as int]@[mesh.id as int]@;
        assert(ring[ring.len() - 1] == job);
    } else if worker_id < registry@.len() {
        let pinned = registry_after@[worker_id as int].shared.pinned;
        assert(pinned[pinned.len() - 1] == job);
    }
}

/// A job moves up by one place with each look.
proof fn lemma_job_moves_up(looks: Seq<Seq<Ring<u64>>>, from: int, n: int, job: u64, k: int)
    requires
        0 <= k <= n < looks.len(),
        0 <= from < looks[0].len(),
        n < looks[0][from]@.len(),
        looks[0][from]@[n] == job,
        forall|k: int| 0 <= k < looks.len() - 1 ==> advanced(#[trigger] looks[k], looks[k + 1]),
    ensures
        looks[k].len() == looks[0].len(),
        n - k < looks[k][from]@.len(),
        looks[k][from]@[n - k] == job,
    decreases k,
{
    if k > 0 {
        lemma_job_moves_up(looks, from, n, job, k - 1);
        assert(advanced(looks[k - 1], looks[k - 1 + 1]));
        let (b, a) = (looks[k - 1][from]@, looks[k][from]@);
        assert(b.drop_first().is_prefix_of(a));
        assert(b.drop_first()[n - k] == a[n - k]);
    }
}

/// A look takes the oldest job of each ring.
proof fn lemma_first_arrives(inbox: Seq<Ring<u64>>, from: int, n: int)
    requires
        0 <= from < n <= inbox.len(),
        inbox[from]@.len() > 0,
    ensures
        MeshContext::arrived(inbox, n).contains(inbox[from]@[0]),
    decreases n,
{
    let all = MeshContext::arrived(inbox, n);
    if n - 1 == from {
        assert(all.last() == inbox[from]@[0]);
        assert(all[all.len() - 1] == inbox[from]@[0]);
    } else {
        lemma_first_arrives(inbox, from, n - 1);
        let most = MeshContext::arrived(inbox, n - 1);
        let i = choose|i: int| 0 <= i < most.len() && most[i] == inbox[from]@[0];
        assert(all[i] == inbox[from]@[0]);
    }
}

/// No task of a worker's own is lost or overtaken: a step runs the first one or leaves
/// it first, and moves the others up behind it or leaves them in place.
pub proof fn lemma_task_moves_up(
    executor: LocalExecutor,
    after: LocalExecutor,
    workers: Seq<HandleModel>,
    workers_after: Seq<HandleModel>,
    inbox: Seq<Ring<u64>>,
    inbox_after: Seq<Ring<u64>>,
    home: usize,
    seed: usize,
    main_woken: bool,
    action: Action,
    place: int,
)
    requires
        executor.stepped(after, workers, workers_after, inbox, inbox_after, home, seed, main_woken, action),
        0 <= place < executor.queue@.len(),
    ensures
        if executor.turn.phase is Local {
            &&& action == Action::Run(executor.queue@[0])
            &&& place > 0 ==> place - 1 < after.queue@.len() && after.queue@[place - 1]
                == executor.queue@[place]
        } else {
            &&& !(action is Run)
            &&& place < after.queue@.len()
            &&& after.queue@[place] == executor.queue@[place]
        },
{
}

} // verus!
