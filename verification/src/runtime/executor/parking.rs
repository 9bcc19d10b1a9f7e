//! Why a worker does not sleep over a job.

use crate::runtime::executor::shared::{self, SharedModel};
use crate::runtime::executor::spawner;
use crate::runtime::mesh;
use vstd::prelude::*;

verus! {

/// How far a worker is on its way to sleep.
pub ghost enum Sleeper {
    /// About to announce that it may sleep.
    Idle,
    /// About to look into its queues.
    Announced,
    /// About to commit to its sleep: the queues were empty.
    Looked,
    /// Asleep, until its driver is told to wake up.
    Asleep,
    /// Awake, to run what it has and to look again.
    Awake,
}

/// How far another worker is with a job that it sends.
pub ghost enum Sender {
    /// About to put the job into the ring.
    Ready,
    /// About to look at the receiver's state.
    Queued,
    /// Done.
    Done,
}

/// A worker on its way to sleep, and another that sends it a job through the ring
/// between them. The moves are those of `park_begin`, `park_check`, `resume` and
/// `Network::send`; the two that do more than one thing are taken apart. `Network::send`
/// is handed the receiver's state: its callers have the ring and the state to themselves
/// meanwhile, so it is the same before and after the job is in the ring. Here the sender
/// looks afterwards, as it has to where the worker moves in between.
#[verifier::ext_equal]
pub ghost struct Race {
    pub shared: SharedModel,
    /// The worker's own tasks.
    pub queue: Seq<u64>,
    /// What the ring holds.
    pub ring: Seq<u64>,
    /// Whether the driver was told to wake up.
    pub signalled: bool,
    pub worker: Sleeper,
    pub sender: Sender,
    pub job: u64,
    /// The handle of the worker's driver.
    pub handle: usize,
}

impl Race {
    /// Neither has moved yet.
    pub open spec fn fresh(self) -> bool {
        &&& self.shared.state == mesh::RUNNING
        &&& !self.signalled
        &&& self.worker is Idle
        &&& self.sender is Ready
        &&& self.handle != 0
    }

    /// What a look into the ring takes out.
    pub open spec fn arrived(self) -> Seq<u64> {
        if self.ring.len() > 0 {
            seq![self.ring[0]]
        } else {
            Seq::empty()
        }
    }

    pub open spec fn worker_moved(self) -> Race {
        match self.worker {
            Sleeper::Idle => if self.queue.len() > 0 {
                Race { worker: Sleeper::Awake, ..self }
            } else {
                Race { shared: self.shared.announced(), worker: Sleeper::Announced, ..self }
            },
            Sleeper::Announced => if self.shared.may_sleep(self.arrived().len()) {
                Race { worker: Sleeper::Looked, ..self }
            } else {
                Race {
                    shared: self.shared.checked(self.arrived().len()),
                    queue: self.queue + self.arrived(),
                    ring: self.ring.skip(self.arrived().len() as int),
                    worker: Sleeper::Awake,
                    ..self
                }
            },
            Sleeper::Looked => Race {
                shared: self.shared.with_state(mesh::PARKED),
                worker: Sleeper::Asleep,
                ..self
            },
            Sleeper::Asleep => if self.signalled {
                Race {
                    shared: self.shared.resumed(),
                    signalled: false,
                    worker: Sleeper::Awake,
                    ..self
                }
            } else {
                self
            },
            Sleeper::Awake => self,
        }
    }

    pub open spec fn sender_moved(self) -> Race {
        match self.sender {
            Sender::Ready => Race { ring: self.ring.push(self.job), sender: Sender::Queued, ..self },
            Sender::Queued => Race {
                signalled: self.signalled || spawner::to_notify(self.shared.state, self.handle) is Some,
                sender: Sender::Done,
                ..self
            },
            Sender::Done => self,
        }
    }

    /// Whether the job is where the worker finds it.
    pub open spec fn holds_job(self) -> bool {
        self.ring.contains(self.job) || self.queue.contains(self.job)
    }

    /// The state is what the worker announced, a job that was sent is where the worker
    /// finds it, and one that came after its last look is signalled once its sender is
    /// done.
    pub open spec fn safe(self) -> bool {
        &&& self.handle != 0
        &&& self.worker is Idle || self.worker is Awake ==> self.shared.state == mesh::RUNNING
        &&& self.worker is Announced || self.worker is Looked ==> self.shared.state == mesh::PARKING
        &&& self.worker is Asleep ==> self.shared.state == mesh::PARKED
        &&& self.worker is Announced || self.worker is Looked || self.worker is Asleep ==> self.queue.len() == 0
        &&& !(self.sender is Ready) ==> self.holds_job()
        &&& (self.worker is Looked || self.worker is Asleep) && self.sender is Done ==> self.signalled
    }
}

/// The last look and the commit together are what `park_check` does to a worker that
/// may sleep, where nothing comes between.
pub proof fn lemma_look_and_commit(race: Race)
    requires
        race.worker is Announced,
        race.shared.may_sleep(race.arrived().len()),
    ensures
        race.worker_moved().worker_moved().shared == race.shared.checked(race.arrived().len()),
        race.worker_moved().worker_moved().worker is Asleep,
{
    vstd::arithmetic::div_mod::lemma_small_mod(race.shared.local_load as nat, (usize::MAX + 1) as nat);
    assert(shared::moved(race.shared.local_load, 0) == race.shared.local_load);
}

/// However the moves of the two interleave, the worker does not sleep over the job:
/// once the sender is done, a worker that sleeps is woken by its next move, and the
/// job is in its ring or its queue.
pub proof fn lemma_no_sleep_over_job(race: Race)
    ensures
        race.fresh() ==> race.safe(),
        race.safe() ==> race.worker_moved().safe(),
        race.safe() ==> race.sender_moved().safe(),
        race.safe() && race.sender is Done ==> race.holds_job(),
        race.safe() && race.worker is Asleep && race.sender is Done ==> race.worker_moved().worker is Awake,
{
    if race.safe() {
        let w = race.worker_moved();
        if race.ring.contains(race.job) && race.worker is Announced {
            let i = choose|i: int| 0 <= i < race.ring.len() && race.ring[i] == race.job;
            assert(race.arrived()[0] == race.ring[0]);
            if i == 0 {
                assert(w.queue[race.queue.len() as int] == race.job);
            } else {
                assert(w.ring[i - 1] == race.job);
            }
        }
        let s = race.sender_moved();
        if race.sender is Ready {
            assert(s.ring[race.ring.len() as int] == race.job);
        }
    }
}

} // verus!
