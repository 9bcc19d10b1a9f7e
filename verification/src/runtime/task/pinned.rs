//! Tasks that belong to one worker.

use crate::poll::Poll;
use vstd::prelude::*;

verus! {

/// How far a task is.
#[derive(Debug, Clone, Copy, PartialEq, Eq, Structural)]
pub enum Lifecycle {
    /// In a queue, and no worker's yet.
    Spawned,
    /// A worker's, ready to be polled.
    Bound,
    /// Being polled.
    Running,
    /// At its end.
    Dead,
}

/// The owner of a task that is no worker's yet.
pub const NO_OWNER: usize = usize::MAX;

/// What a worker does with a task that it took off its queue.
#[derive(Debug, Clone, Copy, PartialEq, Eq, Structural)]
pub enum Start {
    /// Polls it.
    Poll,
    /// Puts it back: it is being polled already.
    Requeue,
    /// Lets it go. The last handle takes the task with it.
    Release { freed: bool },
}

/// Where a woken task goes.
#[derive(Debug, Clone, Copy, PartialEq, Eq, Structural)]
pub enum Route {
    /// Into the queue of the worker that woke it, which is its own.
    Local,
    /// To its worker from outside, which then has to be woken.
    Remote,
    /// Nowhere: its worker is gone, or it has none.
    Nowhere,
}

/// What a task's handles share.
#[derive(Debug, Clone, Copy, PartialEq, Eq, Structural)]
pub struct Header {
    pub state: Lifecycle,
    pub references: usize,
    pub owner_id: usize,
    /// Whether a worker's queues are known.
    pub bound: bool,
}

impl Header {
    pub open spec fn fresh() -> Header {
        Header { state: Lifecycle::Spawned, references: 1, owner_id: NO_OWNER, bound: false }
    }

    pub open spec fn released(self) -> Header {
        Header { references: (self.references - 1) as usize, ..self }
    }

    pub open spec fn kept(self) -> Header {
        Header { references: (self.references + 1) as usize, ..self }
    }

    /// What a worker does with the task. `queue_alive`: whether its owner's queue is
    /// still there.
    pub open spec fn start_of(self, queue_alive: bool) -> Start {
        match self.state {
            Lifecycle::Dead => Start::Release { freed: self.references == 1 },
            Lifecycle::Running => if self.bound && queue_alive {
                Start::Requeue
            } else {
                Start::Release { freed: self.references == 1 }
            },
            _ => Start::Poll,
        }
    }

    pub open spec fn started(self, queue_alive: bool) -> Header {
        match self.start_of(queue_alive) {
            Start::Poll => Header { state: Lifecycle::Running, ..self },
            Start::Requeue => self,
            Start::Release { .. } => self.released(),
        }
    }

    /// Where a wake sends the task. `current`: the worker that wakes it, if one does.
    pub open spec fn route(self, current: Option<usize>, queue_alive: bool) -> Route {
        if current == Some(self.owner_id) {
            if self.bound && queue_alive {
                Route::Local
            } else {
                Route::Nowhere
            }
        } else if self.bound {
            Route::Remote
        } else {
            Route::Nowhere
        }
    }

    pub fn new() -> (header: Self)
        ensures
            header == Header::fresh(),
    {
        Header { state: Lifecycle::Spawned, references: 1, owner_id: NO_OWNER, bound: false }
    }

    /// Makes the task a worker's.
    pub fn bind(&mut self, id: usize)
        ensures
            *final(self) == (Header {
                state: Lifecycle::Bound,
                owner_id: id,
                bound: true,
                references: old(self).references,
            }),
    {
        self.owner_id = id;
        self.bound = true;
        self.state = Lifecycle::Bound;
    }

    /// One more handle.
    pub fn add_reference(&mut self)
        requires
            old(self).references < usize::MAX,
        ensures
            *final(self) == old(self).kept(),
    {
        self.references = self.references + 1;
    }

    /// One handle less. Tells whether it was the last.
    pub fn drop_reference(&mut self) -> (freed: bool)
        requires
            old(self).references > 0,
        ensures
            *final(self) == old(self).released(),
            freed == (old(self).references == 1),
    {
        self.references = self.references - 1;
        self.references == 0
    }

    /// A worker takes the task off its queue.
    pub fn start(&mut self, queue_alive: bool) -> (start: Start)
        requires
            old(self).references > 0,
        ensures
            start == old(self).start_of(queue_alive),
            *final(self) == old(self).started(queue_alive),
    {
        match self.state {
            Lifecycle::Dead => {
                let freed: bool = self.drop_reference();
                Start::Release { freed }
            },
            Lifecycle::Running => {
                if self.bound && queue_alive {
                    return Start::Requeue;
                }
                let freed: bool = self.drop_reference();
                Start::Release { freed }
            },
            Lifecycle::Spawned | Lifecycle::Bound => {
                self.state = Lifecycle::Running;
                Start::Poll
            },
        }
    }

    /// A poll is over, and with it the handle that ran the task. Tells whether that
    /// was the last. A task that has nothing left to poll counts as ready.
    pub fn finish(&mut self, polled: Poll<()>) -> (freed: bool)
        requires
            old(self).references > 0,
        ensures
            *final(self) == (Header {
                state: if polled is Ready {
                    Lifecycle::Dead
                } else {
                    Lifecycle::Bound
                },
                ..old(self).released()
            }),
            freed == (old(self).references == 1),
    {
        match polled {
            Poll::Ready(_) => {
                self.state = Lifecycle::Dead;
            },
            Poll::Pending => {
                self.state = Lifecycle::Bound;
            },
        }
        self.drop_reference()
    }

    /// Wakes the task. Wherever it goes, a reference goes with it.
    pub fn wake_by_ref(&mut self, current: Option<usize>, queue_alive: bool) -> (route: Route)
        requires
            old(self).references < usize::MAX,
        ensures
            route == old(self).route(current, queue_alive),
            *final(self) == (if route is Nowhere {
                *old(self)
            } else {
                old(self).kept()
            }),
    {
        let is_local: bool = match current {
            Some(id) => id == self.owner_id,
            None => false,
        };
        if is_local {
            if self.bound && queue_alive {
                self.add_reference();
                return Route::Local;
            }
        } else if self.bound {
            self.add_reference();
            return Route::Remote;
        }
        Route::Nowhere
    }

    /// Wakes the task and gives up the handle that woke it. Tells where the task
    /// goes, and whether that handle was the last.
    pub fn wake(&mut self, current: Option<usize>, queue_alive: bool) -> (outcome: (Route, bool))
        requires
            0 < old(self).references < usize::MAX,
        ensures
            outcome.0 == old(self).route(current, queue_alive),
            *final(self) == (if outcome.0 is Nowhere {
                old(self).released()
            } else {
                *old(self)
            }),
            outcome.1 == (outcome.0 is Nowhere && old(self).references == 1),
    {
        let route: Route = self.wake_by_ref(current, queue_alive);
        let freed: bool = self.drop_reference();
        (route, freed)
    }
}

/// A task is never polled by two workers at once: while it is polled, nobody starts
/// another poll.
pub proof fn lemma_one_poll(header: Header, queue_alive: bool, later_alive: bool)
    requires
        header.start_of(queue_alive) is Poll,
    ensures
        header.started(queue_alive).start_of(later_alive) !is Poll,
{
}

/// A task that is woken while it is polled stays in its worker's queue until it can
/// be polled again: the wake is not lost, nor is its reference.
pub proof fn lemma_contention_keeps_task(header: Header)
    requires
        header.state is Running,
        header.bound,
    ensures
        header.start_of(true) is Requeue,
        header.started(true) == header,
{
}

/// A bound task that is woken reaches its worker, as long as that is there.
pub proof fn lemma_wake_reaches_worker(header: Header, current: Option<usize>)
    requires
        header.bound,
    ensures
        header.route(current, true) == (if current == Some(header.owner_id) {
            Route::Local
        } else {
            Route::Remote
        }),
{
}

/// What a worker does with a task follows from how far the task is: a new or a bound one
/// is polled and keeps its handles, one that has ended is let go with one handle less,
/// and one that is polled already goes back only where its worker's queue is there.
pub proof fn lemma_start_follows_state(header: Header, queue_alive: bool)
    requires
        header.references > 0,
    ensures
        header.state is Spawned || header.state is Bound ==> {
            &&& header.start_of(queue_alive) is Poll
            &&& header.started(queue_alive).state is Running
            &&& header.started(queue_alive).references == header.references
            &&& header.started(queue_alive).owner_id == header.owner_id
            &&& header.started(queue_alive).bound == header.bound
        },
        header.state is Dead ==> {
            &&& header.start_of(queue_alive) == (Start::Release { freed: header.references == 1 })
            &&& header.started(queue_alive).state is Dead
            &&& header.started(queue_alive).references == header.references - 1
        },
        header.state is Running && !(header.bound && queue_alive) ==> {
            &&& header.start_of(queue_alive) == (Start::Release { freed: header.references == 1 })
            &&& header.started(queue_alive).references == header.references - 1
        },
{
}

/// A task that is no worker's goes nowhere when it is woken, and neither does one whose
/// own worker wakes it without a queue. Others reach its worker from outside.
pub proof fn lemma_wake_goes(header: Header, current: Option<usize>, queue_alive: bool)
    ensures
        !header.bound ==> header.route(current, queue_alive) is Nowhere,
        header.bound && current == Some(header.owner_id) ==> (header.route(current, queue_alive) is Local
            <==> queue_alive),
        header.bound && current == Some(header.owner_id) && !queue_alive ==> header.route(current, queue_alive)
            is Nowhere,
        header.bound && current != Some(header.owner_id) ==> header.route(current, queue_alive) is Remote,
{
}

/// One handle more and one less are one each, and change nothing else. A new task has one
/// handle and no worker.
pub proof fn lemma_handles_counted(header: Header)
    requires
        0 < header.references < usize::MAX,
    ensures
        header.kept().references == header.references + 1,
        header.released().references == header.references - 1,
        header.kept().released() == header,
        header.kept().state == header.state && header.released().state == header.state,
        Header::fresh().references == 1,
        Header::fresh().state is Spawned,
        !Header::fresh().bound,
        Header::fresh().owner_id == usize::MAX,
{
}

} // verus!
