//! Tasks that any worker may run.

use crate::poll::Poll;
use vstd::prelude::*;

verus! {

/// The task waits to be woken.
pub const IDLE: usize = 0;

/// The task is polled.
pub const RUNNING: usize = 1;

/// The task was woken. Together with `RUNNING`: it was woken while it is polled.
pub const NOTIFIED: usize = 2;

/// The task has come to its end.
pub const COMPLETED: usize = 3;

/// What follows a poll.
#[derive(Debug, Clone, Copy, PartialEq, Eq, Structural)]
pub enum AfterPoll {
    /// The task was woken meanwhile and is polled again.
    Again,
    /// The run is over. Its reference is gone, and with the last one the task.
    Over { freed: bool },
}

/// What a task's handles share: how far it is, and how many they are.
#[derive(Debug, Clone, Copy, PartialEq, Eq, Structural)]
pub struct Header {
    pub state: usize,
    pub references: usize,
}

impl Header {
    pub open spec fn wf(self) -> bool {
        self.state <= COMPLETED
    }

    pub open spec fn fresh() -> Header {
        Header { state: IDLE, references: 1 }
    }

    pub open spec fn wakes(self) -> bool {
        self.state == IDLE
    }

    pub open spec fn woken(self) -> Header {
        if self.state == IDLE {
            Header { state: NOTIFIED, references: (self.references + 1) as usize }
        } else if self.state == RUNNING {
            Header { state: (RUNNING + NOTIFIED) as usize, ..self }
        } else {
            self
        }
    }

    pub open spec fn begun(self) -> Header {
        Header { state: RUNNING, ..self }
    }

    pub open spec fn released(self) -> Header {
        Header { references: (self.references - 1) as usize, ..self }
    }

    /// Whether a wake came between the beginning of a poll and now.
    pub open spec fn woken_meanwhile(self) -> bool {
        self.state >= NOTIFIED
    }

    /// After a poll that came to no end.
    pub open spec fn paused(self) -> Header {
        if self.woken_meanwhile() {
            Header { state: NOTIFIED, ..self }
        } else {
            Header { state: IDLE, ..self }.released()
        }
    }

    /// After a poll that came to the end.
    pub open spec fn ended(self) -> Header {
        Header { state: COMPLETED, ..self }.released()
    }

    /// A new task, with the one reference of whoever will run it first.
    pub fn new() -> (header: Self)
        ensures
            header == Header::fresh(),
            header.wf(),
    {
        Header { state: IDLE, references: 1 }
    }

    /// One more handle.
    pub fn add_reference(&mut self)
        requires
            old(self).wf(),
            old(self).references < usize::MAX,
        ensures
            *final(self) == (Header { references: (old(self).references + 1) as usize, ..*old(self) }),
    {
        self.references = self.references + 1;
    }

    /// One handle less. Tells whether it was the last.
    pub fn drop_reference(&mut self) -> (freed: bool)
        requires
            old(self).wf(),
            old(self).references > 0,
        ensures
            *final(self) == old(self).released(),
            freed == (old(self).references == 1),
    {
        self.references = self.references - 1;
        self.references == 0
    }

    /// Wakes the task. Tells whether it has to be scheduled, which takes a
    /// reference: an idle task is, one that is polled will be polled again, and one
    /// that was woken before or has ended needs nothing.
    pub fn wake_by_ref(&mut self) -> (schedule: bool)
        requires
            old(self).wf(),
            old(self).references < usize::MAX,
        ensures
            *final(self) == old(self).woken(),
            schedule == old(self).wakes(),
            final(self).wf(),
    {
        if self.state == IDLE {
            self.state = NOTIFIED;
            self.references = self.references + 1;
            true
        } else {
            if self.state == RUNNING {
                self.state = RUNNING | NOTIFIED;
                assert(1usize | 2usize == 3usize) by (bit_vector);
            }
            false
        }
    }

    /// Wakes the task and gives up the handle that woke it. Tells whether the task
    /// has to be scheduled, and whether that handle was the last.
    pub fn wake(&mut self) -> (outcome: (bool, bool))
        requires
            old(self).wf(),
            0 < old(self).references < usize::MAX,
        ensures
            *final(self) == old(self).woken().released(),
            outcome.0 == old(self).wakes(),
            outcome.1 == (old(self).woken().references == 1),
            final(self).wf(),
    {
        let schedule: bool = self.wake_by_ref();
        let freed: bool = self.drop_reference();
        (schedule, freed)
    }

    /// A poll begins. Wakes that came before are answered by it.
    pub fn begin(&mut self)
        requires
            old(self).wf(),
        ensures
            *final(self) == old(self).begun(),
            final(self).wf(),
    {
        self.state = RUNNING;
    }

    /// A poll is over. A task that has nothing left to poll counts as ready.
    pub fn finish(&mut self, polled: Poll<()>) -> (after: AfterPoll)
        requires
            old(self).wf(),
            old(self).references > 0,
        ensures
            final(self).wf(),
            match polled {
                Poll::Ready(_) => {
                    &&& *final(self) == old(self).ended()
                    &&& after == (AfterPoll::Over { freed: old(self).references == 1 })
                },
                Poll::Pending => {
                    &&& *final(self) == old(self).paused()
                    &&& after == (if old(self).woken_meanwhile() {
                        AfterPoll::Again
                    } else {
                        AfterPoll::Over { freed: old(self).references == 1 }
                    })
                },
            },
    {
        match polled {
            Poll::Ready(_) => {
                self.state = COMPLETED;
                let freed: bool = self.drop_reference();
                AfterPoll::Over { freed }
            },
            Poll::Pending => {
                let before: usize = self.state;
                self.state = before & !RUNNING;
                assert(before <= 3 ==> (before & !1usize) == (if before >= 2 {
                    2usize
                } else {
                    0usize
                }) && ((before & 2usize) != 0 <==> before >= 2)) by (bit_vector);
                if (before & NOTIFIED) != 0 {
                    return AfterPoll::Again;
                }
                let freed: bool = self.drop_reference();
                AfterPoll::Over { freed }
            },
        }
    }
}

/// A wake that comes while a task is polled is not lost: a poll that came to no end
/// is followed by another.
pub proof fn lemma_wake_while_polled(header: Header)
    ensures
        header.begun().woken().woken_meanwhile(),
        header.begun().woken().paused() == (Header { state: NOTIFIED, ..header }),
        !header.begun().woken_meanwhile(),
{
}

/// However often an idle task is woken before it runs, it is scheduled once.
pub proof fn lemma_scheduled_once(header: Header)
    requires
        header.wakes(),
        header.references < usize::MAX,
    ensures
        !header.woken().wakes(),
        header.woken().woken() == header.woken(),
{
}

/// A task that has ended is never scheduled again, and stays ended.
pub proof fn lemma_ended_stays(header: Header)
    ensures
        !header.ended().wakes(),
        header.ended().woken() == header.ended(),
{
}

/// The reference that a wake takes is given back by the run that answers it.
pub proof fn lemma_run_returns_reference(header: Header)
    requires
        header.wakes(),
        header.references < usize::MAX,
    ensures
        header.woken().begun().paused() == header,
        header.woken().begun().ended() == (Header { state: COMPLETED, ..header }),
{
}

/// A task with all its handles: those that may run it and those that may wake it.
pub ghost struct Scene {
    pub header: Header,
    /// Handles that a worker may run.
    pub runnables: nat,
    /// Handles that may wake it.
    pub wakers: nat,
    /// Whether a worker polls it.
    pub polled: bool,
    /// Whether it has come to its end.
    pub ended: bool,
}

/// What may happen to a task.
pub ghost enum Event {
    /// A worker takes a handle and polls.
    Begin,
    /// The task makes a waker of itself, or a waker is copied.
    CloneWaker,
    /// A waker goes away.
    DropWaker,
    /// A waker wakes the task.
    Wake,
    /// The poll came to no end.
    Pending,
    /// The poll came to the end.
    Ready,
}

impl Scene {
    /// A new task.
    pub open spec fn start() -> Scene {
        Scene { header: Header::fresh(), runnables: 1, wakers: 0, polled: false, ended: false }
    }

    /// Whether an event can come now. The poll that is under way holds one handle.
    /// Wakers come from a task that is polled or from other wakers.
    pub open spec fn can(self, event: Event) -> bool {
        match event {
            Event::Begin => self.runnables > (if self.polled {
                1nat
            } else {
                0nat
            }),
            Event::CloneWaker => self.header.references < usize::MAX && (self.polled || self.wakers > 0),
            Event::DropWaker => self.wakers > 0,
            Event::Wake => self.wakers > 0 && self.header.references < usize::MAX,
            Event::Pending => self.polled,
            Event::Ready => self.polled,
        }
    }

    pub open spec fn after(self, event: Event) -> Scene {
        match event {
            Event::Begin => Scene { header: self.header.begun(), polled: true, ..self },
            Event::CloneWaker => Scene {
                header: Header { references: (self.header.references + 1) as usize, ..self.header },
                wakers: self.wakers + 1,
                ..self
            },
            Event::DropWaker => Scene {
                header: self.header.released(),
                wakers: (self.wakers - 1) as nat,
                ..self
            },
            Event::Wake => Scene {
                header: self.header.woken(),
                runnables: if self.header.wakes() {
                    self.runnables + 1
                } else {
                    self.runnables
                },
                ..self
            },
            Event::Pending => if self.header.woken_meanwhile() {
                Scene { header: self.header.paused(), polled: false, ..self }
            } else {
                Scene {
                    header: self.header.paused(),
                    polled: false,
                    runnables: (self.runnables - 1) as nat,
                    ..self
                }
            },
            Event::Ready => Scene {
                header: self.header.ended(),
                polled: false,
                ended: true,
                runnables: (self.runnables - 1) as nat,
                ..self
            },
        }
    }

    /// Every handle is counted, and at most one of them can run the task: none when
    /// it is idle (but for a new one, which nothing can wake yet) or has ended.
    pub open spec fn sound(self) -> bool {
        &&& self.header.wf()
        &&& self.header.references == self.runnables + self.wakers
        &&& self.runnables <= 1
        &&& self.ended ==> self.runnables == 0 && !self.polled && self.header.state == COMPLETED
        &&& self.polled ==> self.runnables == 1 && (self.header.state == RUNNING || self.header.state
            == RUNNING + NOTIFIED)
        &&& !self.ended && !self.polled ==> {
            ||| self.header.state == IDLE && self.runnables == 0
            ||| self.header.state == IDLE && self.wakers == 0
            ||| self.header.state == NOTIFIED && self.runnables == 1
        }
    }
}

/// A new task is sound.
pub proof fn lemma_start_sound()
    ensures
        Scene::start().sound(),
{
}

/// Whatever happens to a sound task leaves it sound. So a task is never polled by
/// two workers at once, is not polled once it has ended, and is kept for as long as
/// a handle is left.
pub proof fn lemma_step_sound(scene: Scene, event: Event)
    requires
        scene.sound(),
        scene.can(event),
    ensures
        scene.after(event).sound(),
        event is Begin ==> !scene.polled && !scene.ended,
{
}

} // verus!
