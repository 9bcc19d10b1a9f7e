//! The order in which a worker looks for work.

use vstd::prelude::*;

verus! {

/// How many tasks a worker runs before it looks after I/O.
pub const BUDGET: usize = 64;

/// Where a worker looks next.
#[derive(Debug, Clone, Copy, PartialEq, Eq, Structural)]
pub enum Phase {
    /// For jobs that other workers sent.
    Mesh,
    /// For the main future, if it was woken.
    Main,
    /// For its own tasks.
    Local,
    /// For jobs and tasks that were handed in from outside.
    Injector,
    /// For jobs that were handed in to others.
    Steal,
    /// For I/O.
    Park,
}

/// How far a worker is between two looks after I/O.
#[derive(Debug, Clone, Copy, PartialEq, Eq, Structural)]
pub struct Turn {
    pub phase: Phase,
    pub executed: usize,
    /// Whether anything was found in this round.
    pub did_work: bool,
}

impl Turn {
    pub open spec fn start() -> Turn {
        Turn { phase: Phase::Mesh, executed: 0, did_work: false }
    }

    /// A round begins with the mesh and goes on within the budget. The main future
    /// and a task of the worker's own may each add one to it.
    pub open spec fn wf(self) -> bool {
        match self.phase {
            Phase::Mesh | Phase::Main => self.executed < BUDGET,
            Phase::Local | Phase::Injector | Phase::Steal => self.executed <= BUDGET,
            Phase::Park => self.executed <= BUDGET + 1,
        }
    }

    /// The next round, if the budget allows one.
    pub open spec fn again(self) -> Turn {
        if self.executed < BUDGET {
            Turn { phase: Phase::Mesh, did_work: false, ..self }
        } else {
            Turn { phase: Phase::Park, ..self }
        }
    }

    /// After a look: `found` tells whether there was anything.
    pub open spec fn looked(self, found: bool) -> Turn {
        match self.phase {
            Phase::Mesh => Turn { phase: Phase::Main, did_work: found, ..self },
            Phase::Main => if found {
                Turn { phase: Phase::Local, executed: (self.executed + 1) as usize, did_work: true }
            } else {
                Turn { phase: Phase::Local, ..self }
            },
            Phase::Local => if found {
                Turn { executed: (self.executed + 1) as usize, ..self }.again()
            } else {
                Turn { phase: Phase::Injector, ..self }
            },
            Phase::Injector => if found {
                self.again()
            } else {
                Turn { phase: Phase::Steal, ..self }
            },
            Phase::Steal => if found || self.did_work {
                self.again()
            } else {
                Turn { phase: Phase::Park, ..self }
            },
            Phase::Park => Turn::start(),
        }
    }

    pub fn new() -> (turn: Self)
        ensures
            turn == Turn::start(),
            turn.wf(),
    {
        Turn { phase: Phase::Mesh, executed: 0, did_work: false }
    }

    fn round(&mut self)
        requires
            old(self).executed <= BUDGET + 1,
        ensures
            *final(self) == old(self).again(),
            final(self).wf(),
    {
        if self.executed < BUDGET {
            self.phase = Phase::Mesh;
            self.did_work = false;
        } else {
            self.phase = Phase::Park;
        }
    }

    /// Goes on after a look.
    pub fn look(&mut self, found: bool)
        requires
            old(self).wf(),
        ensures
            *final(self) == old(self).looked(found),
            final(self).wf(),
    {
        match self.phase {
            Phase::Mesh => {
                self.did_work = found;
                self.phase = Phase::Main;
            },
            Phase::Main => {
                if found {
                    self.did_work = true;
                    self.executed = self.executed + 1;
                }
                self.phase = Phase::Local;
            },
            Phase::Local => {
                if found {
                    self.executed = self.executed + 1;
                    self.round();
                } else {
                    self.phase = Phase::Injector;
                }
            },
            Phase::Injector => {
                if found {
                    self.round();
                } else {
                    self.phase = Phase::Steal;
                }
            },
            Phase::Steal => {
                if found || self.did_work {
                    self.round();
                } else {
                    self.phase = Phase::Park;
                }
            },
            Phase::Park => {
                *self = Turn::new();
            },
        }
    }
}

/// A worker never runs more than its budget and one task before it looks after I/O.
pub proof fn lemma_io_not_starved(turn: Turn)
    requires
        turn.wf(),
    ensures
        turn.executed <= BUDGET + 1,
        turn.executed >= BUDGET && turn.phase is Local ==> turn.looked(true).phase is Park,
        turn.executed >= BUDGET && turn.phase is Injector ==> turn.looked(true).phase is Park,
        turn.executed >= BUDGET && turn.phase is Steal ==> forall|found: bool|
            (#[trigger] turn.looked(found)).phase is Park,
{
}

/// A round from its start: with budget left, it is followed by another one if it found
/// anything (a job sent, the main future woken, a task, something handed in or
/// something to steal), and by I/O if it found nothing. Without, I/O follows either
/// way. The main future and a task each take one from the budget.
pub proof fn lemma_round(
    turn: Turn,
    mesh: bool,
    main: bool,
    local: bool,
    injector: bool,
    steal: bool,
)
    requires
        turn.wf(),
        turn.phase is Mesh,
    ensures
        ({
            let t = turn.looked(mesh).looked(main);
            let end = if local {
                t.looked(true)
            } else if injector {
                t.looked(false).looked(true)
            } else {
                t.looked(false).looked(false).looked(steal)
            };
            let found = mesh || main || local || injector || steal;
            let polled = (if main {
                1int
            } else {
                0
            }) + (if local {
                1int
            } else {
                0
            });
            &&& end.executed == turn.executed + polled
            &&& end.phase == (if found && end.executed < BUDGET {
                Phase::Mesh
            } else {
                Phase::Park
            })
        }),
{
}

} // verus!
