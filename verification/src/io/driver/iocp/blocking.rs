//! Work that blocks, and the threads that do it.

use crate::error::IoError;
use crate::io::op::Timespan;
use std::collections::VecDeque;
use vstd::prelude::*;

verus! {

/// Where the result of a task goes.
#[derive(Debug, Clone, Copy, PartialEq, Eq, Structural)]
pub struct CompletionInfo {
    pub port: usize,
    pub user_data: usize,
    pub overlapped: usize,
}

/// A task that blocks the thread that runs it.
pub enum BlockingTask {
    Open { path: Vec<u16>, flags: i32, mode: u32, completion: CompletionInfo },
    Close { handle: usize, completion: CompletionInfo },
    Fsync { handle: usize, completion: CompletionInfo },
    SyncFileRange { handle: usize, completion: CompletionInfo },
    Fallocate { handle: usize, mode: i32, offset: u64, len: u64, completion: CompletionInfo },
}

/// Overlapped access, and no other attribute.
pub const OPEN_ATTRIBUTES: u32 = 0x4000_0080;

/// What the system returns in place of a handle.
pub const INVALID_HANDLE_VALUE: usize = usize::MAX;

/// A call of the system. The path of a file to open is the task's.
#[derive(Debug, Clone, Copy, PartialEq, Eq, Structural)]
pub enum WinCall {
    CreateFile { access: u32, share: u32, disposition: u32, attributes: u32 },
    CloseHandle { handle: usize },
    FlushFileBuffers { handle: usize },
    SetAllocationSize { handle: usize, size: i64 },
    SetEndOfFile { handle: usize, size: i64 },
}

/// What a call returned, and the error number behind it.
#[derive(Debug, Clone, Copy, PartialEq, Eq, Structural)]
pub struct WinReply {
    pub value: usize,
    pub error: u32,
}

/// What a task does next.
pub enum TaskStep {
    Call(WinCall),
    Done(CompletionInfo, Result<usize, IoError>),
}

impl BlockingTask {
    pub open spec fn completion(self) -> CompletionInfo {
        match self {
            BlockingTask::Open { completion, .. } => completion,
            BlockingTask::Close { completion, .. } => completion,
            BlockingTask::Fsync { completion, .. } => completion,
            BlockingTask::SyncFileRange { completion, .. } => completion,
            BlockingTask::Fallocate { completion, .. } => completion,
        }
    }

    /// The calls that the task makes, as long as they succeed. Space is reserved up
    /// to the end of the range, and the file grows to it where the mode asks for
    /// nothing else.
    pub open spec fn calls(self) -> Seq<WinCall> {
        match self {
            BlockingTask::Open { flags, mode, .. } => seq![
                WinCall::CreateFile {
                    access: flags as u32,
                    share: 0,
                    disposition: mode,
                    attributes: OPEN_ATTRIBUTES,
                },
            ],
            BlockingTask::Close { handle, .. } => seq![WinCall::CloseHandle { handle }],
            BlockingTask::Fsync { handle, .. } => seq![WinCall::FlushFileBuffers { handle }],
            BlockingTask::SyncFileRange { handle, .. } => seq![WinCall::FlushFileBuffers { handle }],
            BlockingTask::Fallocate { handle, mode, offset, len, .. } => {
                let size = ((offset + len) as u64) as i64;
                let reserve = seq![WinCall::SetAllocationSize { handle, size }];
                if mode == 0 {
                    reserve.push(WinCall::SetEndOfFile { handle, size })
                } else {
                    reserve
                }
            },
        }
    }

    pub open spec fn succeeded(self, reply: WinReply) -> bool {
        if self is Open {
            reply.value != INVALID_HANDLE_VALUE
        } else {
            reply.value != 0
        }
    }

    /// Whether the replies are those of a task that is under way.
    pub open spec fn under_way(self, replies: Seq<WinReply>) -> bool {
        &&& replies.len() <= self.calls().len()
        &&& forall|i: int| 0 <= i < replies.len() - 1 ==> self.succeeded(#[trigger] replies[i])
    }

    /// What the task does after the replies it has had: it stops at a failure, and
    /// gives the handle of a file that it opened.
    pub open spec fn step(self, replies: Seq<WinReply>) -> TaskStep {
        if replies.len() > 0 && !self.succeeded(replies.last()) {
            TaskStep::Done(self.completion(), Err(IoError::Os(replies.last().error as i32)))
        } else if replies.len() < self.calls().len() {
            TaskStep::Call(self.calls()[replies.len() as int])
        } else {
            TaskStep::Done(
                self.completion(),
                Ok(
                    if self is Open {
                        replies.last().value
                    } else {
                        0
                    },
                ),
            )
        }
    }

    /// A task ends after no more calls than it has.
    pub proof fn lemma_ends(self, replies: Seq<WinReply>)
        requires
            self.under_way(replies),
            replies.len() == self.calls().len(),
        ensures
            self.step(replies) is Done,
    {
    }

    /// Runs the task on, given the replies to its calls so far.
    pub fn run(&self, replies: &[WinReply]) -> (step: TaskStep)
        requires
            self.under_way(replies@),
            *self matches BlockingTask::Fallocate { offset, len, .. } ==> offset + len <= u64::MAX,
        ensures
            step == self.step(replies@),
    {
        let n: usize = replies.len();
        match self {
            BlockingTask::Open { path, flags, mode, completion } => {
                if n == 0 {
                    return TaskStep::Call(
                        WinCall::CreateFile {
                            access: *flags as u32,
                            share: 0,
                            disposition: *mode,
                            attributes: OPEN_ATTRIBUTES,
                        },
                    );
                }
                let reply: WinReply = replies[n - 1];
                if reply.value == INVALID_HANDLE_VALUE {
                    TaskStep::Done(*completion, Err(IoError::Os(reply.error as i32)))
                } else {
                    TaskStep::Done(*completion, Ok(reply.value))
                }
            },
            BlockingTask::Close { handle, completion } => {
                if n == 0 {
                    return TaskStep::Call(WinCall::CloseHandle { handle: *handle });
                }
                Self::finished(*completion, replies[n - 1])
            },
            BlockingTask::Fsync { handle, completion } => {
                if n == 0 {
                    return TaskStep::Call(WinCall::FlushFileBuffers { handle: *handle });
                }
                Self::finished(*completion, replies[n - 1])
            },
            BlockingTask::SyncFileRange { handle, completion } => {
                if n == 0 {
                    return TaskStep::Call(WinCall::FlushFileBuffers { handle: *handle });
                }
                Self::finished(*completion, replies[n - 1])
            },
            BlockingTask::Fallocate { handle, mode, offset, len, completion } => {
                let req_size: u64 = *offset + *len;
                if n == 0 {
                    return TaskStep::Call(
                        WinCall::SetAllocationSize { handle: *handle, size: req_size as i64 },
                    );
                }
                if n == 1 && replies[0].value != 0 && *mode == 0 {
                    return TaskStep::Call(WinCall::SetEndOfFile { handle: *handle, size: req_size as i64 });
                }
                Self::finished(*completion, replies[n - 1])
            },
        }
    }

    fn finished(completion: CompletionInfo, reply: WinReply) -> (step: TaskStep)
        ensures
            step == (if reply.value == 0 {
                TaskStep::Done(completion, Err(IoError::Os(reply.error as i32)))
            } else {
                TaskStep::Done(completion, Ok(0))
            }),
    {
        if reply.value == 0 {
            TaskStep::Done(completion, Err(IoError::Os(reply.error as i32)))
        } else {
            TaskStep::Done(completion, Ok(0))
        }
    }

    /// Whether somebody waits for the result, which is then stored and posted to
    /// the port.
    pub fn complete(info: &CompletionInfo) -> (post: bool)
        ensures
            post == (info.overlapped != 0),
    {
        info.overlapped != 0
    }
}

/// Why a task was not taken.
#[derive(Debug, Clone, Copy, PartialEq, Eq, Structural)]
pub enum ThreadPoolError {
    Overloaded,
}

/// How a task that was taken gets its thread.
#[derive(Debug, Clone, Copy, PartialEq, Eq, Structural)]
pub enum Dispatch {
    /// A waiting thread is notified.
    Notify,
    /// A new thread starts.
    Spawn,
}

/// What a thread of the pool comes from.
#[derive(Debug, Clone, Copy, PartialEq, Eq, Structural)]
pub enum WorkerEvent {
    /// It started, or finished a task.
    Free,
    /// It was notified while it waited.
    Notified,
    /// It waited as long as it may.
    TimedOut,
}

/// What a thread of the pool does next.
pub enum WorkerStep {
    Run(BlockingTask),
    Wait,
    Exit,
}

/// Threads for tasks that block: tasks in line, threads, and how many of them
/// wait.
pub struct ThreadPool {
    pub queue: VecDeque<BlockingTask>,
    pub active_workers: usize,
    pub idle_workers: usize,
    pub core_threads: usize,
    pub max_threads: usize,
    pub queue_capacity: usize,
    pub keep_alive: Timespan,
}

impl ThreadPool {
    /// There are no more threads than allowed, and no more wait than there are.
    pub open spec fn wf(self) -> bool {
        &&& self.core_threads <= self.max_threads
        &&& self.active_workers <= self.max_threads
        &&& self.idle_workers <= self.active_workers
    }

    /// The pool but for its line of tasks.
    pub open spec fn same_limits(self, other: Self) -> bool {
        &&& self.core_threads == other.core_threads
        &&& self.max_threads == other.max_threads
        &&& self.queue_capacity == other.queue_capacity
        &&& self.keep_alive == other.keep_alive
    }

    /// Whether the pool has the same limits, the same waiting threads, and one thread
    /// more where one was started.
    pub open spec fn executed(self, after: Self, started: bool) -> bool {
        &&& after.same_limits(self)
        &&& after.idle_workers == self.idle_workers
        &&& after.active_workers == self.active_workers + (if started {
            1int
        } else {
            0
        })
    }

    pub fn new(core_threads: usize, max_threads: usize, queue_capacity: usize, keep_alive: Timespan) -> (pool: Self)
        requires
            core_threads <= max_threads,
        ensures
            pool.wf(),
            pool.queue@ == Seq::<BlockingTask>::empty(),
            pool.active_workers == 0,
            pool.idle_workers == 0,
            pool.core_threads == core_threads,
            pool.max_threads == max_threads,
            pool.queue_capacity == queue_capacity,
            pool.keep_alive == keep_alive,
    {
        ThreadPool {
            queue: VecDeque::new(),
            active_workers: 0,
            idle_workers: 0,
            core_threads,
            max_threads,
            queue_capacity,
            keep_alive,
        }
    }

    /// Whether a task is refused: every thread is busy, there may be no more, and
    /// the line is full.
    pub open spec fn overloaded(self) -> bool {
        &&& self.idle_workers == 0
        &&& self.active_workers >= self.max_threads
        &&& self.queue@.len() >= self.queue_capacity
    }

    /// Puts a task in line: for a waiting thread, else for a new one, else for
    /// whichever comes free.
    pub fn execute(&mut self, task: BlockingTask) -> (taken: Result<Dispatch, ThreadPoolError>)
        requires
            old(self).wf(),
        ensures
            final(self).wf(),
            old(self).executed(*final(self), taken == Ok::<Dispatch, ThreadPoolError>(Dispatch::Spawn)),
            taken == (if old(self).overloaded() {
                Err::<Dispatch, ThreadPoolError>(ThreadPoolError::Overloaded)
            } else if old(self).idle_workers == 0 && old(self).active_workers < old(self).max_threads {
                Ok(Dispatch::Spawn)
            } else {
                Ok(Dispatch::Notify)
            }),
            final(self).queue@ == (if taken is Ok {
                old(self).queue@.push(task)
            } else {
                old(self).queue@
            }),
    {
        if self.idle_workers > 0 {
            self.queue.push_back(task);
            return Ok(Dispatch::Notify);
        }
        if self.active_workers < self.max_threads {
            self.active_workers += 1;
            self.queue.push_back(task);
            return Ok(Dispatch::Spawn);
        }
        if self.queue.len() < self.queue_capacity {
            self.queue.push_back(task);
            Ok(Dispatch::Notify)
        } else {
            Err(ThreadPoolError::Overloaded)
        }
    }

    /// What a thread does next: the oldest task if there is one, else it waits, or
    /// exits where it waited long enough and more threads are there than are kept.
    pub fn worker_loop(&mut self, event: WorkerEvent) -> (step: WorkerStep)
        requires
            old(self).wf(),
            event == WorkerEvent::Free ==> old(self).idle_workers < old(self).active_workers,
            event != WorkerEvent::Free ==> old(self).idle_workers > 0,
        ensures
            final(self).wf(),
            final(self).same_limits(*old(self)),
            ({
                let awake = if event == WorkerEvent::Free {
                    old(self).idle_workers as int
                } else {
                    old(self).idle_workers - 1
                };
                if old(self).queue@.len() > 0 {
                    &&& step == WorkerStep::Run(old(self).queue@[0])
                    &&& final(self).queue@ == old(self).queue@.drop_first()
                    &&& final(self).idle_workers == awake
                    &&& final(self).active_workers == old(self).active_workers
                } else if event == WorkerEvent::TimedOut && old(self).active_workers > old(self).core_threads {
                    &&& step is Exit
                    &&& final(self).queue@ == old(self).queue@
                    &&& final(self).idle_workers == awake
                    &&& final(self).active_workers == old(self).active_workers - 1
                } else {
                    &&& step is Wait
                    &&& final(self).queue@ == old(self).queue@
                    &&& final(self).idle_workers == awake + 1
                    &&& final(self).active_workers == old(self).active_workers
                }
            }),
    {
        match event {
            WorkerEvent::Free => {},
            WorkerEvent::Notified | WorkerEvent::TimedOut => {
                self.idle_workers -= 1;
            },
        }
        if self.queue.len() == 0 {
            if event == WorkerEvent::TimedOut {
                if self.active_workers > self.core_threads {
                    self.active_workers -= 1;
                    return WorkerStep::Exit;
                }
            }
            self.idle_workers += 1;
            return WorkerStep::Wait;
        }
        match self.queue.pop_front() {
            Some(task) => {
                assert(self.queue@ =~= old(self).queue@.drop_first());
                WorkerStep::Run(task)
            },
            None => WorkerStep::Wait,
        }
    }
}

} // verus!
