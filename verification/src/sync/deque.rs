//! Queues that other workers may take from.

use vstd::prelude::*;

verus! {

/// Declares `crossbeam_deque::Worker`, the owner's end of a queue.
#[verifier::external_type_specification]
#[verifier::external_body]
#[verifier::reject_recursive_types(T)]
pub struct ExWorker<T>(crossbeam_deque::Worker<T>);

/// Declares `crossbeam_deque::Stealer`, the others' end of a queue.
#[verifier::external_type_specification]
#[verifier::external_body]
#[verifier::reject_recursive_types(T)]
pub struct ExStealer<T>(crossbeam_deque::Stealer<T>);

/// What a `Worker` was made with.
pub uninterp spec fn fifo_contents(worker: crossbeam_deque::Worker<u64>) -> Seq<u64>;

/// Which queue is behind a `Worker`.
pub uninterp spec fn worker_queue(worker: crossbeam_deque::Worker<u64>) -> nat;

/// Which queue is behind a `Stealer`.
pub uninterp spec fn stealer_queue(stealer: crossbeam_deque::Stealer<u64>) -> nat;

/// Calls `Worker::new_fifo`: the queue is empty.
#[verifier::external_body]
fn fifo_new() -> (worker: crossbeam_deque::Worker<u64>)
    ensures
        fifo_contents(worker) == Seq::<u64>::empty(),
{
    crossbeam_deque::Worker::new_fifo()
}

/// Calls `Worker::stealer`, which gives another end of the same queue. What others
/// take through it is theirs to decide, so nothing is claimed of that.
#[verifier::external_body]
fn fifo_stealer(worker: &crossbeam_deque::Worker<u64>) -> (stealer: crossbeam_deque::Stealer<u64>)
    ensures
        stealer_queue(stealer) == worker_queue(*worker),
{
    worker.stealer()
}

/// A worker's queue of tasks that others may take, by the owner's end.
pub struct StealableQueue {
    pub worker: crossbeam_deque::Worker<u64>,
}

impl StealableQueue {
    /// What the queue was made with.
    pub open spec fn initial(self) -> Seq<u64> {
        fifo_contents(self.worker)
    }

    /// Which queue it is.
    pub open spec fn queue(self) -> nat {
        worker_queue(self.worker)
    }

    /// An empty queue.
    pub fn new() -> (queue: Self)
        ensures
            queue.initial() == Seq::<u64>::empty(),
    {
        StealableQueue { worker: fifo_new() }
    }

    /// An end of the queue for the others.
    pub fn stealer(&self) -> (stealer: crossbeam_deque::Stealer<u64>)
        ensures
            stealer_queue(stealer) == self.queue(),
    {
        fifo_stealer(&self.worker)
    }
}

} // verus!
