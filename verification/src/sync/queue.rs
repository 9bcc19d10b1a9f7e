//! Queues of jobs, each known by its number.

use vstd::prelude::*;

verus! {

/// Declares `crossbeam_queue::SegQueue`, a queue without bound.
#[verifier::external_type_specification]
#[verifier::external_body]
#[verifier::reject_recursive_types(T)]
pub struct ExSegQueue<T>(crossbeam_queue::SegQueue<T>);

/// Declares `crossbeam_queue::ArrayQueue`, a queue with a bound.
#[verifier::external_type_specification]
#[verifier::external_body]
#[verifier::reject_recursive_types(T)]
pub struct ExArrayQueue<T>(crossbeam_queue::ArrayQueue<T>);

/// What a `SegQueue` holds, oldest first.
pub uninterp spec fn seg_contents(q: crossbeam_queue::SegQueue<u64>) -> Seq<u64>;

/// What an `ArrayQueue` holds, oldest first.
pub uninterp spec fn array_contents(q: crossbeam_queue::ArrayQueue<u64>) -> Seq<u64>;

/// The bound that an `ArrayQueue` was made with.
pub uninterp spec fn array_bound(q: crossbeam_queue::ArrayQueue<u64>) -> nat;

/// Calls `SegQueue::new`: the queue is empty.
#[verifier::external_body]
fn seg_new() -> (q: crossbeam_queue::SegQueue<u64>)
    ensures
        seg_contents(q) == Seq::<u64>::empty(),
{
    crossbeam_queue::SegQueue::new()
}

/// Calls `SegQueue::push`, which puts the value behind the others. The queue is
/// borrowed for this call alone, so nobody else changes it meanwhile.
#[verifier::external_body]
fn seg_push(q: &mut crossbeam_queue::SegQueue<u64>, value: u64)
    ensures
        seg_contents(*final(q)) == seg_contents(*old(q)).push(value),
{
    q.push(value)
}

/// Calls `SegQueue::pop`, which takes the oldest value off, if there is one. The
/// queue is borrowed for this call alone, so nobody else changes it meanwhile.
#[verifier::external_body]
fn seg_pop(q: &mut crossbeam_queue::SegQueue<u64>) -> (value: Option<u64>)
    ensures
        value == (if seg_contents(*old(q)).len() > 0 {
            Some(seg_contents(*old(q))[0])
        } else {
            None
        }),
        seg_contents(*final(q)) == (if seg_contents(*old(q)).len() > 0 {
            seg_contents(*old(q)).drop_first()
        } else {
            seg_contents(*old(q))
        }),
{
    q.pop()
}

/// Calls `SegQueue::is_empty`. The queue is borrowed for this call alone, so nobody
/// else changes it meanwhile.
#[verifier::external_body]
fn seg_is_empty(q: &mut crossbeam_queue::SegQueue<u64>) -> (empty: bool)
    ensures
        empty == (seg_contents(*old(q)).len() == 0),
        seg_contents(*final(q)) == seg_contents(*old(q)),
{
    q.is_empty()
}

/// Calls `ArrayQueue::new`: the queue is empty, with the bound given. It panics on
/// zero, and on a bound whose slots would not fit into memory.
#[verifier::external_body]
fn array_new(cap: usize) -> (q: crossbeam_queue::ArrayQueue<u64>)
    requires
        0 < cap <= isize::MAX / 16,
    ensures
        array_contents(q) == Seq::<u64>::empty(),
        array_bound(q) == cap,
{
    crossbeam_queue::ArrayQueue::new(cap)
}

/// Calls `ArrayQueue::push`, which puts the value behind the others, or hands it
/// back where the queue is full. The queue is borrowed for this call alone, so
/// nobody else changes it meanwhile.
#[verifier::external_body]
fn array_push(q: &mut crossbeam_queue::ArrayQueue<u64>, value: u64) -> (pushed: Result<(), u64>)
    ensures
        array_bound(*final(q)) == array_bound(*old(q)),
        pushed == (if array_contents(*old(q)).len() < array_bound(*old(q)) {
            Ok::<(), u64>(())
        } else {
            Err(value)
        }),
        array_contents(*final(q)) == (if array_contents(*old(q)).len() < array_bound(*old(q)) {
            array_contents(*old(q)).push(value)
        } else {
            array_contents(*old(q))
        }),
{
    q.push(value)
}

/// Calls `ArrayQueue::pop`, which takes the oldest value off, if there is one. The
/// queue is borrowed for this call alone, so nobody else changes it meanwhile.
#[verifier::external_body]
fn array_pop(q: &mut crossbeam_queue::ArrayQueue<u64>) -> (value: Option<u64>)
    ensures
        array_bound(*final(q)) == array_bound(*old(q)),
        value == (if array_contents(*old(q)).len() > 0 {
            Some(array_contents(*old(q))[0])
        } else {
            None
        }),
        array_contents(*final(q)) == (if array_contents(*old(q)).len() > 0 {
            array_contents(*old(q)).drop_first()
        } else {
            array_contents(*old(q))
        }),
{
    q.pop()
}

/// Calls `ArrayQueue::is_full`. The queue is borrowed for this call alone, so nobody
/// else changes it meanwhile.
#[verifier::external_body]
fn array_is_full(q: &mut crossbeam_queue::ArrayQueue<u64>) -> (full: bool)
    ensures
        full == (array_contents(*old(q)).len() >= array_bound(*old(q))),
        array_contents(*final(q)) == array_contents(*old(q)),
        array_bound(*final(q)) == array_bound(*old(q)),
{
    q.is_full()
}

/// A queue without bound.
pub struct JobQueue {
    inner: crossbeam_queue::SegQueue<u64>,
}

impl JobQueue {
    /// The jobs, oldest first.
    pub closed spec fn view(self) -> Seq<u64> {
        seg_contents(self.inner)
    }

    pub fn new() -> (q: Self)
        ensures
            q@ == Seq::<u64>::empty(),
    {
        JobQueue { inner: seg_new() }
    }

    pub fn push(&mut self, job: u64)
        ensures
            final(self)@ == old(self)@.push(job),
    {
        seg_push(&mut self.inner, job);
    }

    pub fn pop(&mut self) -> (job: Option<u64>)
        ensures
            job == (if old(self)@.len() > 0 {
                Some(old(self)@[0])
            } else {
                None
            }),
            final(self)@ == (if old(self)@.len() > 0 {
                old(self)@.drop_first()
            } else {
                old(self)@
            }),
    {
        seg_pop(&mut self.inner)
    }

    pub fn is_empty(&mut self) -> (empty: bool)
        ensures
            empty == (old(self)@.len() == 0),
            final(self)@ == old(self)@,
    {
        seg_is_empty(&mut self.inner)
    }
}

/// A queue with a bound.
pub struct BoundedJobQueue {
    inner: crossbeam_queue::ArrayQueue<u64>,
}

impl BoundedJobQueue {
    /// The jobs, oldest first.
    pub closed spec fn view(self) -> Seq<u64> {
        array_contents(self.inner)
    }

    pub closed spec fn bound(self) -> nat {
        array_bound(self.inner)
    }

    pub fn new(cap: usize) -> (q: Self)
        requires
            0 < cap <= isize::MAX / 16,
        ensures
            q@ == Seq::<u64>::empty(),
            q.bound() == cap,
    {
        BoundedJobQueue { inner: array_new(cap) }
    }

    /// Puts a job behind the others, or hands it back where the queue is full.
    pub fn push(&mut self, job: u64) -> (pushed: Result<(), u64>)
        ensures
            final(self).bound() == old(self).bound(),
            pushed == (if old(self)@.len() < old(self).bound() {
                Ok::<(), u64>(())
            } else {
                Err(job)
            }),
            final(self)@ == (if old(self)@.len() < old(self).bound() {
                old(self)@.push(job)
            } else {
                old(self)@
            }),
    {
        array_push(&mut self.inner, job)
    }

    pub fn pop(&mut self) -> (job: Option<u64>)
        ensures
            final(self).bound() == old(self).bound(),
            job == (if old(self)@.len() > 0 {
                Some(old(self)@[0])
            } else {
                None
            }),
            final(self)@ == (if old(self)@.len() > 0 {
                old(self)@.drop_first()
            } else {
                old(self)@
            }),
    {
        array_pop(&mut self.inner)
    }

    pub fn is_full(&mut self) -> (full: bool)
        ensures
            full == (old(self)@.len() >= old(self).bound()),
            final(self)@ == old(self)@,
            final(self).bound() == old(self).bound(),
    {
        array_is_full(&mut self.inner)
    }
}

} // verus!
