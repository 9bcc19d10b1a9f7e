//! A channel with several senders and one receiver, all on one event loop.

use crate::poll::Poll;
use std::collections::VecDeque;
use std::task::Waker;
use vstd::prelude::*;

verus! {

/// Why a message was not sent. The message comes back.
#[derive(Clone, Copy, PartialEq, Eq)]
pub enum SendError<T> {
    /// Nobody receives any more.
    Closed(T),
    /// The channel is full.
    Full(T),
}

impl<T> SendError<T> {
    /// The error in words, without the message that comes back.
    pub fn message(&self) -> (text: &'static str)
        ensures
            text@ == (match *self {
                SendError::Closed(_) => "SendError::Closed(..)"@,
                SendError::Full(_) => "SendError::Full(..)"@,
            }),
    {
        match self {
            SendError::Closed(_) => "SendError::Closed(..)",
            SendError::Full(_) => "SendError::Full(..)",
        }
    }
}

/// How many messages a channel holds.
#[derive(Debug, Clone, Copy, PartialEq, Eq, Structural)]
pub enum ChannelCapacity {
    Unbounded,
    Bounded(usize),
}

/// Which end of the channel waits.
#[derive(Debug, Clone, Copy, PartialEq, Eq, Structural)]
pub enum WaiterKind {
    Sender,
    Receiver,
}

/// Outcome of an attempt that may have to wait.
pub enum PollResult<T> {
    Pending(WaiterKind),
    Ready(T),
}

/// Someone in a queue: which wait it is, and whom to wake.
pub struct WaiterNode {
    pub id: u64,
    pub waker: Waker,
}

/// A channel: its messages, oldest first, and those who wait at its ends.
pub struct State<T> {
    pub capacity: ChannelCapacity,
    pub channel: VecDeque<T>,
    pub tx_count: usize,
    pub is_closed: bool,
    pub recv_waiters: VecDeque<WaiterNode>,
    pub send_waiters: VecDeque<WaiterNode>,
}

/// The channel, as a mathematical value.
#[verifier::ext_equal]
pub ghost struct ChannelModel<T> {
    pub capacity: ChannelCapacity,
    pub items: Seq<T>,
    pub senders: nat,
    pub closed: bool,
    pub receivers_waiting: Seq<WaiterNode>,
    pub senders_waiting: Seq<WaiterNode>,
}

/// Place of a wait in a queue, or the queue's length.
pub open spec fn place_of(queue: Seq<WaiterNode>, id: u64) -> int
    decreases queue.len(),
{
    if queue.len() == 0 {
        0
    } else if queue[0].id == id {
        0
    } else {
        1 + place_of(queue.drop_first(), id)
    }
}

pub open spec fn queued(queue: Seq<WaiterNode>, id: u64) -> bool {
    place_of(queue, id) < queue.len()
}

/// The queue with the wait in it: in its place if it had one, else at the end.
pub open spec fn with_waiter(queue: Seq<WaiterNode>, id: u64, waker: Waker) -> Seq<WaiterNode> {
    if queued(queue, id) {
        queue.update(place_of(queue, id), WaiterNode { id, waker })
    } else {
        queue.push(WaiterNode { id, waker })
    }
}

pub open spec fn without_waiter(queue: Seq<WaiterNode>, id: u64) -> Seq<WaiterNode> {
    if queued(queue, id) {
        queue.remove(place_of(queue, id))
    } else {
        queue
    }
}

pub open spec fn wakers(queue: Seq<WaiterNode>) -> Seq<Waker> {
    queue.map_values(|n: WaiterNode| n.waker)
}

/// No wait stands in a queue twice.
pub open spec fn distinct(queue: Seq<WaiterNode>) -> bool {
    forall|i: int, j: int|
        0 <= i < queue.len() && 0 <= j < queue.len() && i != j ==> (#[trigger] queue[i]).id != (
        #[trigger] queue[j]).id
}

proof fn lemma_place(queue: Seq<WaiterNode>, id: u64)
    ensures
        0 <= place_of(queue, id) <= queue.len(),
        queued(queue, id) ==> queue[place_of(queue, id)].id == id,
        forall|i: int| 0 <= i < place_of(queue, id) ==> (#[trigger] queue[i]).id != id,
    decreases queue.len(),
{
    if queue.len() > 0 && queue[0].id != id {
        lemma_place(queue.drop_first(), id);
        assert forall|i: int| 0 <= i < place_of(queue, id) implies (#[trigger] queue[i]).id != id by {
            if i > 0 {
                assert(queue.drop_first()[i - 1] == queue[i]);
            }
        }
    }
}

/// A place with the wait and none before it is the wait's place.
proof fn lemma_place_is(queue: Seq<WaiterNode>, id: u64, at: int)
    requires
        0 <= at <= queue.len(),
        at < queue.len() ==> queue[at].id == id,
        forall|i: int| 0 <= i < at ==> (#[trigger] queue[i]).id != id,
    ensures
        place_of(queue, id) == at,
{
    lemma_place(queue, id);
}

impl<T> ChannelModel<T> {
    pub open spec fn full(self) -> bool {
        match self.capacity {
            ChannelCapacity::Unbounded => false,
            ChannelCapacity::Bounded(x) => self.items.len() >= x,
        }
    }

    /// A bounded channel holds no more than its bound, and nobody waits in two
    /// places of a queue.
    pub open spec fn inv(self) -> bool {
        &&& self.capacity matches ChannelCapacity::Bounded(x) ==> self.items.len() <= x
        &&& distinct(self.receivers_waiting)
        &&& distinct(self.senders_waiting)
    }

    pub open spec fn empty(capacity: ChannelCapacity) -> Self {
        ChannelModel {
            capacity,
            items: Seq::empty(),
            senders: 1,
            closed: false,
            receivers_waiting: Seq::empty(),
            senders_waiting: Seq::empty(),
        }
    }

    /// Whether a message can go into the channel now.
    pub open spec fn accepts(self) -> bool {
        !self.closed && !self.full()
    }

    /// A message goes in, and the first waiting receiver stops waiting.
    pub open spec fn sent(self, item: T) -> Self {
        ChannelModel {
            items: self.items.push(item),
            receivers_waiting: if self.receivers_waiting.len() > 0 {
                self.receivers_waiting.drop_first()
            } else {
                self.receivers_waiting
            },
            ..self
        }
    }

    /// The oldest message comes out, and the first waiting sender stops waiting.
    pub open spec fn received(self) -> Self {
        ChannelModel {
            items: self.items.drop_first(),
            senders_waiting: if self.senders_waiting.len() > 0 {
                self.senders_waiting.drop_first()
            } else {
                self.senders_waiting
            },
            ..self
        }
    }

    pub open spec fn queue(self, kind: WaiterKind) -> Seq<WaiterNode> {
        match kind {
            WaiterKind::Sender => self.senders_waiting,
            WaiterKind::Receiver => self.receivers_waiting,
        }
    }

    pub open spec fn with_queue(self, kind: WaiterKind, queue: Seq<WaiterNode>) -> Self {
        match kind {
            WaiterKind::Sender => ChannelModel { senders_waiting: queue, ..self },
            WaiterKind::Receiver => ChannelModel { receivers_waiting: queue, ..self },
        }
    }

    pub open spec fn waits(self, kind: WaiterKind, id: u64, waker: Waker) -> Self {
        self.with_queue(kind, with_waiter(self.queue(kind), id, waker))
    }

    pub open spec fn leaves(self, kind: WaiterKind, id: u64) -> Self {
        self.with_queue(kind, without_waiter(self.queue(kind), id))
    }

    pub open spec fn nobody_waits(self) -> Self {
        ChannelModel { senders_waiting: Seq::empty(), receivers_waiting: Seq::empty(), ..self }
    }

    /// Messages come out in the order in which they went in: what is sent is
    /// received after exactly what was there before.
    pub proof fn lemma_fifo(self, item: T, n: nat)
        requires
            self.items.len() == n,
        ensures
            self.sent(item).received_times(n).items == seq![item],
            self.sent(item).received_times(n + 1).items == Seq::<T>::empty(),
    {
        Self::lemma_received_times(self.sent(item), n);
        Self::lemma_received_times(self.sent(item), n + 1);
        assert(self.sent(item).items.skip(n as int) =~= seq![item]);
        assert(self.sent(item).items.skip((n + 1) as int) =~= Seq::empty());
    }

    /// `n` messages come out.
    pub open spec fn received_times(self, n: nat) -> Self
        decreases n,
    {
        if n == 0 {
            self
        } else {
            self.received_times((n - 1) as nat).received()
        }
    }

    proof fn lemma_received_times(m: Self, n: nat)
        requires
            n <= m.items.len(),
        ensures
            m.received_times(n).items == m.items.skip(n as int),
        decreases n,
    {
        if n > 0 {
            Self::lemma_received_times(m, (n - 1) as nat);
            assert(m.items.skip(n - 1).drop_first() =~= m.items.skip(n as int));
        } else {
            assert(m.items.skip(0) =~= m.items);
        }
    }

    /// A receiver that finds the channel empty and waits is the one that the next
    /// message wakes, if nobody waited before it.
    pub proof fn lemma_message_wakes_receiver(self, id: u64, waker: Waker, item: T)
        requires
            self.inv(),
            self.receivers_waiting.len() == 0,
        ensures
            self.waits(WaiterKind::Receiver, id, waker).queue(WaiterKind::Receiver)[0].waker == waker,
            self.waits(WaiterKind::Receiver, id, waker).sent(item).receivers_waiting.len() == 0,
    {
        lemma_place(self.receivers_waiting, id);
    }
}

/// Pops the first of a queue.
fn pop_waiter(queue: &mut VecDeque<WaiterNode>) -> (waker: Option<Waker>)
    requires
        distinct(old(queue)@),
    ensures
        distinct(final(queue)@),
        final(queue)@ == (if old(queue)@.len() > 0 {
            old(queue)@.drop_first()
        } else {
            old(queue)@
        }),
        waker == (if old(queue)@.len() > 0 {
            Some(old(queue)@[0].waker)
        } else {
            None
        }),
{
    match queue.pop_front() {
        Some(node) => {
            assert(queue@ =~= old(queue)@.drop_first());
            Some(node.waker)
        },
        None => None,
    }
}

/// Position of a wait in a queue, or its length.
fn find(queue: &VecDeque<WaiterNode>, id: u64) -> (at: usize)
    ensures
        at == place_of(queue@, id),
        at <= queue@.len(),
{
    let mut at: usize = 0;
    while at < queue.len() && queue[at].id != id
        invariant
            at <= queue@.len(),
            forall|i: int| 0 <= i < at ==> (#[trigger] queue@[i]).id != id,
        decreases queue@.len() - at,
    {
        at += 1;
    }
    proof {
        lemma_place_is(queue@, id, at as int);
    }
    at
}

/// Puts a wait into a queue, or renews whom it wakes.
fn enqueue(queue: &mut VecDeque<WaiterNode>, id: u64, waker: Waker)
    requires
        distinct(old(queue)@),
    ensures
        distinct(final(queue)@),
        final(queue)@ == with_waiter(old(queue)@, id, waker),
{
    let at: usize = find(queue, id);
    proof {
        lemma_place(queue@, id);
    }
    if at < queue.len() {
        let renewed: Option<WaiterNode> = queue.remove(at);
        queue.insert(at, WaiterNode { id, waker });
        assert(queue@ =~= with_waiter(old(queue)@, id, waker));
        assert(distinct(queue@)) by {
            assert forall|i: int, j: int| 0 <= i < queue@.len() && 0 <= j < queue@.len() && i != j implies (
            #[trigger] queue@[i]).id != (#[trigger] queue@[j]).id by {
                assert(old(queue)@[i].id != old(queue)@[j].id);
            }
        }
    } else {
        queue.push_back(WaiterNode { id, waker });
    }
}

/// Takes a wait out of a queue, if it is there.
fn dequeue(queue: &mut VecDeque<WaiterNode>, id: u64)
    requires
        distinct(old(queue)@),
    ensures
        distinct(final(queue)@),
        final(queue)@ == without_waiter(old(queue)@, id),
{
    let at: usize = find(queue, id);
    proof {
        lemma_place(queue@, id);
    }
    if at < queue.len() {
        let gone: Option<WaiterNode> = queue.remove(at);
    }
}

/// Takes everybody out of a queue, first to last, to be woken.
fn wake_up_all(queue: &mut VecDeque<WaiterNode>, woken: &mut Vec<Waker>)
    ensures
        final(queue)@ == Seq::<WaiterNode>::empty(),
        final(woken)@ == old(woken)@ + wakers(old(queue)@),
{
    let ghost all = wakers(queue@);
    assert(old(woken)@ + all =~= woken@ + wakers(queue@));
    while queue.len() > 0
        invariant
            old(woken)@ + all == woken@ + wakers(queue@),
        decreases queue@.len(),
    {
        let ghost before = queue@;
        let ghost woken_before = woken@;
        if let Some(node) = queue.pop_front() {
            woken.push(node.waker);
            assert(woken_before + wakers(before) =~= woken@ + wakers(queue@));
        }
    }
    assert(woken@ + wakers(queue@) =~= woken@);
    assert(queue@ =~= Seq::empty());
}

impl<T> State<T> {
    pub open spec fn view(self) -> ChannelModel<T> {
        ChannelModel {
            capacity: self.capacity,
            items: self.channel@,
            senders: self.tx_count as nat,
            closed: self.is_closed,
            receivers_waiting: self.recv_waiters@,
            senders_waiting: self.send_waiters@,
        }
    }

    pub open spec fn wf(self) -> bool {
        self@.inv()
    }

    fn new(capacity: ChannelCapacity) -> (state: Self)
        ensures
            state.wf(),
            state@ == ChannelModel::<T>::empty(capacity),
    {
        let state = State {
            capacity,
            channel: VecDeque::new(),
            tx_count: 1,
            is_closed: false,
            recv_waiters: VecDeque::new(),
            send_waiters: VecDeque::new(),
        };
        assert(state@ =~= ChannelModel::<T>::empty(capacity));
        state
    }

    /// Puts a message in, and tells whom to wake for it.
    pub fn push(&mut self, item: T) -> (sent: Result<Option<Waker>, SendError<T>>)
        requires
            old(self).wf(),
        ensures
            final(self).wf(),
            sent == (if old(self)@.closed {
                Err(SendError::Closed(item))
            } else if old(self)@.full() {
                Err(SendError::Full(item))
            } else if old(self)@.receivers_waiting.len() > 0 {
                Ok(Some(old(self)@.receivers_waiting[0].waker))
            } else {
                Ok(None)
            }),
            final(self)@ == (if old(self)@.accepts() {
                old(self)@.sent(item)
            } else {
                old(self)@
            }),
            sent is Ok <==> !old(self)@.closed && (old(self)@.capacity matches ChannelCapacity::Bounded(n)
                ==> old(self)@.items.len() < n),
    {
        if self.is_closed {
            return Err(SendError::Closed(item));
        }
        if self.is_full() {
            return Err(SendError::Full(item));
        }
        self.channel.push_back(item);
        let waker: Option<Waker> = pop_waiter(&mut self.recv_waiters);
        assert(self@ =~= old(self)@.sent(item));
        Ok(waker)
    }

    pub fn is_full(&self) -> (full: bool)
        ensures
            full == self@.full(),
            full <==> (self.capacity matches ChannelCapacity::Bounded(n) && self@.items.len() >= n),
    {
        match self.capacity {
            ChannelCapacity::Unbounded => false,
            ChannelCapacity::Bounded(x) => self.channel.len() >= x,
        }
    }

    /// Number of messages.
    pub fn len(&self) -> (n: usize)
        ensures
            n == self@.items.len(),
    {
        self.channel.len()
    }

    pub fn is_empty(&self) -> (empty: bool)
        ensures
            empty == (self@.items.len() == 0),
    {
        self.channel.len() == 0
    }

    /// Whether a sender need not wait: the channel has room, or nobody receives any
    /// more.
    pub fn wait_for_room(&self) -> (result: PollResult<()>)
        ensures
            result == (if self@.closed || !self@.full() {
                PollResult::Ready(())
            } else {
                PollResult::Pending(WaiterKind::Sender)
            }),
    {
        if self.is_closed {
            PollResult::Ready(())
        } else if !self.is_full() {
            PollResult::Ready(())
        } else {
            PollResult::Pending(WaiterKind::Sender)
        }
    }

    /// Takes the oldest message, and tells whom to wake for the room. Without
    /// messages it waits, or ends where no sender is left.
    pub fn recv_one(&mut self) -> (result: PollResult<Option<(T, Option<Waker>)>>)
        requires
            old(self).wf(),
        ensures
            final(self).wf(),
            result == (if old(self)@.items.len() > 0 {
                PollResult::Ready(
                    Some(
                        (
                            old(self)@.items[0],
                            if old(self)@.senders_waiting.len() > 0 {
                                Some(old(self)@.senders_waiting[0].waker)
                            } else {
                                None
                            },
                        ),
                    ),
                )
            } else if old(self)@.senders > 0 {
                PollResult::Pending(WaiterKind::Receiver)
            } else {
                PollResult::Ready(None)
            }),
            final(self)@ == (if old(self)@.items.len() > 0 {
                old(self)@.received()
            } else {
                old(self)@
            }),
    {
        match self.channel.pop_front() {
            Some(item) => {
                let waker: Option<Waker> = pop_waiter(&mut self.send_waiters);
                assert(self@ =~= old(self)@.received());
                PollResult::Ready(Some((item, waker)))
            },
            None => {
                assert(self@ =~= old(self)@);
                if self.tx_count > 0 {
                    PollResult::Pending(WaiterKind::Receiver)
                } else {
                    PollResult::Ready(None)
                }
            },
        }
    }

    /// Queues a wait at an end of the channel, or renews whom it wakes.
    pub fn register_into_waiting_queue(&mut self, kind: WaiterKind, id: u64, waker: Waker)
        requires
            old(self).wf(),
        ensures
            final(self).wf(),
            final(self)@ == old(self)@.waits(kind, id, waker),
    {
        match kind {
            WaiterKind::Sender => enqueue(&mut self.send_waiters, id, waker),
            WaiterKind::Receiver => enqueue(&mut self.recv_waiters, id, waker),
        }
        assert(self@ =~= old(self)@.waits(kind, id, waker));
    }

    /// Ends a wait.
    pub fn remove_from_the_waiting_queue(&mut self, kind: WaiterKind, id: u64)
        requires
            old(self).wf(),
        ensures
            final(self).wf(),
            final(self)@ == old(self)@.leaves(kind, id),
    {
        match kind {
            WaiterKind::Sender => dequeue(&mut self.send_waiters, id),
            WaiterKind::Receiver => dequeue(&mut self.recv_waiters, id),
        }
        assert(self@ =~= old(self)@.leaves(kind, id));
    }

    /// One attempt of a sender that waits for room as `id`.
    pub fn poll_room(&mut self, id: u64, waker: Waker) -> (room: Poll<()>)
        requires
            old(self).wf(),
        ensures
            final(self).wf(),
            ({
                let free = old(self)@.closed || !old(self)@.full();
                &&& room == (if free {
                    Poll::Ready(())
                } else {
                    Poll::Pending
                })
                &&& final(self)@ == (if free {
                    old(self)@.leaves(WaiterKind::Sender, id)
                } else {
                    old(self)@.waits(WaiterKind::Sender, id, waker)
                })
            }),
    {
        match self.wait_for_room() {
            PollResult::Pending(kind) => {
                self.register_into_waiting_queue(kind, id, waker);
                Poll::Pending
            },
            PollResult::Ready(_) => {
                self.remove_from_the_waiting_queue(WaiterKind::Sender, id);
                Poll::Ready(())
            },
        }
    }

    /// One attempt of the receiver, which waits as `id`. With a message comes whom
    /// to wake for the room.
    pub fn poll_recv(&mut self, id: u64, waker: Waker) -> (message: Poll<Option<(T, Option<Waker>)>>)
        requires
            old(self).wf(),
        ensures
            final(self).wf(),
            if old(self)@.items.len() > 0 {
                &&& message == Poll::Ready(
                    Some(
                        (
                            old(self)@.items[0],
                            if old(self)@.senders_waiting.len() > 0 {
                                Some(old(self)@.senders_waiting[0].waker)
                            } else {
                                None
                            },
                        ),
                    ),
                )
                &&& final(self)@ == old(self)@.received().leaves(WaiterKind::Receiver, id)
            } else if old(self)@.senders > 0 {
                &&& message == Poll::<Option<(T, Option<Waker>)>>::Pending
                &&& final(self)@ == old(self)@.waits(WaiterKind::Receiver, id, waker)
            } else {
                &&& message == Poll::Ready(None::<(T, Option<Waker>)>)
                &&& final(self)@ == old(self)@.leaves(WaiterKind::Receiver, id)
            },
    {
        match self.recv_one() {
            PollResult::Pending(kind) => {
                self.register_into_waiting_queue(kind, id, waker);
                Poll::Pending
            },
            PollResult::Ready(result) => {
                self.remove_from_the_waiting_queue(WaiterKind::Receiver, id);
                Poll::Ready(result)
            },
        }
    }

    /// One more sender.
    pub fn add_sender(&mut self)
        requires
            old(self).wf(),
            old(self).tx_count < usize::MAX,
        ensures
            final(self).wf(),
            final(self)@ == (ChannelModel { senders: old(self)@.senders + 1, ..old(self)@ }),
    {
        self.tx_count += 1;
        assert(self@ =~= (ChannelModel { senders: old(self)@.senders + 1, ..old(self)@ }));
    }

    /// One sender less. The last one wakes everybody who waits: senders, then the
    /// receiver.
    pub fn drop_sender(&mut self, woken: &mut Vec<Waker>)
        requires
            old(self).wf(),
            old(self).tx_count > 0,
        ensures
            final(self).wf(),
            ({
                let less = ChannelModel { senders: (old(self)@.senders - 1) as nat, ..old(self)@ };
                if less.senders == 0 {
                    &&& final(self)@ == less.nobody_waits()
                    &&& final(woken)@ == old(woken)@ + wakers(old(self)@.senders_waiting) + wakers(
                        old(self)@.receivers_waiting,
                    )
                } else {
                    &&& final(self)@ == less
                    &&& final(woken)@ == old(woken)@
                }
            }),
    {
        self.tx_count -= 1;
        if self.tx_count == 0 {
            wake_up_all(&mut self.send_waiters, woken);
            wake_up_all(&mut self.recv_waiters, woken);
        }
        proof {
            let less = ChannelModel { senders: (old(self)@.senders - 1) as nat, ..old(self)@ };
            if self.tx_count == 0 {
                assert(self@ =~= less.nobody_waits());
            } else {
                assert(self@ =~= less);
            }
        }
    }

    /// Nobody receives any more, and everybody who waits is woken: the receiver,
    /// then senders.
    pub fn drop_receiver(&mut self, woken: &mut Vec<Waker>)
        requires
            old(self).wf(),
        ensures
            final(self).wf(),
            final(self)@ == (ChannelModel { closed: true, ..old(self)@ }).nobody_waits(),
            final(woken)@ == old(woken)@ + wakers(old(self)@.receivers_waiting) + wakers(
                old(self)@.senders_waiting,
            ),
    {
        self.is_closed = true;
        wake_up_all(&mut self.recv_waiters, woken);
        wake_up_all(&mut self.send_waiters, woken);
        assert(self@ =~= (ChannelModel { closed: true, ..old(self)@ }).nobody_waits());
    }
}

/// A channel that is never full, with one sender.
pub fn new_unbounded<T>() -> (state: State<T>)
    ensures
        state.wf(),
        state@ == ChannelModel::<T>::empty(ChannelCapacity::Unbounded),
{
    State::new(ChannelCapacity::Unbounded)
}

/// A channel that holds up to `size` messages, with one sender.
pub fn new_bounded<T>(size: usize) -> (state: State<T>)
    ensures
        state.wf(),
        state@ == ChannelModel::<T>::empty(ChannelCapacity::Bounded(size)),
{
    State::new(ChannelCapacity::Bounded(size))
}

impl<T> ChannelModel<T> {
    /// The channel after messages went in, one after the other.
    pub open spec fn sent_all(self, items: Seq<T>) -> Self
        decreases items.len(),
    {
        if items.len() == 0 {
            self
        } else {
            self.sent_all(items.drop_last()).sent(items.last())
        }
    }

    /// A channel that is open and holds fewer messages than its bound takes another one,
    /// and one that holds as many does not. Without a bound it always does. A closed one
    /// takes none.
    pub proof fn lemma_room(self)
        ensures
            self.capacity matches ChannelCapacity::Bounded(n) ==> {
                &&& !self.closed && self.items.len() < n ==> self.accepts()
                &&& self.items.len() < n ==> !self.full()
                &&& self.items.len() >= n ==> self.full() && !self.accepts()
            },
            self.capacity is Unbounded ==> !self.full(),
            self.capacity is Unbounded && !self.closed ==> self.accepts(),
            self.closed ==> !self.accepts(),
    {
    }

    /// A new channel takes as many messages as its bound, one after the other, and only
    /// the next is refused as one too many. All of them are in it then, in order.
    pub proof fn lemma_fills_to_bound(n: usize, items: Seq<T>)
        requires
            items.len() <= n,
        ensures
            ({
                let channel = Self::empty(ChannelCapacity::Bounded(n)).sent_all(items);
                &&& channel.items == items
                &&& channel.accepts() <==> items.len() < n
                &&& channel.full() <==> items.len() == n
                &&& !channel.closed
                &&& channel.capacity == ChannelCapacity::Bounded(n)
            }),
        decreases items.len(),
    {
        if items.len() > 0 {
            Self::lemma_fills_to_bound(n, items.drop_last());
            assert(items.drop_last().push(items.last()) =~= items);
        } else {
            assert(items =~= Seq::empty());
        }
    }

    /// A message that comes out makes room for another.
    pub proof fn lemma_receiving_makes_room(self)
        requires
            self.inv(),
            !self.closed,
            self.items.len() > 0,
        ensures
            self.received().accepts(),
            self.received().items == self.items.skip(1),
            self.senders_waiting.len() > 0 ==> self.received().senders_waiting == self.senders_waiting.skip(1),
            self.received().inv(),
            self.received().capacity == self.capacity,
            self.received().senders == self.senders,
            self.received().receivers_waiting == self.receivers_waiting,
    {
        assert(self.items.drop_first() =~= self.items.skip(1));
        let q = self.received().senders_waiting;
        if self.senders_waiting.len() > 0 {
            assert(self.senders_waiting.drop_first() =~= self.senders_waiting.skip(1));
            assert forall|i: int, j: int| 0 <= i < q.len() && 0 <= j < q.len() && i != j implies (
            #[trigger] q[i]).id != (#[trigger] q[j]).id by {
                assert(q[i] == self.senders_waiting[i + 1] && q[j] == self.senders_waiting[j + 1]);
            }
        }
    }

    /// Who gives a wait up is gone from the line, and nobody else is: the others stay in
    /// order.
    pub proof fn lemma_leaves_alone(self, kind: WaiterKind, id: u64, at: int)
        requires
            self.inv(),
            0 <= at < self.queue(kind).len(),
            self.queue(kind)[at].id == id,
        ensures
            ({
                let (q, before) = (self.leaves(kind, id).queue(kind), self.queue(kind));
                &&& q.len() == before.len() - 1
                &&& forall|i: int| 0 <= i < at ==> #[trigger] q[i] == before[i]
                &&& forall|i: int| at <= i < q.len() ==> #[trigger] q[i] == before[i + 1]
                &&& forall|i: int| 0 <= i < q.len() ==> (#[trigger] q[i]).id != id
                &&& self.leaves(kind, id).items == self.items
                &&& kind is Sender ==> self.leaves(kind, id).receivers_waiting == self.receivers_waiting
                &&& kind is Receiver ==> self.leaves(kind, id).senders_waiting == self.senders_waiting
            }),
    {
        let before = self.queue(kind);
        assert(distinct(before));
        lemma_place_is(before, id, at);
        let q = self.leaves(kind, id).queue(kind);
        assert(q =~= before.remove(at));
        assert forall|i: int| 0 <= i < q.len() implies (#[trigger] q[i]).id != id by {
            if i < at {
                assert(q[i] == before[i]);
            } else {
                assert(q[i] == before[i + 1]);
            }
        }
    }

    /// A message goes in behind the others, and changes nothing but who waits for it.
    pub proof fn lemma_sent_behind(self, item: T)
        requires
            self.inv(),
            self.accepts(),
        ensures
            self.sent(item).items.len() == self.items.len() + 1,
            self.sent(item).items.last() == item,
            self.sent(item).items.drop_last() == self.items,
            self.sent(item).inv(),
            self.sent(item).capacity == self.capacity,
            self.sent(item).senders == self.senders,
            !self.sent(item).closed,
            self.sent(item).senders_waiting == self.senders_waiting,
            self.receivers_waiting.len() > 0 ==> self.sent(item).receivers_waiting
                == self.receivers_waiting.skip(1),
    {
        assert(self.sent(item).items.drop_last() =~= self.items);
        if self.receivers_waiting.len() > 0 {
            assert(self.receivers_waiting.drop_first() =~= self.receivers_waiting.skip(1));
        }
        let q = self.sent(item).receivers_waiting;
        assert(distinct(q)) by {
            assert forall|i: int, j: int| 0 <= i < q.len() && 0 <= j < q.len() && i != j implies (
            #[trigger] q[i]).id != (#[trigger] q[j]).id by {
                if self.receivers_waiting.len() > 0 {
                    assert(q[i] == self.receivers_waiting[i + 1] && q[j] == self.receivers_waiting[j + 1]);
                }
            }
        }
    }

    /// Who waits stands behind those who waited before, at one end alone, and giving the
    /// wait up undoes it. Waiting again keeps the place and renews whom to wake.
    pub proof fn lemma_wait_in_line(self, kind: WaiterKind, id: u64, waker: Waker, again: Waker)
        requires
            self.inv(),
        ensures
            ({
                let w = self.waits(kind, id, waker);
                let q = w.queue(kind);
                &&& w.items == self.items && w.senders == self.senders && w.closed == self.closed && w.capacity
                    == self.capacity
                &&& kind is Sender ==> w.receivers_waiting == self.receivers_waiting
                &&& kind is Receiver ==> w.senders_waiting == self.senders_waiting
                &&& exists|i: int| 0 <= i < q.len() && #[trigger] q[i] == (WaiterNode { id, waker })
                &&& !queued(self.queue(kind), id) ==> {
                    &&& q.last() == (WaiterNode { id, waker })
                    &&& q.drop_last() == self.queue(kind)
                    &&& w.leaves(kind, id) == self
                }
                &&& queued(self.queue(kind), id) ==> q.len() == self.queue(kind).len()
                &&& w.waits(kind, id, again).queue(kind).len() == q.len()
            }),
    {
        let old_q = self.queue(kind);
        let w = self.waits(kind, id, waker);
        let q = w.queue(kind);
        lemma_place(old_q, id);
        lemma_place(q, id);
        if queued(old_q, id) {
            let at = place_of(old_q, id);
            assert(q[at] == (WaiterNode { id, waker }));
            lemma_waits_found(q, id, at);
        } else {
            let at = q.len() - 1;
            assert(q[at] == (WaiterNode { id, waker }));
            assert(q.drop_last() =~= old_q);
            lemma_waits_found(q, id, at);
            assert forall|i: int| 0 <= i < at implies (#[trigger] q[i]).id != id by {
                assert(q[i] == old_q[i]);
            }
            assert(place_of(q, id) == at) by {
                let p = place_of(q, id);
                if p < at {
                    assert(q[p].id == id);
                }
            }
            assert(q.remove(at) =~= old_q);
            assert(w.leaves(kind, id) =~= self);
        }
    }

    /// When nobody is left at the other end, everybody who waits is let go, in order, and
    /// the messages stay.
    pub proof fn lemma_nobody_waits(self)
        ensures
            self.nobody_waits().senders_waiting.len() == 0,
            self.nobody_waits().receivers_waiting.len() == 0,
            self.nobody_waits().items == self.items,
            self.nobody_waits().senders == self.senders,
            self.nobody_waits().closed == self.closed,
            self.nobody_waits().capacity == self.capacity,
            wakers(self.receivers_waiting).len() == self.receivers_waiting.len(),
            forall|i: int|
                0 <= i < self.receivers_waiting.len() ==> #[trigger] wakers(self.receivers_waiting)[i]
                    == self.receivers_waiting[i].waker,
    {
    }

    /// A new channel is open, empty, and has one sender.
    pub proof fn lemma_new_channel(capacity: ChannelCapacity)
        ensures
            ({
                let channel = Self::empty(capacity);
                &&& channel.items.len() == 0
                &&& channel.senders == 1
                &&& !channel.closed
                &&& channel.capacity == capacity
                &&& channel.receivers_waiting.len() == 0
                &&& channel.senders_waiting.len() == 0
            }),
    {
    }
}

/// A wait that stands in a queue is found there.
proof fn lemma_waits_found(queue: Seq<WaiterNode>, id: u64, at: int)
    requires
        0 <= at < queue.len(),
        queue[at].id == id,
    ensures
        queued(queue, id),
{
    lemma_place(queue, id);
}

} // verus!
