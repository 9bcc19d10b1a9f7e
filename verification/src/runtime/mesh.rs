//! Rings from one worker to another.

use vstd::prelude::*;

verus! {

/// The worker runs tasks.
pub const RUNNING: u8 = 0;

/// The worker looks into its queues one last time before it sleeps.
pub const PARKING: u8 = 1;

/// The worker sleeps.
pub const PARKED: u8 = 2;

/// Number of values that an index takes before it starts anew.
pub open spec fn index_range() -> int {
    usize::MAX + 1
}

/// A ring with one producer and one consumer. Its indices run on and start anew
/// after the largest number.
pub struct Ring<T> {
    buffer: Vec<Option<T>>,
    mask: usize,
    tail: usize,
    head: usize,
    shift: Ghost<nat>,
    start: Ghost<int>,
    items: Ghost<Seq<T>>,
}

proof fn lemma_range(shift: nat)
    requires
        shift < usize::BITS,
    ensures
        1 <= vstd::arithmetic::power2::pow2(shift) <= usize::MAX,
        2 * vstd::arithmetic::power2::pow2(shift) <= index_range(),
        index_range() % vstd::arithmetic::power2::pow2(shift) as int == 0,
{
    let bits = usize::BITS as nat;
    vstd::arithmetic::power2::lemma2_to64();
    vstd::arithmetic::power2::lemma_pow2_pos(shift);
    assert(vstd::arithmetic::power2::pow2(bits) == index_range());
    let rest = (bits - shift) as nat;
    vstd::arithmetic::power2::lemma_pow2_adds(shift, rest);
    let (a, b) = (
        vstd::arithmetic::power2::pow2(shift) as int,
        vstd::arithmetic::power2::pow2(rest) as int,
    );
    vstd::arithmetic::div_mod::lemma_mod_multiples_basic(b, a);
    assert(a * b == b * a) by (nonlinear_arith);
    vstd::arithmetic::power2::lemma_pow2_unfold(rest);
    vstd::arithmetic::power2::lemma_pow2_pos((rest - 1) as nat);
    assert(a * b >= 2 * a) by (nonlinear_arith)
        requires
            a >= 1,
            b >= 2,
    ;
}

/// Masking an index gives its place in the buffer.
proof fn lemma_place(index: usize, at: int, shift: nat)
    requires
        shift < usize::BITS,
        at >= 0,
        index == at % index_range(),
    ensures
        (index & ((vstd::arithmetic::power2::pow2(shift) - 1) as usize)) == at
            % vstd::arithmetic::power2::pow2(shift) as int,
{
    lemma_range(shift);
    let cap = vstd::arithmetic::power2::pow2(shift) as int;
    vstd::bits::lemma_usize_low_bits_mask_is_mod(index, shift);
    let (q, m) = (at / index_range(), index_range() / cap);
    vstd::arithmetic::div_mod::lemma_fundamental_div_mod(at, index_range());
    vstd::arithmetic::div_mod::lemma_fundamental_div_mod(index_range(), cap);
    assert(at == cap * (m * q) + index) by (nonlinear_arith)
        requires
            at == index_range() * q + index,
            index_range() == cap * m,
    ;
    vstd::arithmetic::div_mod::lemma_mod_multiples_vanish(m * q, index as int, cap);
}

/// Places less than a whole turn apart are different.
proof fn lemma_places_differ(start: int, i: int, j: int, cap: int)
    requires
        cap > 0,
        start >= 0,
        0 <= i < cap,
        0 <= j < cap,
        i != j,
    ensures
        (start + i) % cap != (start + j) % cap,
{
    if (start + i) % cap == (start + j) % cap {
        let (p, q) = ((start + i) / cap, (start + j) / cap);
        vstd::arithmetic::div_mod::lemma_fundamental_div_mod(start + i, cap);
        vstd::arithmetic::div_mod::lemma_fundamental_div_mod(start + j, cap);
        assert(i - j == cap * p - cap * q);
        assert(p == q) by (nonlinear_arith)
            requires
                i - j == cap * p - cap * q,
                -cap < i - j < cap,
                cap > 0,
        ;
    }
}

/// The distance of two indices, where it is less than a whole range.
proof fn lemma_distance(late: usize, early: usize, a: int, b: int)
    requires
        0 <= b <= a,
        a - b < index_range(),
        late == a % index_range(),
        early == b % index_range(),
    ensures
        late.wrapping_sub(early) == a - b,
        late == early <==> a == b,
{
    let r = index_range();
    vstd::arithmetic::div_mod::lemma_fundamental_div_mod(a, r);
    vstd::arithmetic::div_mod::lemma_fundamental_div_mod(b, r);
    let (p, q) = (a / r, b / r);
    assert(p == q || p == q + 1) by (nonlinear_arith)
        requires
            a == r * p + late,
            b == r * q + early,
            0 <= late < r,
            0 <= early < r,
            0 <= a - b < r,
    ;
    if p == q + 1 {
        assert(r * p == r * q + r) by (nonlinear_arith)
            requires
                p == q + 1,
        ;
    }
}

/// The index behind an index.
proof fn lemma_next(index: usize, at: int)
    requires
        at >= 0,
        index == at % index_range(),
    ensures
        index.wrapping_add(1) == (at + 1) % index_range(),
{
    let r = index_range();
    vstd::arithmetic::div_mod::lemma_fundamental_div_mod(at, r);
    let q = at / r;
    if index == usize::MAX {
        assert(at + 1 == r * (q + 1)) by (nonlinear_arith)
            requires
                at == r * q + index,
                index == r - 1,
        ;
        vstd::arithmetic::div_mod::lemma_mod_multiples_basic(q + 1, r);
        assert(r * (q + 1) == (q + 1) * r) by (nonlinear_arith);
    } else {
        vstd::arithmetic::div_mod::lemma_mod_multiples_vanish(q, index + 1, r);
    }
}

impl<T> Ring<T> {
    /// The items, oldest first.
    pub closed spec fn view(self) -> Seq<T> {
        self.items@
    }

    /// How many items the ring holds.
    pub closed spec fn capacity(self) -> nat {
        vstd::arithmetic::power2::pow2(self.shift@)
    }

    /// Number of items that were taken out so far.
    pub closed spec fn taken(self) -> int {
        self.start@
    }

    spec fn place(self, i: int) -> int {
        (self.start@ + i) % self.capacity() as int
    }

    spec fn slot_ok(self, i: int) -> bool {
        self.buffer@[self.place(i)] == if i < self.items@.len() {
            Some(self.items@[i])
        } else {
            None
        }
    }

    pub closed spec fn wf(self) -> bool {
        &&& self.shift@ < usize::BITS
        &&& self.start@ >= 0
        &&& self.buffer@.len() == self.capacity()
        &&& self.mask == self.capacity() - 1
        &&& self.items@.len() <= self.capacity()
        &&& self.head == self.start@ % index_range()
        &&& self.tail == (self.start@ + self.items@.len()) % index_range()
        &&& forall|i: int| 0 <= i < self.capacity() ==> #[trigger] self.slot_ok(i)
    }

    pub proof fn lemma_bounds(self)
        requires
            self.wf(),
        ensures
            self.capacity() >= 1,
            self@.len() <= self.capacity(),
            self.taken() >= 0,
    {
        lemma_range(self.shift@);
    }

    /// A ring that holds at least `capacity` items: as many as the next power of
    /// two.
    fn new(capacity: usize) -> (ring: Self)
        requires
            capacity <= usize::MAX / 2 + 1,
        ensures
            ring.wf(),
            ring@ == Seq::<T>::empty(),
            ring.taken() == 0,
            ring.capacity() >= capacity,
            ring.capacity() == 1 || ring.capacity() < 2 * capacity,
            exists|n: nat| ring.capacity() == #[trigger] vstd::arithmetic::power2::pow2(n),
    {
        let mut cap: usize = 1;
        let ghost mut shift: nat = 0;
        proof {
            vstd::arithmetic::power2::lemma2_to64();
        }
        while cap < capacity
            invariant
                capacity <= usize::MAX / 2 + 1,
                shift < usize::BITS,
                cap == vstd::arithmetic::power2::pow2(shift),
                cap >= 1,
                cap == 1 || cap < 2 * capacity,
            decreases usize::BITS - shift,
        {
            proof {
                lemma_range(shift);
                vstd::arithmetic::power2::lemma_pow2_unfold(shift + 1);
                let bits = usize::BITS as nat;
                vstd::arithmetic::power2::lemma2_to64();
                assert(vstd::arithmetic::power2::pow2(bits) == index_range());
                assert(shift + 1 < bits) by {
                    if shift + 1 == bits {
                        assert(2 * cap == index_range());
                    }
                }
                shift = shift + 1;
            }
            cap = cap * 2;
        }
        let mut buffer: Vec<Option<T>> = Vec::new();
        let mut i: usize = 0;
        while i < cap
            invariant
                i <= cap,
                buffer@.len() == i,
                forall|j: int| 0 <= j < i ==> #[trigger] buffer@[j] is None,
            decreases cap - i,
        {
            buffer.push(None);
            i += 1;
        }
        let ring = Ring {
            buffer,
            mask: cap - 1,
            tail: 0,
            head: 0,
            shift: Ghost(shift),
            start: Ghost(0),
            items: Ghost(Seq::empty()),
        };
        proof {
            lemma_range(shift);
            assert(0int % index_range() == 0);
            assert forall|i: int| 0 <= i < ring.capacity() implies #[trigger] ring.slot_ok(i) by {
                vstd::arithmetic::div_mod::lemma_small_mod(i as nat, ring.capacity());
            }
        }
        ring
    }

    /// Writes an item behind the others.
    fn write(&mut self, item: T)
        requires
            old(self).wf(),
            old(self)@.len() < old(self).capacity(),
        ensures
            final(self).wf(),
            final(self)@ == old(self)@.push(item),
            final(self).capacity() == old(self).capacity(),
            final(self).taken() == old(self).taken(),
    {
        let ghost before = *self;
        let ghost n = self.items@.len() as int;
        proof {
            lemma_range(self.shift@);
            lemma_place(self.tail, self.start@ + n, self.shift@);
            lemma_next(self.tail, self.start@ + n);
        }
        let idx: usize = self.tail & self.mask;
        self.buffer[idx] = Some(item);
        self.tail = self.tail.wrapping_add(1);
        proof {
            self.items = Ghost(self.items@.push(item));
            assert forall|i: int| 0 <= i < self.capacity() implies #[trigger] self.slot_ok(i) by {
                assert(before.slot_ok(i));
                if i != n {
                    lemma_places_differ(self.start@, i, n, self.capacity() as int);
                }
            }
        }
    }

    /// Takes the oldest item out.
    fn read(&mut self) -> (item: T)
        requires
            old(self).wf(),
            old(self)@.len() > 0,
        ensures
            final(self).wf(),
            item == old(self)@[0],
            final(self)@ == old(self)@.drop_first(),
            final(self).capacity() == old(self).capacity(),
            final(self).taken() == old(self).taken() + 1,
    {
        let ghost before = *self;
        proof {
            lemma_range(self.shift@);
            lemma_place(self.head, self.start@, self.shift@);
            lemma_next(self.head, self.start@);
            assert(before.slot_ok(0));
        }
        let idx: usize = self.head & self.mask;
        let mut slot: Option<T> = None;
        std::mem::swap(&mut slot, &mut self.buffer[idx]);
        let item: T = slot.unwrap();
        self.head = self.head.wrapping_add(1);
        proof {
            let cap = self.capacity() as int;
            self.start = Ghost(self.start@ + 1);
            self.items = Ghost(self.items@.drop_first());
            assert forall|i: int| 0 <= i < self.capacity() implies #[trigger] self.slot_ok(i) by {
                if i < cap - 1 {
                    assert(before.slot_ok(i + 1));
                    assert(self.place(i) == before.place(i + 1));
                    lemma_places_differ(before.start@, i + 1, 0, cap);
                } else {
                    vstd::arithmetic::div_mod::lemma_mod_add_multiples_vanish(before.start@, cap);
                    assert(self.place(i) == before.place(0));
                }
            }
        }
        item
    }
}

/// The writing end of a ring. It remembers how far the reading end was when it last
/// looked.
pub struct Producer {
    head_cache: usize,
    seen: Ghost<int>,
}

/// The reading end of a ring. It remembers how far the writing end was when it last
/// looked.
pub struct Consumer {
    tail_cache: usize,
    seen: Ghost<int>,
}

impl Producer {
    /// Whether what the producer remembers was true of the ring at some time, not
    /// more than a turn ago.
    pub closed spec fn fits<T>(self, ring: Ring<T>) -> bool {
        &&& 0 <= self.seen@ <= ring.taken()
        &&& ring.taken() + ring@.len() - self.seen@ <= ring.capacity()
        &&& self.head_cache == self.seen@ % index_range()
    }

    /// Still fits after the reading end took items out.
    pub proof fn lemma_fits_after_read<T>(self, before: Ring<T>, after: Ring<T>)
        requires
            self.fits(before),
            after.capacity() == before.capacity(),
            after.taken() >= before.taken(),
            after.taken() + after@.len() == before.taken() + before@.len(),
        ensures
            self.fits(after),
    {
    }

    /// Puts an item into the ring, or hands it back where the ring is full.
    pub fn push<T>(&mut self, ring: &mut Ring<T>, item: T) -> (pushed: Result<(), T>)
        requires
            old(ring).wf(),
            old(self).fits(*old(ring)),
        ensures
            final(ring).wf(),
            final(self).fits(*final(ring)),
            final(ring).capacity() == old(ring).capacity(),
            final(ring).taken() == old(ring).taken(),
            pushed == (if old(ring)@.len() < old(ring).capacity() {
                Ok::<(), T>(())
            } else {
                Err(item)
            }),
            final(ring)@ == (if old(ring)@.len() < old(ring).capacity() {
                old(ring)@.push(item)
            } else {
                old(ring)@
            }),
    {
        let head: usize = self.head_cache;
        let tail: usize = ring.tail;
        let mask: usize = ring.mask;
        proof {
            lemma_range(ring.shift@);
            lemma_distance(tail, head, ring.start@ + ring.items@.len(), self.seen@);
            lemma_distance(tail, ring.head, ring.start@ + ring.items@.len(), ring.start@);
        }
        if tail.wrapping_sub(head) >= mask + 1 {
            let new_head: usize = ring.head;
            self.head_cache = new_head;
            proof {
                self.seen = Ghost(ring.start@);
            }
            if tail.wrapping_sub(new_head) >= mask + 1 {
                return Err(item);
            }
        }
        ring.write(item);
        Ok(())
    }
}

impl Consumer {
    /// Whether what the consumer remembers was true of the ring at some time.
    pub closed spec fn fits<T>(self, ring: Ring<T>) -> bool {
        &&& ring.taken() <= self.seen@ <= ring.taken() + ring@.len()
        &&& self.tail_cache == self.seen@ % index_range()
    }

    /// Still fits after the writing end put items in.
    pub proof fn lemma_fits_after_write<T>(self, before: Ring<T>, after: Ring<T>)
        requires
            self.fits(before),
            after.taken() == before.taken(),
            after@.len() >= before@.len(),
        ensures
            self.fits(after),
    {
    }

    /// Takes the oldest item out of the ring, if there is one.
    pub fn pop<T>(&mut self, ring: &mut Ring<T>) -> (item: Option<T>)
        requires
            old(ring).wf(),
            old(self).fits(*old(ring)),
        ensures
            final(ring).wf(),
            final(self).fits(*final(ring)),
            final(ring).capacity() == old(ring).capacity(),
            item == (if old(ring)@.len() > 0 {
                Some(old(ring)@[0])
            } else {
                None
            }),
            final(ring)@ == (if old(ring)@.len() > 0 {
                old(ring)@.drop_first()
            } else {
                old(ring)@
            }),
            final(ring).taken() == old(ring).taken() + (if item is Some {
                1int
            } else {
                0
            }),
    {
        let tail: usize = self.tail_cache;
        let head: usize = ring.head;
        proof {
            lemma_range(ring.shift@);
            lemma_distance(tail, head, self.seen@, ring.start@);
            lemma_distance(ring.tail, head, ring.start@ + ring.items@.len(), ring.start@);
        }
        if head == tail {
            let new_tail: usize = ring.tail;
            self.tail_cache = new_tail;
            proof {
                self.seen = Ghost(ring.start@ + ring.items@.len());
            }
            if head == new_tail {
                return None;
            }
        }
        Some(ring.read())
    }

    /// Takes up to `limit` items out of the ring, oldest first, and tells how many.
    pub fn drain_into<T>(&mut self, ring: &mut Ring<T>, dest: &mut Vec<T>, limit: usize) -> (count: usize)
        requires
            old(ring).wf(),
            old(self).fits(*old(ring)),
        ensures
            final(ring).wf(),
            final(self).fits(*final(ring)),
            final(ring).capacity() == old(ring).capacity(),
            count == (if old(ring)@.len() < limit {
                old(ring)@.len() as int
            } else {
                limit as int
            }),
            final(dest)@ == old(dest)@ + old(ring)@.take(count as int),
            final(ring)@ == old(ring)@.skip(count as int),
            final(ring).taken() == old(ring).taken() + count,
    {
        let mut count: usize = 0;
        let ghost start = ring@;
        let ghost taken = ring.taken();
        self.tail_cache = ring.tail;
        proof {
            self.seen = Ghost(ring.start@ + ring.items@.len());
            assert(dest@ + start.take(0) =~= dest@);
            assert(start.skip(0) =~= start);
        }
        let tail: usize = self.tail_cache;
        let ghost seen = self.seen@;
        proof {
            lemma_range(ring.shift@);
            lemma_distance(tail, ring.head, seen, ring.start@);
        }
        while count < limit && ring.head != tail
            invariant
                ring.wf(),
                ring.capacity() == old(ring).capacity(),
                tail == seen % index_range(),
                ring.taken() + ring@.len() == seen,
                ring.taken() == taken + count,
                count <= limit,
                count <= start.len(),
                ring@ == start.skip(count as int),
                dest@ == old(dest)@ + start.take(count as int),
                tail == ring.head <==> ring@.len() == 0,
            decreases limit - count,
        {
            let item: T = ring.read();
            dest.push(item);
            proof {
                assert(start.skip(count as int).drop_first() =~= start.skip(count + 1));
                assert(start.take(count + 1) =~= start.take(count as int).push(item));
                lemma_range(ring.shift@);
                lemma_distance(tail, ring.head, seen, ring.start@);
            }
            count += 1;
        }
        count
    }

    /// Whether the ring has nothing to read.
    pub fn is_empty<T>(&self, ring: &Ring<T>) -> (empty: bool)
        requires
            ring.wf(),
        ensures
            empty == (ring@.len() == 0),
    {
        proof {
            lemma_range(ring.shift@);
            lemma_distance(ring.tail, ring.head, ring.start@ + ring.items@.len(), ring.start@);
        }
        ring.head == ring.tail
    }
}

/// A ring for at least `capacity` items, with its two ends.
pub fn channel<T>(capacity: usize) -> (ends: (Ring<T>, Producer, Consumer))
    requires
        capacity <= usize::MAX / 2 + 1,
    ensures
        ends.0.wf(),
        ends.0@ == Seq::<T>::empty(),
        ends.0.capacity() >= capacity,
        ends.0.capacity() == 1 || ends.0.capacity() < 2 * capacity,
        exists|n: nat| ends.0.capacity() == #[trigger] vstd::arithmetic::power2::pow2(n),
        ends.1.fits(ends.0),
        ends.2.fits(ends.0),
{
    let ring: Ring<T> = Ring::new(capacity);
    proof {
        ring.lemma_bounds();
    }
    (ring, Producer { head_cache: 0, seen: Ghost(0) }, Consumer { tail_cache: 0, seen: Ghost(0) })
}

/// Whether the sender of a job has to wake the receiver.
pub open spec fn must_notify(state: u8) -> bool {
    state == PARKED || state == PARKING
}

/// A worker's ends of the rings to and from the others.
pub struct MeshContext {
    pub id: usize,
    pub ingress: Vec<Consumer>,
    pub egress: Vec<Producer>,
}

impl MeshContext {
    /// Whether the reading ends fit the rings.
    pub open spec fn reads<T>(self, inbox: Seq<Ring<T>>) -> bool {
        &&& self.ingress@.len() == inbox.len()
        &&& forall|i: int| 0 <= i < inbox.len() ==> (#[trigger] inbox[i]).wf() && self.ingress@[i].fits(inbox[i])
    }

    /// Sends a job to another worker through its inbox, whose rings go by sender.
    /// The job comes back where there is no such worker or its ring is full. A
    /// worker that sleeps, or is about to, has to be woken through its handle, if
    /// it has one: zero is none.
    pub fn send_to<T>(
        &mut self,
        peer_id: usize,
        inbox: &mut Vec<Ring<T>>,
        job: T,
        target_state: u8,
        handle: usize,
    ) -> (sent: Result<Option<usize>, T>)
        requires
            peer_id < old(self).egress@.len() ==> {
                &&& old(self).id < old(inbox)@.len()
                &&& old(inbox)@[old(self).id as int].wf()
                &&& old(self).egress@[peer_id as int].fits(old(inbox)@[old(self).id as int])
            },
        ensures
            final(self).id == old(self).id,
            final(self).ingress@ == old(self).ingress@,
            final(self).egress@.len() == old(self).egress@.len(),
            forall|p: int|
                0 <= p < old(self).egress@.len() && p != peer_id ==> #[trigger] final(self).egress@[p]
                    == old(self).egress@[p],
            final(inbox)@.len() == old(inbox)@.len(),
            forall|s: int|
                0 <= s < old(inbox)@.len() && s != old(self).id ==> #[trigger] final(inbox)@[s] == old(
                    inbox,
                )@[s],
            if peer_id < old(self).egress@.len() {
                let ring = old(inbox)@[old(self).id as int];
                let after = final(inbox)@[old(self).id as int];
                &&& after.wf()
                &&& after.capacity() == ring.capacity()
                &&& after.taken() == ring.taken()
                &&& final(self).egress@[peer_id as int].fits(after)
                &&& if ring@.len() < ring.capacity() {
                    &&& sent == (if must_notify(target_state) && handle != 0 {
                        Ok::<Option<usize>, T>(Some(handle))
                    } else {
                        Ok(None)
                    })
                    &&& after@ == ring@.push(job)
                } else {
                    &&& sent == Err::<Option<usize>, T>(job)
                    &&& after@ == ring@
                }
            } else {
                &&& sent == Err::<Option<usize>, T>(job)
                &&& final(inbox)@ == old(inbox)@
            },
    {
        if peer_id >= self.egress.len() {
            return Err(job);
        }
        let me: usize = self.id;
        let pushed = self.egress[peer_id].push(&mut inbox[me], job);
        match pushed {
            Err(job) => Err(job),
            Ok(_) => {
                if target_state == PARKED || target_state == PARKING {
                    if handle != 0 {
                        return Ok(Some(handle));
                    }
                }
                Ok(None)
            },
        }
    }

    /// The oldest job of each of the first `n` rings that has one, in order.
    pub open spec fn arrived<T>(inbox: Seq<Ring<T>>, n: int) -> Seq<T>
        decreases n,
    {
        if n <= 0 {
            Seq::empty()
        } else if inbox[n - 1]@.len() > 0 {
            Self::arrived(inbox, n - 1).push(inbox[n - 1]@[0])
        } else {
            Self::arrived(inbox, n - 1)
        }
    }

    /// Takes one job from each ring that has one, and tells whether any did.
    pub fn poll_ingress<T>(&mut self, inbox: &mut Vec<Ring<T>>, jobs: &mut Vec<T>) -> (did_work: bool)
        requires
            old(self).reads(old(inbox)@),
        ensures
            final(self).reads(final(inbox)@),
            final(self).id == old(self).id,
            final(self).egress@ == old(self).egress@,
            final(inbox)@.len() == old(inbox)@.len(),
            forall|i: int|
                0 <= i < old(inbox)@.len() ==> {
                    let (before, after) = (old(inbox)@[i], #[trigger] final(inbox)@[i]);
                    &&& after.capacity() == before.capacity()
                    &&& after@ == (if before@.len() > 0 {
                        before@.drop_first()
                    } else {
                        before@
                    })
                    &&& after.taken() + after@.len() == before.taken() + before@.len()
                },
            final(jobs)@ == old(jobs)@ + Self::arrived(old(inbox)@, old(inbox)@.len() as int),
            did_work == (Self::arrived(old(inbox)@, old(inbox)@.len() as int).len() > 0),
    {
        let mut did_work: bool = false;
        let mut i: usize = 0;
        let ghost start = inbox@;
        assert(jobs@ + Self::arrived(start, 0) =~= jobs@);
        while i < self.ingress.len()
            invariant
                i <= self.ingress@.len(),
                start == old(inbox)@,
                self.ingress@.len() == inbox@.len() == start.len(),
                self.id == old(self).id,
                self.egress@ == old(self).egress@,
                forall|j: int| 0 <= j < inbox@.len() ==> (#[trigger] inbox@[j]).wf() && self.ingress@[j].fits(inbox@[j]),
                forall|j: int| i <= j < start.len() ==> #[trigger] inbox@[j] == start[j],
                forall|j: int|
                    0 <= j < i ==> {
                        let (before, after) = (start[j], #[trigger] inbox@[j]);
                        &&& after.capacity() == before.capacity()
                        &&& after@ == (if before@.len() > 0 {
                            before@.drop_first()
                        } else {
                            before@
                        })
                        &&& after.taken() + after@.len() == before.taken() + before@.len()
                    },
                jobs@ == old(jobs)@ + Self::arrived(start, i as int),
                did_work == (Self::arrived(start, i as int).len() > 0),
            decreases self.ingress@.len() - i,
        {
            assert(inbox@[i as int] == start[i as int]);
            let job: Option<T> = self.ingress[i].pop(&mut inbox[i]);
            if let Some(job) = job {
                jobs.push(job);
                did_work = true;
                assert(old(jobs)@ + Self::arrived(start, i + 1) =~= (old(jobs)@ + Self::arrived(
                    start,
                    i as int,
                )).push(job));
            }
            i += 1;
        }
        did_work
    }
}

/// The rings between all workers: for each worker an inbox with a ring from each of
/// the others, and the handle of its driver, zero while that is not known.
pub struct Network {
    pub inboxes: Vec<Vec<Ring<u64>>>,
    pub peer_handles: Vec<usize>,
}

impl Network {
    /// Whether a worker's writing ends fit its rings in the others' inboxes.
    pub open spec fn carries(self, mesh: MeshContext) -> bool {
        &&& mesh.egress@.len() <= self.inboxes@.len()
        &&& mesh.egress@.len() <= self.peer_handles@.len()
        &&& forall|p: int|
            0 <= p < mesh.egress@.len() ==> {
                &&& mesh.id < (#[trigger] self.inboxes@[p])@.len()
                &&& self.inboxes@[p]@[mesh.id as int].wf()
                &&& mesh.egress@[p].fits(self.inboxes@[p]@[mesh.id as int])
            }
    }

    /// Whether a job from one worker to another finds room.
    pub open spec fn has_room(self, mesh: MeshContext, to: usize) -> bool {
        &&& to < mesh.egress@.len()
        &&& self.inboxes@[to as int]@[mesh.id as int]@.len() < self.inboxes@[to as int]@[mesh.id as int].capacity()
    }

    /// Whether all rings but one are as before.
    pub open spec fn same_but(self, before: Network, from: int, to: int) -> bool {
        &&& self.peer_handles == before.peer_handles
        &&& self.inboxes@.len() == before.inboxes@.len()
        &&& forall|p: int|
            0 <= p < before.inboxes@.len() ==> (#[trigger] self.inboxes@[p])@.len()
                == before.inboxes@[p]@.len()
        &&& forall|p: int, s: int|
            0 <= p < before.inboxes@.len() && 0 <= s < before.inboxes@[p]@.len() && !(p == to && s
                == from) ==> #[trigger] self.inboxes@[p]@[s] == before.inboxes@[p]@[s]
    }

    /// Whether a job was put behind the others in the ring from one worker to
    /// another, and all else is as before.
    pub open spec fn delivered(self, before: Network, from: int, to: int, job: u64) -> bool {
        &&& self.same_but(before, from, to)
        &&& self.inboxes@[to]@[from].wf()
        &&& self.inboxes@[to]@[from]@ == before.inboxes@[to]@[from]@.push(job)
        &&& self.inboxes@[to]@[from].capacity() == before.inboxes@[to]@[from].capacity()
        &&& self.inboxes@[to]@[from].taken() == before.inboxes@[to]@[from].taken()
    }

    /// Whether all rings hold what they held.
    pub open spec fn same(self, before: Network, from: int, to: int) -> bool {
        &&& self.same_but(before, from, to)
        &&& 0 <= to < before.inboxes@.len() && 0 <= from < before.inboxes@[to]@.len() ==> {
            &&& before.inboxes@[to]@[from].wf() ==> self.inboxes@[to]@[from].wf()
            &&& self.inboxes@[to]@[from]@ == before.inboxes@[to]@[from]@
            &&& self.inboxes@[to]@[from].capacity() == before.inboxes@[to]@[from].capacity()
            &&& self.inboxes@[to]@[from].taken() == before.inboxes@[to]@[from].taken()
        }
    }

    /// Sends a job from a worker to another, whose state is given. Gives the handle
    /// to notify, if that is needed, or the job back.
    pub fn send(&mut self, mesh: &mut MeshContext, to: usize, job: u64, state: u8) -> (sent: Result<
        Option<usize>,
        u64,
    >)
        requires
            old(self).carries(*old(mesh)),
        ensures
            final(self).carries(*final(mesh)),
            final(mesh).id == old(mesh).id,
            final(mesh).ingress@ == old(mesh).ingress@,
            final(mesh).egress@.len() == old(mesh).egress@.len(),
            if old(self).has_room(*old(mesh), to) {
                let handle = old(self).peer_handles@[to as int];
                &&& final(self).delivered(*old(self), old(mesh).id as int, to as int, job)
                &&& sent == (if must_notify(state) && handle != 0 {
                    Ok::<Option<usize>, u64>(Some(handle))
                } else {
                    Ok(None)
                })
            } else {
                &&& final(self).same(*old(self), old(mesh).id as int, to as int)
                &&& sent == Err::<Option<usize>, u64>(job)
            },
    {
        if to >= mesh.egress.len() {
            return Err(job);
        }
        let handle: usize = self.peer_handles[to];
        assert(self.inboxes@[to as int]@[mesh.id as int].wf());
        mesh.send_to(to, &mut self.inboxes[to], job, state, handle)
    }
}

/// A job that was sent can be read: the receiving worker's ends still fit its inbox,
/// and so do the writing ends of all the other workers.
pub proof fn lemma_delivery_keeps_ends(
    before: Network,
    after: Network,
    sender: MeshContext,
    other: MeshContext,
    to: int,
    job: u64,
)
    requires
        before.carries(sender),
        before.carries(other),
        0 <= to < sender.egress@.len(),
        after.delivered(before, sender.id as int, to, job),
        other.id < before.inboxes@.len(),
        other.reads(before.inboxes@[other.id as int]@),
    ensures
        other.reads(after.inboxes@[other.id as int]@),
        other.id != sender.id ==> after.carries(other),
{
    let (from, me) = (sender.id as int, other.id as int);
    assert(before.inboxes@[to]@.len() > from);
    assert(after.inboxes@[me]@.len() == before.inboxes@[me]@.len());
    assert forall|i: int| 0 <= i < after.inboxes@[me]@.len() implies (#[trigger] after.inboxes@[me]@[i]).wf()
        && other.ingress@[i].fits(after.inboxes@[me]@[i]) by {
        assert(before.inboxes@[me]@[i].wf());
        if me == to && i == from {
            other.ingress@[i].lemma_fits_after_write(before.inboxes@[me]@[i], after.inboxes@[me]@[i]);
        }
    }
    if me != from {
        assert forall|p: int| 0 <= p < other.egress@.len() implies {
            &&& other.id < (#[trigger] after.inboxes@[p])@.len()
            &&& after.inboxes@[p]@[me].wf()
            &&& other.egress@[p].fits(after.inboxes@[p]@[me])
        } by {
            assert(before.inboxes@[p]@[me].wf());
            assert(after.inboxes@[p]@[me] == before.inboxes@[p]@[me]);
        }
    }
}

/// Whether a worker's reading ends fit its inbox.
pub open spec fn receives(net: Network, mesh: MeshContext) -> bool {
    &&& mesh.id < net.inboxes@.len()
    &&& mesh.reads(net.inboxes@[mesh.id as int]@)
}

/// A ring for at least `capacity` jobs from each of `count` workers to each, with the
/// ends of every worker. No driver is known yet.
pub fn full_mesh(count: usize, capacity: usize) -> (built: (Network, Vec<MeshContext>))
    requires
        capacity <= usize::MAX / 2 + 1,
    ensures
        built.0.inboxes@.len() == count,
        built.0.peer_handles@ == Seq::new(count as nat, |i: int| 0usize),
        built.1@.len() == count,
        forall|w: int|
            0 <= w < count ==> {
                &&& (#[trigger] built.1@[w]).id == w
                &&& built.1@[w].egress@.len() == count
                &&& built.0.carries(built.1@[w])
                &&& receives(built.0, built.1@[w])
            },
        forall|to: int, from: int|
            0 <= to < count && 0 <= from < count ==> {
                &&& (#[trigger] built.0.inboxes@[to]@[from])@ == Seq::<u64>::empty()
                &&& built.0.inboxes@[to]@[from].capacity() >= capacity
            },
{
    let mut inboxes: Vec<Vec<Ring<u64>>> = Vec::new();
    let mut peer_handles: Vec<usize> = Vec::new();
    let mut ingress: Vec<Vec<Consumer>> = Vec::new();
    let mut egress: Vec<Vec<Producer>> = Vec::new();
    let mut w: usize = 0;
    while w < count
        invariant
            w <= count,
            egress@.len() == w,
            peer_handles@ == Seq::new(w as nat, |i: int| 0usize),
            forall|f: int| 0 <= f < w ==> (#[trigger] egress@[f])@.len() == 0,
        decreases count - w,
    {
        egress.push(Vec::new());
        peer_handles.push(0);
        w += 1;
        assert(peer_handles@ =~= Seq::new(w as nat, |i: int| 0usize));
    }
    let mut to: usize = 0;
    while to < count
        invariant
            to <= count,
            capacity <= usize::MAX / 2 + 1,
            inboxes@.len() == to,
            ingress@.len() == to,
            egress@.len() == count,
            forall|f: int| 0 <= f < count ==> (#[trigger] egress@[f])@.len() == to,
            forall|t: int|
                0 <= t < to ==> (#[trigger] inboxes@[t])@.len() == count && ingress@[t]@.len() == count,
            forall|t: int, f: int|
                0 <= t < to && 0 <= f < count ==> {
                    &&& (#[trigger] inboxes@[t]@[f]).wf()
                    &&& inboxes@[t]@[f]@ == Seq::<u64>::empty()
                    &&& inboxes@[t]@[f].capacity() >= capacity
                    &&& ingress@[t]@[f].fits(inboxes@[t]@[f])
                    &&& egress@[f]@[t].fits(inboxes@[t]@[f])
                },
        decreases count - to,
    {
        let mut inbox: Vec<Ring<u64>> = Vec::new();
        let mut readers: Vec<Consumer> = Vec::new();
        let mut from: usize = 0;
        while from < count
            invariant
                from <= count,
                to < count,
                capacity <= usize::MAX / 2 + 1,
                inboxes@.len() == to,
                egress@.len() == count,
                inbox@.len() == from,
                readers@.len() == from,
                forall|f: int|
                    0 <= f < count ==> (#[trigger] egress@[f])@.len() == (if f < from {
                        to + 1
                    } else {
                        to as int
                    }),
                forall|f: int|
                    0 <= f < from ==> {
                        &&& (#[trigger] inbox@[f]).wf()
                        &&& inbox@[f]@ == Seq::<u64>::empty()
                        &&& inbox@[f].capacity() >= capacity
                        &&& readers@[f].fits(inbox@[f])
                        &&& egress@[f]@[to as int].fits(inbox@[f])
                    },
                forall|t: int, f: int|
                    0 <= t < to && 0 <= f < count ==> egress@[f]@[t].fits(#[trigger] inboxes@[t]@[f]),
            decreases count - from,
        {
            let (ring, producer, consumer) = channel(capacity);
            inbox.push(ring);
            readers.push(consumer);
            egress[from].push(producer);
            from += 1;
        }
        inboxes.push(inbox);
        ingress.push(readers);
        to += 1;
    }
    let mut ends: Vec<MeshContext> = Vec::new();
    let ghost (all_in, all_out) = (ingress@, egress@);
    let mut id: usize = count;
    while id > 0
        invariant
            id <= count,
            ends@.len() == count - id,
            ingress@ == all_in.take(id as int),
            egress@ == all_out.take(id as int),
            all_in.len() == count,
            all_out.len() == count,
            forall|i: int|
                0 <= i < count - id ==> (#[trigger] ends@[i]).id == id + i && ends@[i].ingress == all_in[id + i]
                    && ends@[i].egress == all_out[id + i],
        decreases id,
    {
        id -= 1;
        let reading: Vec<Consumer> = match ingress.pop() {
            Some(reading) => reading,
            None => vstd::pervasive::unreached(),
        };
        let writing: Vec<Producer> = match egress.pop() {
            Some(writing) => writing,
            None => vstd::pervasive::unreached(),
        };
        let ghost before = ends@;
        ends.insert(0, MeshContext { id, ingress: reading, egress: writing });
        proof {
            assert(ingress@ =~= all_in.take(id as int));
            assert(egress@ =~= all_out.take(id as int));
            assert forall|i: int| 0 <= i < count - id implies (#[trigger] ends@[i]).id == id + i
                && ends@[i].ingress == all_in[id + i] && ends@[i].egress == all_out[id + i] by {
                if i > 0 {
                    assert(ends@[i] == before[i - 1]);
                }
            }
        }
    }
    let net: Network = Network { inboxes, peer_handles };
    proof {
        assert forall|w: int| 0 <= w < count implies {
            &&& (#[trigger] ends@[w]).id == w
            &&& ends@[w].egress@.len() == count
            &&& net.carries(ends@[w])
            &&& receives(net, ends@[w])
        } by {
            assert(ends@[w].ingress == all_in[w] && ends@[w].egress == all_out[w]);
            assert(all_out[w]@.len() == count);
            assert(net.inboxes@[w]@.len() == count);
            assert forall|p: int| 0 <= p < ends@[w].egress@.len() implies {
                &&& ends@[w].id < (#[trigger] net.inboxes@[p])@.len()
                &&& net.inboxes@[p]@[w].wf()
                &&& ends@[w].egress@[p].fits(net.inboxes@[p]@[w])
            } by {
                assert(net.inboxes@[p]@[w].wf());
            }
        }
    }
    (net, ends)
}

} // verus!
