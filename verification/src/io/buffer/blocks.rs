//! The mathematics of a buddy system: an arena of leaves, cut into aligned
//! blocks whose sizes are powers of two.

use crate::io::buffer::free_list::FreeLists;
use vstd::prelude::*;

verus! {

/// Number of block sizes.
pub const NUM_ORDERS: usize = 13;

/// Number of smallest blocks in the arena.
pub const LEAVES: usize = 4096;

/// Length in leaves of a block of the given order.
pub open spec fn leaves(order: int) -> int {
    vstd::arithmetic::power2::pow2(order as nat) as int
}

/// Start of the block with which a block of the given order merges.
pub open spec fn buddy_of(s: int, order: int) -> int {
    if (s / leaves(order)) % 2 == 0 {
        s + leaves(order)
    } else {
        s - leaves(order)
    }
}

pub open spec fn lower(s: int, t: int) -> int {
    if s <= t {
        s
    } else {
        t
    }
}

/// The arena at one moment: the free lists by order (front first), the order of
/// every block by its first leaf, and the blocks that are handed out.
#[verifier::ext_equal]
pub ghost struct Arena {
    pub free: Seq<Seq<int>>,
    pub blocks: Map<int, int>,
    pub used: Set<int>,
}

impl Arena {
    /// One free block that spans the arena.
    pub open spec fn whole() -> Arena {
        Arena {
            free: Seq::new(NUM_ORDERS as nat, |o: int| Seq::<int>::empty()).update(
                NUM_ORDERS - 1,
                seq![0int],
            ),
            blocks: map![0int => NUM_ORDERS - 1],
            used: Set::empty(),
        }
    }

    /// The smallest order from `o` on with a free block, or the number of orders.
    pub open spec fn first_fit(self, o: int) -> int
        decreases NUM_ORDERS - o,
    {
        if o >= NUM_ORDERS {
            NUM_ORDERS as int
        } else if self.free[o].len() > 0 {
            o
        } else {
            self.first_fit(o + 1)
        }
    }

    /// The first free block of an order is handed out.
    pub open spec fn take(self, o: int) -> Arena {
        Arena {
            free: self.free.update(o, self.free[o].drop_first()),
            blocks: self.blocks,
            used: self.used.insert(self.free[o][0]),
        }
    }

    /// A block is cut into two of order `o`, and its upper half becomes free.
    pub open spec fn halve(self, s: int, o: int) -> Arena {
        Arena {
            free: self.free.update(o, seq![s + leaves(o)] + self.free[o]),
            blocks: self.blocks.insert(s + leaves(o), o).insert(s, o),
            used: self.used,
        }
    }

    /// A block is halved until its order comes down from `from` to `to`.
    pub open spec fn split(self, s: int, from: int, to: int) -> Arena
        decreases from - to,
    {
        if from <= to {
            self
        } else {
            self.halve(s, from - 1).split(s, from - 1, to)
        }
    }

    /// A block of order `needed` is cut out of the smallest free block that can
    /// hold it.
    pub open spec fn allocate(self, needed: int) -> Arena {
        let o = self.first_fit(needed);
        self.take(o).split(self.free[o][0], o, needed)
    }

    /// The block handed out at `s` absorbs its free buddy.
    pub open spec fn join(self, s: int, o: int) -> Arena {
        let b = buddy_of(s, o);
        Arena {
            free: self.free.update(o, self.free[o].remove_value(b)),
            blocks: self.blocks.remove(s).remove(b).insert(lower(s, b), o + 1),
            used: self.used.remove(s).insert(lower(s, b)),
        }
    }

    /// The block handed out at `s` becomes the first free block of its order.
    pub open spec fn release(self, s: int, o: int) -> Arena {
        Arena {
            free: self.free.update(o, seq![s] + self.free[o]),
            blocks: self.blocks,
            used: self.used.remove(s),
        }
    }

    /// A block comes back, merged with its buddy as often as that is free.
    pub open spec fn merge(self, s: int, o: int) -> Arena
        decreases NUM_ORDERS - o,
    {
        let b = buddy_of(s, o);
        if o < NUM_ORDERS - 1 && self.free[o].contains(b) {
            self.join(s, o).merge(lower(s, b), o + 1)
        } else {
            self.release(s, o)
        }
    }

    pub open spec fn block_ok(self, s: int) -> bool {
        let o = self.blocks[s];
        &&& 0 <= o < NUM_ORDERS
        &&& 0 <= s
        &&& s % leaves(o) == 0
        &&& s + leaves(o) <= LEAVES
    }

    /// Whether the leaf lies in the block at `s`.
    pub open spec fn holds(self, s: int, leaf: int) -> bool {
        self.blocks.contains_key(s) && s <= leaf < s + leaves(self.blocks[s])
    }

    pub open spec fn covered(self, leaf: int) -> bool {
        exists|s: int| #[trigger] self.holds(s, leaf)
    }

    pub open spec fn is_free(self, s: int, o: int) -> bool {
        self.blocks.contains_key(s) && self.blocks[s] == o && !self.used.contains(s)
    }

    /// The blocks are aligned, they do not overlap and they cover the arena; and
    /// the free lists name exactly the blocks that are not handed out.
    pub open spec fn partition(self) -> bool {
        &&& self.free.len() == NUM_ORDERS
        &&& FreeLists::disjoint_lists(self.free)
        &&& forall|s: int| #[trigger] self.blocks.contains_key(s) ==> self.block_ok(s)
        &&& forall|s: int, t: int| #[trigger]
            self.blocks.contains_key(s) && #[trigger] self.blocks.contains_key(t) && s < t ==> s + leaves(
                self.blocks[s],
            ) <= t
        &&& forall|x: int| 0 <= x < LEAVES ==> #[trigger] self.covered(x)
        &&& self.used.subset_of(self.blocks.dom())
        &&& forall|o: int, s: int|
            0 <= o < NUM_ORDERS ==> (#[trigger] self.free[o].contains(s) <==> self.is_free(s, o))
    }

    /// No two free blocks could be merged.
    pub open spec fn coalesced(self) -> bool {
        forall|s: int, o: int|
            0 <= o < NUM_ORDERS - 1 && #[trigger] self.is_free(s, o) ==> !self.is_free(buddy_of(s, o), o)
    }
}

pub proof fn lemma_leaves(o: int)
    requires
        0 <= o < NUM_ORDERS,
    ensures
        1 <= leaves(o) <= LEAVES,
        leaves(NUM_ORDERS - 1) == LEAVES,
        leaves(o + 1) == 2 * leaves(o),
        o < NUM_ORDERS - 1 ==> 2 * leaves(o) <= LEAVES,
{
    vstd::arithmetic::power2::lemma2_to64();
    vstd::arithmetic::power2::lemma_pow2_pos(o as nat);
    vstd::arithmetic::power2::lemma_pow2_unfold((o + 1) as nat);
    if o < 12 {
        vstd::arithmetic::power2::lemma_pow2_strictly_increases(o as nat, 12);
        if o < 11 {
            vstd::arithmetic::power2::lemma_pow2_strictly_increases((o + 1) as nat, 12);
        }
    }
}

/// A smaller block size divides a larger one.
proof fn lemma_divides(small: int, large: int)
    requires
        0 <= small <= large,
    ensures
        leaves(large) % leaves(small) == 0,
{
    let k = (large - small) as nat;
    vstd::arithmetic::power2::lemma_pow2_adds(small as nat, k);
    vstd::arithmetic::power2::lemma_pow2_pos(small as nat);
    let (a, b) = (vstd::arithmetic::power2::pow2(small as nat) as int, vstd::arithmetic::power2::pow2(k) as int);
    vstd::arithmetic::div_mod::lemma_mod_multiples_basic(b, a);
    assert(a * b == b * a) by (nonlinear_arith);
}

proof fn lemma_multiple_of_divisor(x: int, d: int, e: int)
    requires
        d > 0,
        e > 0,
        e % d == 0,
        x % e == 0,
    ensures
        x % d == 0,
{
    vstd::arithmetic::div_mod::lemma_fundamental_div_mod(x, e);
    vstd::arithmetic::div_mod::lemma_fundamental_div_mod(e, d);
    let (p, q) = (x / e, e / d);
    assert(x == (p * q) * d) by (nonlinear_arith)
        requires
            x == e * p,
            e == d * q,
    ;
    vstd::arithmetic::div_mod::lemma_mod_multiples_basic(p * q, d);
}

/// A multiple of `d` at most `x` is at most the last multiple of `d` up to `x`.
proof fn lemma_floor(x: int, d: int, b: int)
    requires
        d > 0,
        b % d == 0,
    ensures
        ((x / d) * d) % d == 0,
        (x / d) * d <= x < (x / d) * d + d,
        b <= x ==> b <= (x / d) * d,
        x < b ==> (x / d) * d + d <= b,
{
    vstd::arithmetic::div_mod::lemma_fundamental_div_mod(x, d);
    vstd::arithmetic::div_mod::lemma_fundamental_div_mod(b, d);
    vstd::arithmetic::div_mod::lemma_mod_multiples_basic(x / d, d);
    let (p, q, r) = (x / d, b / d, x % d);
    assert(d * p == p * d && d * q == q * d) by (nonlinear_arith);
    assert(b <= x ==> b <= p * d) by (nonlinear_arith)
        requires
            d > 0,
            x == p * d + r,
            0 <= r < d,
            b == q * d,
    ;
    assert(x < b ==> p * d + d <= b) by (nonlinear_arith)
        requires
            d > 0,
            x == p * d + r,
            0 <= r < d,
            b == q * d,
    ;
}

/// The buddy of an aligned block is an aligned block beside it, and the lower of
/// the two is aligned for the next order.
pub proof fn lemma_buddy(s: int, o: int)
    requires
        0 <= o < NUM_ORDERS - 1,
        0 <= s,
        s % leaves(o) == 0,
        s + leaves(o) <= LEAVES,
    ensures
        0 <= buddy_of(s, o),
        buddy_of(s, o) % leaves(o) == 0,
        buddy_of(s, o) + leaves(o) <= LEAVES,
        buddy_of(s, o) == s + leaves(o) || buddy_of(s, o) == s - leaves(o),
        lower(s, buddy_of(s, o)) % leaves(o + 1) == 0,
        lower(s, buddy_of(s, o)) + leaves(o + 1) <= LEAVES,
        lower(s, buddy_of(s, o)) >= 0,
        buddy_of(buddy_of(s, o), o) == s,
{
    lemma_leaves(o);
    lemma_leaves(o + 1);
    lemma_divides(o + 1, NUM_ORDERS - 1);
    let d = leaves(o);
    let q = s / d;
    vstd::arithmetic::div_mod::lemma_fundamental_div_mod(s, d);
    assert(d * q == q * d) by (nonlinear_arith);
    assert(q >= 0) by (nonlinear_arith)
        requires
            s == q * d,
            s >= 0,
            d > 0,
    ;
    let low = if q % 2 == 0 { q } else { q - 1 };
    let high = low + 1;
    let j = low / 2;
    assert(low * d == j * (2 * d)) by (nonlinear_arith)
        requires
            low == 2 * j,
    ;
    vstd::arithmetic::div_mod::lemma_mod_multiples_basic(j, 2 * d);
    vstd::arithmetic::div_mod::lemma_mod_multiples_basic(high, d);
    vstd::arithmetic::div_mod::lemma_mod_multiples_basic(low, d);
    assert(high * d == low * d + d) by (nonlinear_arith)
        requires
            high == low + 1,
    ;
    lemma_floor(low * d, 2 * d, LEAVES as int);
    vstd::arithmetic::div_mod::lemma_div_multiples_vanish(j, 2 * d);
    vstd::arithmetic::div_mod::lemma_div_multiples_vanish(low, d);
    vstd::arithmetic::div_mod::lemma_div_multiples_vanish(high, d);
    assert((2 * d) * j == j * (2 * d) && d * low == low * d && d * high == high * d) by (nonlinear_arith);
    assert(low * d >= 0) by (nonlinear_arith)
        requires
            low >= 0,
            d > 0,
    ;
}

/// The block that holds the first leaf of a block's buddy starts there and is not
/// larger.
proof fn lemma_owner(s: int, o: int, t: int, k: int)
    requires
        0 <= o < NUM_ORDERS - 1,
        0 <= k < NUM_ORDERS,
        0 <= s,
        s % leaves(o) == 0,
        s + leaves(o) <= LEAVES,
        t % leaves(k) == 0,
        t <= buddy_of(s, o) < t + leaves(k),
        t + leaves(k) <= s || s + leaves(o) <= t,
    ensures
        t == buddy_of(s, o),
        k <= o,
{
    let b = buddy_of(s, o);
    lemma_buddy(s, o);
    lemma_leaves(o);
    lemma_leaves(k);
    if k <= o {
        lemma_divides(k, o);
        lemma_multiple_of_divisor(b, leaves(k), leaves(o));
        lemma_floor(t, leaves(k), b);
        lemma_floor(b, leaves(k), t);
        lemma_floor(t, leaves(k), t);
    } else {
        let e = leaves(o + 1);
        lemma_leaves(o + 1);
        lemma_divides(o + 1, k);
        lemma_multiple_of_divisor(t, e, leaves(k));
        let p = lower(s, b);
        lemma_floor(b, e, t);
        lemma_floor(b, e, p);
        assert((p + e) % e == 0) by {
            vstd::arithmetic::div_mod::lemma_mod_add_multiples_vanish(p, e);
        }
        lemma_floor(b, e, p + e);
        assert((t + leaves(k)) % e == 0) by {
            vstd::arithmetic::div_mod::lemma_add_mod_noop(t, leaves(k), e);
            assert(0int % e == 0) by (nonlinear_arith)
                requires
                    e > 0,
            ;
        }
        lemma_floor(b, e, t + leaves(k));
        assert(false);
    }
}

impl Arena {
    pub proof fn lemma_whole()
        ensures
            Arena::whole().partition(),
            Arena::whole().coalesced(),
    {
        let a = Arena::whole();
        lemma_leaves(NUM_ORDERS - 1);
        assert forall|x: int| 0 <= x < LEAVES implies #[trigger] a.covered(x) by {
            assert(a.holds(0, x));
        }
        assert(a.free[NUM_ORDERS - 1][0] == 0);
        assert forall|o: int, s: int| 0 <= o < NUM_ORDERS implies (#[trigger] a.free[o].contains(s) <==> a.is_free(
            s,
            o,
        )) by {}
    }

    /// The block that holds the first leaf of the buddy of a block handed out
    /// starts there.
    pub proof fn lemma_buddy_is_block(self, s: int, o: int)
        requires
            self.partition(),
            self.blocks.contains_key(s),
            self.blocks[s] == o,
            0 <= o < NUM_ORDERS - 1,
        ensures
            self.blocks.contains_key(buddy_of(s, o)),
            self.blocks[buddy_of(s, o)] <= o,
            0 <= buddy_of(s, o) < LEAVES,
    {
        let b = buddy_of(s, o);
        assert(self.block_ok(s));
        lemma_buddy(s, o);
        lemma_leaves(o);
        assert(self.covered(b));
        let t = choose|t: int| #[trigger] self.holds(t, b);
        assert(self.block_ok(t));
        lemma_owner(s, o, t, self.blocks[t]);
    }

    pub proof fn lemma_take(self, o: int)
        requires
            self.partition(),
            self.coalesced(),
            0 <= o < NUM_ORDERS,
            self.free[o].len() > 0,
        ensures
            self.take(o).partition(),
            self.take(o).coalesced(),
            self.is_free(self.free[o][0], o),
    {
        let a = self.take(o);
        let s = self.free[o][0];
        assert(self.free[o].contains(s));
        assert forall|k: int, t: int| 0 <= k < NUM_ORDERS implies (#[trigger] a.free[k].contains(t) <==> a.is_free(
            t,
            k,
        )) by {
            if k == o {
                if a.free[o].contains(t) {
                    let i = choose|i: int| 0 <= i < a.free[o].len() && a.free[o][i] == t;
                    assert(self.free[o][i + 1] == t);
                    assert(self.free[o].contains(t));
                }
                if self.free[o].contains(t) && t != s {
                    let i = choose|i: int| 0 <= i < self.free[o].len() && self.free[o][i] == t;
                    assert(a.free[o][i - 1] == t);
                }
            }
            assert(self.free[k].contains(t) <==> self.is_free(t, k));
        }
        assert(FreeLists::disjoint_lists(a.free)) by {
            assert forall|o1: int, i1: int, o2: int, i2: int|
                0 <= o1 < a.free.len() && 0 <= i1 < a.free[o1].len() && 0 <= o2 < a.free.len() && 0 <= i2
                    < a.free[o2].len() && (#[trigger] a.free[o1][i1]) == (#[trigger] a.free[o2][i2]) implies o1
                == o2 && i1 == i2 by {
                let j1 = if o1 == o { i1 + 1 } else { i1 };
                let j2 = if o2 == o { i2 + 1 } else { i2 };
                assert(self.free[o1][j1] == self.free[o2][j2]);
            }
        }
        assert forall|x: int| 0 <= x < LEAVES implies #[trigger] a.covered(x) by {
            assert(self.covered(x));
            let t = choose|t: int| #[trigger] self.holds(t, x);
            assert(a.holds(t, x));
        }
        assert forall|t: int, k: int| 0 <= k < NUM_ORDERS - 1 && #[trigger] a.is_free(t, k) implies !a.is_free(
            buddy_of(t, k),
            k,
        ) by {
            assert(self.is_free(t, k));
        }
    }

    pub proof fn lemma_halve(self, s: int, o: int)
        requires
            self.partition(),
            self.coalesced(),
            0 <= o < NUM_ORDERS - 1,
            self.used.contains(s),
            self.blocks[s] == o + 1,
        ensures
            self.halve(s, o).partition(),
            self.halve(s, o).coalesced(),
            self.halve(s, o).used.contains(s),
            self.halve(s, o).blocks[s] == o,
            !self.blocks.contains_key(s + leaves(o)),
            s + leaves(o) < LEAVES,
            buddy_of(s, o) == s + leaves(o),
    {
        let a = self.halve(s, o);
        let r = s + leaves(o);
        lemma_leaves(o);
        assert(self.block_ok(s));
        lemma_divides(o, o + 1);
        lemma_multiple_of_divisor(s, leaves(o), leaves(o + 1));
        lemma_buddy(s, o);
        assert(buddy_of(s, o) == r) by {
            let d = leaves(o);
            let j = s / (2 * d);
            vstd::arithmetic::div_mod::lemma_fundamental_div_mod(s, 2 * d);
            assert((2 * d) * j == d * (2 * j)) by (nonlinear_arith);
            vstd::arithmetic::div_mod::lemma_div_multiples_vanish(2 * j, d);
        }
        assert(!self.blocks.contains_key(r));
        assert forall|t: int| #[trigger] a.blocks.contains_key(t) implies a.block_ok(t) by {
            if t != s && t != r {
                assert(self.blocks.contains_key(t) && self.block_ok(t));
            }
        }
        assert forall|t: int, u: int| #[trigger]
            a.blocks.contains_key(t) && #[trigger] a.blocks.contains_key(u) && t < u implies t + leaves(
            a.blocks[t],
        ) <= u by {
            let t0 = if t == r { s } else { t };
            let u0 = if u == r { s } else { u };
            assert(self.blocks.contains_key(t0) && self.blocks.contains_key(u0));
            assert(self.block_ok(t0));
        }
        assert forall|x: int| 0 <= x < LEAVES implies #[trigger] a.covered(x) by {
            assert(self.covered(x));
            let t = choose|t: int| #[trigger] self.holds(t, x);
            if t == s {
                assert(a.holds(s, x) || a.holds(r, x));
            } else {
                assert(a.holds(t, x));
            }
        }
        assert forall|k: int, t: int| 0 <= k < NUM_ORDERS implies (#[trigger] a.free[k].contains(t) <==> a.is_free(
            t,
            k,
        )) by {
            if k == o {
                assert(a.free[o][0] == r);
                if a.free[o].contains(t) && t != r {
                    let i = choose|i: int| 0 <= i < a.free[o].len() && a.free[o][i] == t;
                    assert(self.free[o][i - 1] == t);
                    assert(self.free[o].contains(t));
                }
                if self.free[o].contains(t) {
                    let i = choose|i: int| 0 <= i < self.free[o].len() && self.free[o][i] == t;
                    assert(a.free[o][i + 1] == t);
                }
            }
            assert(self.free[k].contains(t) <==> self.is_free(t, k));
        }
        self.lemma_listed_once(a.free, o, r);
        assert forall|t: int, k: int| 0 <= k < NUM_ORDERS - 1 && #[trigger] a.is_free(t, k) implies !a.is_free(
            buddy_of(t, k),
            k,
        ) by {
            if t == r {
            } else {
                assert(self.is_free(t, k));
                assert(self.block_ok(t));
                lemma_buddy(t, k);
            }
        }
    }

    /// Putting a number that is on no list in front of one keeps the lists
    /// disjoint.
    proof fn lemma_listed_once(self, free: Seq<Seq<int>>, o: int, x: int)
        requires
            self.partition(),
            0 <= o < NUM_ORDERS,
            free == self.free.update(o, seq![x] + self.free[o]),
            forall|k: int| 0 <= k < NUM_ORDERS ==> !self.is_free(x, k),
        ensures
            FreeLists::disjoint_lists(free),
    {
        assert forall|o1: int, i1: int, o2: int, i2: int|
            0 <= o1 < free.len() && 0 <= i1 < free[o1].len() && 0 <= o2 < free.len() && 0 <= i2
                < free[o2].len() && (#[trigger] free[o1][i1]) == (#[trigger] free[o2][i2]) implies o1 == o2
            && i1 == i2 by {
            let j1 = if o1 == o { i1 - 1 } else { i1 };
            let j2 = if o2 == o { i2 - 1 } else { i2 };
            if j1 >= 0 {
                assert(self.free[o1][j1] == free[o1][i1]);
                assert(self.free[o1].contains(free[o1][i1]));
                assert(self.is_free(free[o1][i1], o1));
            }
            if j2 >= 0 {
                assert(self.free[o2][j2] == free[o2][i2]);
                assert(self.free[o2].contains(free[o2][i2]));
                assert(self.is_free(free[o2][i2], o2));
            }
        }
    }

    pub proof fn lemma_release(self, s: int, o: int)
        requires
            self.partition(),
            self.coalesced(),
            self.used.contains(s),
            self.blocks[s] == o,
            o < NUM_ORDERS - 1 ==> !self.free[o].contains(buddy_of(s, o)),
        ensures
            self.release(s, o).partition(),
            self.release(s, o).coalesced(),
    {
        let a = self.release(s, o);
        assert(self.block_ok(s));
        assert forall|k: int, t: int| 0 <= k < NUM_ORDERS implies (#[trigger] a.free[k].contains(t) <==> a.is_free(
            t,
            k,
        )) by {
            if k == o {
                assert(a.free[o][0] == s);
                if a.free[o].contains(t) && t != s {
                    let i = choose|i: int| 0 <= i < a.free[o].len() && a.free[o][i] == t;
                    assert(self.free[o][i - 1] == t);
                    assert(self.free[o].contains(t));
                }
                if self.free[o].contains(t) {
                    let i = choose|i: int| 0 <= i < self.free[o].len() && self.free[o][i] == t;
                    assert(a.free[o][i + 1] == t);
                }
            }
            assert(self.free[k].contains(t) <==> self.is_free(t, k));
        }
        self.lemma_listed_once(a.free, o, s);
        assert forall|x: int| 0 <= x < LEAVES implies #[trigger] a.covered(x) by {
            assert(self.covered(x));
            let t = choose|t: int| #[trigger] self.holds(t, x);
            assert(a.holds(t, x));
        }
        assert forall|t: int, k: int| 0 <= k < NUM_ORDERS - 1 && #[trigger] a.is_free(t, k) implies !a.is_free(
            buddy_of(t, k),
            k,
        ) by {
            assert(self.block_ok(t));
            lemma_buddy(t, k);
            lemma_leaves(k);
            if t == s {
                assert(self.free[o].contains(buddy_of(s, o)) <==> self.is_free(buddy_of(s, o), o));
            } else {
                assert(self.is_free(t, k));
                if buddy_of(t, k) == s && k == o {
                    assert(buddy_of(s, o) == t);
                    assert(self.free[o].contains(t));
                }
            }
        }
    }

    pub proof fn lemma_join(self, s: int, o: int)
        requires
            self.partition(),
            self.coalesced(),
            self.used.contains(s),
            self.blocks[s] == o,
            o < NUM_ORDERS - 1,
            self.free[o].contains(buddy_of(s, o)),
        ensures
            self.join(s, o).partition(),
            self.join(s, o).coalesced(),
            self.join(s, o).used.contains(lower(s, buddy_of(s, o))),
            self.join(s, o).blocks[lower(s, buddy_of(s, o))] == o + 1,
    {
        let a = self.join(s, o);
        let b = buddy_of(s, o);
        let low = lower(s, b);
        assert(self.block_ok(s));
        assert(self.is_free(b, o));
        lemma_buddy(s, o);
        lemma_leaves(o);
        assert forall|t: int| #[trigger] a.blocks.contains_key(t) implies a.block_ok(t) by {
            if t != low {
                assert(self.blocks.contains_key(t) && self.block_ok(t));
            }
        }
        assert forall|t: int, u: int| #[trigger]
            a.blocks.contains_key(t) && #[trigger] a.blocks.contains_key(u) && t < u implies t + leaves(
            a.blocks[t],
        ) <= u by {
            assert(self.blocks.contains_key(t) && self.blocks.contains_key(u));
            assert(self.block_ok(t) && self.block_ok(u));
            if t == low {
                assert(u != s && u != b);
                lemma_leaves(self.blocks[u]);
            } else if u == low {
            }
        }
        assert forall|x: int| 0 <= x < LEAVES implies #[trigger] a.covered(x) by {
            assert(self.covered(x));
            let t = choose|t: int| #[trigger] self.holds(t, x);
            if t == s || t == b {
                assert(a.holds(low, x));
            } else {
                assert(a.holds(t, x));
            }
        }
        let list = self.free[o];
        let at = list.index_of_first(b)->0;
        list.index_of_first_ensures(b);
        assert(a.free[o] == list.remove(at));
        assert forall|k: int, t: int| 0 <= k < NUM_ORDERS implies (#[trigger] a.free[k].contains(t) <==> a.is_free(
            t,
            k,
        )) by {
            if k == o {
                if a.free[o].contains(t) {
                    let i = choose|i: int| 0 <= i < a.free[o].len() && a.free[o][i] == t;
                    let j = if i < at { i } else { i + 1 };
                    assert(list[j] == t);
                    assert(self.free[o][j] != self.free[o][at]);
                    assert(self.free[o].contains(t));
                }
                if self.free[o].contains(t) && t != b {
                    let i = choose|i: int| 0 <= i < list.len() && list[i] == t;
                    let j = if i < at { i } else { i - 1 };
                    assert(a.free[o][j] == t);
                }
            }
            assert(self.free[k].contains(t) <==> self.is_free(t, k));
        }
        assert(FreeLists::disjoint_lists(a.free)) by {
            assert forall|o1: int, i1: int, o2: int, i2: int|
                0 <= o1 < a.free.len() && 0 <= i1 < a.free[o1].len() && 0 <= o2 < a.free.len() && 0 <= i2
                    < a.free[o2].len() && (#[trigger] a.free[o1][i1]) == (#[trigger] a.free[o2][i2]) implies o1
                == o2 && i1 == i2 by {
                let j1 = if o1 == o && i1 >= at { i1 + 1 } else { i1 };
                let j2 = if o2 == o && i2 >= at { i2 + 1 } else { i2 };
                assert(self.free[o1][j1] == self.free[o2][j2]);
            }
        }
        assert forall|t: int, k: int| 0 <= k < NUM_ORDERS - 1 && #[trigger] a.is_free(t, k) implies !a.is_free(
            buddy_of(t, k),
            k,
        ) by {
            assert(self.is_free(t, k));
        }
    }

    pub proof fn lemma_split(self, s: int, from: int, to: int)
        requires
            self.partition(),
            self.coalesced(),
            0 <= to <= from < NUM_ORDERS,
            self.used.contains(s),
            self.blocks[s] == from,
        ensures
            self.split(s, from, to).partition(),
            self.split(s, from, to).coalesced(),
            self.split(s, from, to).used == self.used,
            self.split(s, from, to).blocks[s] == to,
            forall|t: int| #[trigger]
                self.used.contains(t) && t != s ==> self.split(s, from, to).blocks[t] == self.blocks[t],
        decreases from - to,
    {
        if from > to {
            self.lemma_halve(s, from - 1);
            self.halve(s, from - 1).lemma_split(s, from - 1, to);
            let a = self.halve(s, from - 1);
            assert forall|t: int| #[trigger] self.used.contains(t) && t != s implies a.blocks[t] == self.blocks[t] by {
                assert(self.blocks.contains_key(t));
            }
        }
    }

    pub proof fn lemma_first_fit(self, o: int)
        requires
            0 <= o <= NUM_ORDERS,
        ensures
            o <= self.first_fit(o) <= NUM_ORDERS,
            self.first_fit(o) < NUM_ORDERS ==> self.free[self.first_fit(o)].len() > 0,
            forall|k: int| o <= k < self.first_fit(o) ==> (#[trigger] self.free[k]).len() == 0,
        decreases NUM_ORDERS - o,
    {
        if o < NUM_ORDERS && self.free[o].len() == 0 {
            self.lemma_first_fit(o + 1);
        }
    }

    /// Handing out a block keeps the arena partitioned and coalesced. The block was
    /// free, it has the order asked for, and the other blocks handed out stay as
    /// they were.
    pub proof fn lemma_allocate(self, needed: int)
        requires
            self.partition(),
            self.coalesced(),
            0 <= needed < NUM_ORDERS,
            self.first_fit(needed) < NUM_ORDERS,
        ensures
            self.allocate(needed).partition(),
            self.allocate(needed).coalesced(),
            !self.used.contains(self.free[self.first_fit(needed)][0]),
            self.allocate(needed).used == self.used.insert(self.free[self.first_fit(needed)][0]),
            self.allocate(needed).blocks[self.free[self.first_fit(needed)][0]] == needed,
            forall|t: int| #[trigger] self.used.contains(t) ==> self.allocate(needed).blocks[t] == self.blocks[t],
    {
        let o = self.first_fit(needed);
        self.lemma_first_fit(needed);
        self.lemma_take(o);
        let s = self.free[o][0];
        self.take(o).lemma_split(s, o, needed);
        assert forall|t: int| #[trigger] self.used.contains(t) implies self.allocate(needed).blocks[t]
            == self.blocks[t] by {
            assert(self.take(o).used.contains(t));
        }
    }

    /// Taking a block back keeps the arena partitioned and coalesced, and the other
    /// blocks handed out stay as they were.
    pub proof fn lemma_merge(self, s: int, o: int)
        requires
            self.partition(),
            self.coalesced(),
            self.used.contains(s),
            self.blocks[s] == o,
        ensures
            self.merge(s, o).partition(),
            self.merge(s, o).coalesced(),
            self.merge(s, o).used == self.used.remove(s),
            forall|t: int| #[trigger]
                self.used.contains(t) && t != s ==> self.merge(s, o).blocks[t] == self.blocks[t],
        decreases NUM_ORDERS - o,
    {
        assert(self.blocks.contains_key(s) && self.block_ok(s));
        let b = buddy_of(s, o);
        if o < NUM_ORDERS - 1 && self.free[o].contains(b) {
            let low = lower(s, b);
            let a = self.join(s, o);
            assert(self.is_free(b, o));
            self.lemma_join(s, o);
            a.lemma_merge(low, o + 1);
            assert(a.used.remove(low) =~= self.used.remove(s));
            assert forall|t: int| #[trigger] self.used.contains(t) && t != s implies self.merge(s, o).blocks[t]
                == self.blocks[t] by {
                assert(t != b);
                assert(a.used.contains(t) && t != low);
            }
        } else {
            self.lemma_release(s, o);
        }
    }

    proof fn lemma_split_merge(self, s: int, from: int, to: int)
        requires
            self.partition(),
            self.coalesced(),
            0 <= to <= from < NUM_ORDERS,
            self.used.contains(s),
            self.blocks[s] == from,
            forall|k: int| to <= k < from ==> (#[trigger] self.free[k]).len() == 0,
        ensures
            self.split(s, from, to).merge(s, to) == self.merge(s, from),
        decreases from - to,
    {
        if from > to {
            let o = from - 1;
            let a = self.halve(s, o);
            let r = s + leaves(o);
            self.lemma_halve(s, o);
            a.lemma_split_merge(s, o, to);
            assert(a.free[o][0] == r);
            assert(a.free[o].contains(r));
            a.lemma_buddy_is_block(s, o);
            lemma_leaves(o);
            assert(a.block_ok(s));
            lemma_buddy(s, o);
            assert(self.block_ok(s));
            a.free[o].index_of_first_ensures(r);
            assert(a.free[o].remove_value(r) =~= self.free[o]);
            assert(a.join(s, o) =~= self);
        }
    }

    /// Giving a block back at once restores the arena, free lists included.
    pub proof fn lemma_allocate_merge(self, needed: int)
        requires
            self.partition(),
            self.coalesced(),
            0 <= needed < NUM_ORDERS,
            self.first_fit(needed) < NUM_ORDERS,
        ensures
            self.allocate(needed).merge(self.free[self.first_fit(needed)][0], needed) == self,
    {
        let o = self.first_fit(needed);
        self.lemma_first_fit(needed);
        self.lemma_take(o);
        let s = self.free[o][0];
        let a = self.take(o);
        a.lemma_split_merge(s, o, needed);
        if o < NUM_ORDERS - 1 {
            assert(self.is_free(s, o));
            assert(a.free[o].contains(buddy_of(s, o)) <==> a.is_free(buddy_of(s, o), o));
            assert(self.block_ok(s));
            lemma_buddy(s, o);
        }
        assert(seq![s] + self.free[o].drop_first() =~= self.free[o]);
        assert(a.release(s, o) =~= self);
    }

    /// When nothing is handed out, the arena is one free block again.
    pub proof fn lemma_all_free(self)
        requires
            self.partition(),
            self.coalesced(),
            self.used == Set::<int>::empty(),
        ensures
            self == Arena::whole(),
    {
        assert forall|s: int| #[trigger] self.blocks.contains_key(s) implies self.blocks[s] == NUM_ORDERS - 1 by {
            self.lemma_no_order_below(NUM_ORDERS - 1);
        }
        lemma_leaves(NUM_ORDERS - 1);
        assert(self.covered(0));
        let t = choose|t: int| #[trigger] self.holds(t, 0);
        assert(self.block_ok(t));
        assert(t == 0);
        assert(self.blocks =~= map![0int => NUM_ORDERS - 1]) by {
            assert forall|s: int| #[trigger] self.blocks.contains_key(s) implies s == 0 by {
                assert(self.block_ok(s));
            }
        }
        let w = Arena::whole();
        Arena::lemma_whole();
        assert forall|o: int| 0 <= o < NUM_ORDERS implies #[trigger] self.free[o] =~= w.free[o] by {
            if o < NUM_ORDERS - 1 {
                if self.free[o].len() > 0 {
                    assert(self.free[o].contains(self.free[o][0]));
                }
            } else {
                assert(self.is_free(0, o));
                assert(self.free[o].contains(0));
                assert forall|i: int| 0 <= i < self.free[o].len() implies self.free[o][i] == 0 by {
                    assert(self.free[o].contains(self.free[o][i]));
                }
                let i = choose|i: int| 0 <= i < self.free[o].len() && self.free[o][i] == 0;
                if self.free[o].len() > 1 {
                    assert(self.free[o][0] == self.free[o][1]);
                }
            }
        }
        assert(self.free =~= w.free);
    }

    proof fn lemma_no_order_below(self, n: int)
        requires
            self.partition(),
            self.coalesced(),
            self.used == Set::<int>::empty(),
            0 <= n < NUM_ORDERS,
        ensures
            forall|s: int| #[trigger] self.blocks.contains_key(s) ==> self.blocks[s] >= n,
        decreases n,
    {
        if n > 0 {
            self.lemma_no_order_below(n - 1);
            assert forall|s: int| #[trigger] self.blocks.contains_key(s) implies self.blocks[s] >= n by {
                if self.blocks[s] == n - 1 {
                    self.lemma_buddy_is_block(s, n - 1);
                    assert(self.is_free(s, n - 1));
                }
            }
        } else {
            assert forall|s: int| #[trigger] self.blocks.contains_key(s) implies self.blocks[s] >= 0 by {
                assert(self.block_ok(s));
            }
        }
    }
}

} // verus!
