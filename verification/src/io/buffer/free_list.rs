//! Doubly linked free lists over the blocks of an arena, one list per order.

use vstd::prelude::*;

verus! {

/// The links of a block that lies on a free list.
#[derive(Clone, Copy)]
pub struct FreeNode {
    pub prev: Option<usize>,
    pub next: Option<usize>,
}

/// Several disjoint doubly linked lists over the numbers below a bound. The
/// links of a number are stored at its own index.
pub struct FreeLists {
    heads: Vec<Option<usize>>,
    nodes: Vec<FreeNode>,
    lists: Ghost<Seq<Seq<int>>>,
}

/// The element at position `i` of `list`, as a link.
pub open spec fn link_at(list: Seq<int>, i: int) -> Option<usize> {
    if 0 <= i < list.len() {
        Some(list[i] as usize)
    } else {
        None
    }
}

/// Whether `x` lies on one of the lists.
pub open spec fn listed(lists: Seq<Seq<int>>, x: int) -> bool {
    exists|o: int| 0 <= o < lists.len() && (#[trigger] lists[o]).contains(x)
}

impl FreeLists {
    /// The lists, front first.
    pub closed spec fn view(self) -> Seq<Seq<int>> {
        self.lists@
    }

    pub closed spec fn bound(self) -> nat {
        self.nodes@.len()
    }

    spec fn node_ok(self, o: int, i: int) -> bool {
        let x = self.lists@[o][i];
        &&& 0 <= x < self.nodes@.len()
        &&& self.nodes@[x].next == link_at(self.lists@[o], i + 1)
        &&& self.nodes@[x].prev == link_at(self.lists@[o], i - 1)
    }

    pub open spec fn disjoint_lists(lists: Seq<Seq<int>>) -> bool {
        forall|o1: int, i1: int, o2: int, i2: int|
            0 <= o1 < lists.len() && 0 <= i1 < lists[o1].len() && 0 <= o2 < lists.len() && 0 <= i2
                < lists[o2].len() && (#[trigger] lists[o1][i1]) == (#[trigger] lists[o2][i2]) ==> o1 == o2 && i1
                == i2
    }

    /// Each head and each link leads to the neighbour on the list, and no number
    /// lies on two lists or twice on one.
    pub closed spec fn wf(self) -> bool {
        &&& self.heads@.len() == self.lists@.len()
        &&& self.nodes@.len() <= usize::MAX
        &&& Self::disjoint_lists(self.lists@)
        &&& forall|o: int| 0 <= o < self.lists@.len() ==> self.heads@[o] == link_at(#[trigger] self.lists@[o], 0)
        &&& forall|o: int, i: int|
            0 <= o < self.lists@.len() && 0 <= i < self.lists@[o].len() ==> #[trigger] self.node_ok(o, i)
    }

    pub proof fn lemma_members(self)
        requires
            self.wf(),
        ensures
            self.bound() <= usize::MAX,
            Self::disjoint_lists(self@),
            forall|o: int, i: int|
                0 <= o < self@.len() && 0 <= i < self@[o].len() ==> 0 <= #[trigger] self@[o][i] < self.bound(),
    {
        assert forall|o: int, i: int| 0 <= o < self@.len() && 0 <= i < self@[o].len() implies 0
            <= #[trigger] self@[o][i] < self.bound() by {
            assert(self.node_ok(o, i));
        }
    }

    /// `orders` empty lists over the numbers below `bound`.
    pub fn new(orders: usize, bound: usize) -> (lists: Self)
        ensures
            lists.wf(),
            lists.bound() == bound,
            lists@ == Seq::new(orders as nat, |o: int| Seq::<int>::empty()),
    {
        let mut heads: Vec<Option<usize>> = Vec::new();
        let mut o: usize = 0;
        while o < orders
            invariant
                o <= orders,
                heads@.len() == o,
                forall|j: int| 0 <= j < o ==> #[trigger] heads@[j] == None::<usize>,
            decreases orders - o,
        {
            heads.push(None);
            o += 1;
        }
        let mut nodes: Vec<FreeNode> = Vec::new();
        let mut i: usize = 0;
        while i < bound
            invariant
                i <= bound,
                nodes@.len() == i,
            decreases bound - i,
        {
            nodes.push(FreeNode { prev: None, next: None });
            i += 1;
        }
        FreeLists { heads, nodes, lists: Ghost(Seq::new(orders as nat, |o: int| Seq::<int>::empty())) }
    }

    /// The front of the list of `order`.
    pub fn front(&self, order: usize) -> (head: Option<usize>)
        requires
            self.wf(),
            order < self@.len(),
        ensures
            head == link_at(self@[order as int], 0),
    {
        self.heads[order]
    }

    pub fn push_front(&mut self, order: usize, x: usize)
        requires
            old(self).wf(),
            order < old(self)@.len(),
            x < old(self).bound(),
            !listed(old(self)@, x as int),
        ensures
            final(self).wf(),
            final(self).bound() == old(self).bound(),
            final(self)@ == old(self)@.update(order as int, seq![x as int] + old(self)@[order as int]),
    {
        let ghost o0 = order as int;
        let ghost before = self.lists@[o0];
        let head: Option<usize> = self.heads[order];
        proof {
            if before.len() > 0 {
                assert(self.node_ok(o0, 0));
            }
        }
        self.nodes[x] = FreeNode { prev: None, next: head };
        if let Some(h) = head {
            self.nodes[h].prev = Some(x);
        }
        self.heads[order] = Some(x);
        proof {
            self.lists = Ghost(self.lists@.update(o0, seq![x as int] + before));
            let lists = self.lists@;
            assert forall|o1: int, i1: int, o2: int, i2: int|
                0 <= o1 < lists.len() && 0 <= i1 < lists[o1].len() && 0 <= o2 < lists.len() && 0 <= i2
                    < lists[o2].len() && (#[trigger] lists[o1][i1]) == (#[trigger] lists[o2][i2]) implies o1
                == o2 && i1 == i2 by {
                let old_lists = old(self).lists@;
                let j1 = if o1 == o0 { i1 - 1 } else { i1 };
                let j2 = if o2 == o0 { i2 - 1 } else { i2 };
                if j1 >= 0 {
                    assert(old_lists[o1][j1] == lists[o1][i1]);
                    assert(old_lists[o1].contains(lists[o1][i1]));
                }
                if j2 >= 0 {
                    assert(old_lists[o2][j2] == lists[o2][i2]);
                    assert(old_lists[o2].contains(lists[o2][i2]));
                }
            }
            assert forall|o: int, i: int| 0 <= o < lists.len() && 0 <= i < lists[o].len() implies #[trigger] self.node_ok(
                o,
                i,
            ) by {
                let old_lists = old(self).lists@;
                let j = if o == o0 { i - 1 } else { i };
                if j >= 0 {
                    assert(old(self).node_ok(o, j));
                    assert(old_lists[o][j] == lists[o][i]);
                    assert(old_lists[o].contains(lists[o][i]));
                    if before.len() > 0 && lists[o][i] == before[0] {
                        assert(old_lists[o0][0] == old_lists[o][j]);
                    }
                }
            }
            assert forall|o: int| 0 <= o < lists.len() implies self.heads@[o] == link_at(#[trigger] lists[o], 0) by {
                assert(old(self).lists@[o] == old(self).lists@[o]);
            }
        }
    }

    /// Takes the front of the list of `order` off.
    pub fn pop_front(&mut self, order: usize) -> (x: usize)
        requires
            old(self).wf(),
            order < old(self)@.len(),
            old(self)@[order as int].len() > 0,
        ensures
            final(self).wf(),
            final(self).bound() == old(self).bound(),
            x == old(self)@[order as int][0],
            final(self)@ == old(self)@.update(order as int, old(self)@[order as int].drop_first()),
    {
        let ghost o0 = order as int;
        let ghost before = self.lists@[o0];
        assert(self.node_ok(o0, 0));
        let x: usize = self.heads[order].unwrap();
        let next: Option<usize> = self.nodes[x].next;
        proof {
            if before.len() > 1 {
                assert(self.node_ok(o0, 1));
                assert(self.lists@[o0][0] != self.lists@[o0][1]);
            }
        }
        self.heads[order] = next;
        if let Some(n) = next {
            self.nodes[n].prev = None;
        }
        self.nodes[x] = FreeNode { prev: None, next: None };
        proof {
            self.lists = Ghost(self.lists@.update(o0, before.drop_first()));
            self.lemma_shortened(*old(self), o0, 0);
            let lists = self.lists@;
            assert forall|o: int, i: int| 0 <= o < lists.len() && 0 <= i < lists[o].len() implies #[trigger] self.node_ok(
                o,
                i,
            ) by {
                let j = if o == o0 { i + 1 } else { i };
                assert(old(self).node_ok(o, j));
                assert(old(self).lists@[o][j] == lists[o][i]);
                assert(old(self).lists@[o][j] != old(self).lists@[o0][0]);
                if before.len() > 1 && old(self).lists@[o][j] == old(self).lists@[o0][1] {
                    assert(o == o0 && j == 1);
                }
            }
            assert forall|o: int| 0 <= o < lists.len() implies self.heads@[o] == link_at(#[trigger] lists[o], 0) by {
                assert(old(self).lists@[o] == old(self).lists@[o]);
            }
        }
        x
    }

    /// Taking an element off a list keeps the lists disjoint.
    proof fn lemma_shortened(self, before: Self, o0: int, at: int)
        requires
            before.wf(),
            0 <= o0 < before.lists@.len(),
            0 <= at < before.lists@[o0].len(),
            self.lists@ == before.lists@.update(o0, before.lists@[o0].remove(at)),
        ensures
            Self::disjoint_lists(self.lists@),
    {
        let lists = self.lists@;
        assert forall|o1: int, i1: int, o2: int, i2: int|
            0 <= o1 < lists.len() && 0 <= i1 < lists[o1].len() && 0 <= o2 < lists.len() && 0 <= i2
                < lists[o2].len() && (#[trigger] lists[o1][i1]) == (#[trigger] lists[o2][i2]) implies o1 == o2
            && i1 == i2 by {
            let j1 = if o1 == o0 && i1 >= at { i1 + 1 } else { i1 };
            let j2 = if o2 == o0 && i2 >= at { i2 + 1 } else { i2 };
            assert(before.lists@[o1][j1] == lists[o1][i1]);
            assert(before.lists@[o2][j2] == lists[o2][i2]);
        }
    }

    /// Takes `x` off the list of `order`, wherever it stands there.
    pub fn remove(&mut self, order: usize, x: usize)
        requires
            old(self).wf(),
            order < old(self)@.len(),
            old(self)@[order as int].contains(x as int),
        ensures
            final(self).wf(),
            final(self).bound() == old(self).bound(),
            final(self)@ == old(self)@.update(order as int, old(self)@[order as int].remove_value(x as int)),
    {
        let ghost o0 = order as int;
        let ghost before = self.lists@[o0];
        let ghost at = before.index_of(x as int);
        proof {
            assert(0 <= at < before.len() && before[at] == x as int);
            assert(before.index_of_first(x as int) == Some(at)) by {
                before.index_of_first_ensures(x as int);
                let f = before.index_of_first(x as int)->0;
                assert(self.lists@[o0][f] == self.lists@[o0][at]);
            }
            assert(self.node_ok(o0, at));
            if at > 0 {
                assert(self.node_ok(o0, at - 1));
                assert(self.lists@[o0][at - 1] != self.lists@[o0][at]);
            }
            if at + 1 < before.len() {
                assert(self.node_ok(o0, at + 1));
                assert(self.lists@[o0][at + 1] != self.lists@[o0][at]);
            }
            if at > 0 && at + 1 < before.len() {
                assert(self.lists@[o0][at - 1] != self.lists@[o0][at + 1]);
            }
        }
        let prev: Option<usize> = self.nodes[x].prev;
        let next: Option<usize> = self.nodes[x].next;
        match prev {
            Some(p) => {
                self.nodes[p].next = next;
            },
            None => {
                self.heads[order] = next;
            },
        }
        if let Some(n) = next {
            self.nodes[n].prev = prev;
        }
        self.nodes[x] = FreeNode { prev: None, next: None };
        proof {
            self.lists = Ghost(self.lists@.update(o0, before.remove(at)));
            self.lemma_shortened(*old(self), o0, at);
            let lists = self.lists@;
            assert forall|o: int, i: int| 0 <= o < lists.len() && 0 <= i < lists[o].len() implies #[trigger] self.node_ok(
                o,
                i,
            ) by {
                let j = if o == o0 && i >= at { i + 1 } else { i };
                let y = old(self).lists@[o][j];
                assert(old(self).node_ok(o, j));
                assert(y == lists[o][i]);
                assert(y != old(self).lists@[o0][at]);
                if at > 0 && y == old(self).lists@[o0][at - 1] {
                    assert(o == o0 && j == at - 1);
                }
                if at + 1 < before.len() && y == old(self).lists@[o0][at + 1] {
                    assert(o == o0 && j == at + 1);
                }
            }
            assert forall|o: int| 0 <= o < lists.len() implies self.heads@[o] == link_at(#[trigger] lists[o], 0) by {
                assert(old(self).lists@[o] == old(self).lists@[o]);
            }
        }
    }

    /// Length of the list of `order`, counted along its links.
    pub fn count(&self, order: usize) -> (n: usize)
        requires
            self.wf(),
            order < self@.len(),
        ensures
            n == self@[order as int].len(),
    {
        let ghost list = self.lists@[order as int];
        let mut n: usize = 0;
        let mut curr: Option<usize> = self.heads[order];
        while curr.is_some()
            invariant
                self.wf(),
                order < self@.len(),
                list == self.lists@[order as int],
                n <= list.len(),
                curr == link_at(list, n as int),
            decreases list.len() - n,
        {
            let x: usize = curr.unwrap();
            assert(self.node_ok(order as int, n as int));
            proof {
                self.lemma_short(order as int);
            }
            n += 1;
            curr = self.nodes[x].next;
        }
        n
    }

    /// A list is no longer than there are numbers.
    proof fn lemma_short(self, o: int)
        requires
            self.wf(),
            0 <= o < self@.len(),
        ensures
            self@[o].len() <= self.bound(),
    {
        let list = self@[o];
        self.lemma_members();
        assert(list.no_duplicates()) by {
            assert forall|i: int, j: int| 0 <= i < list.len() && 0 <= j < list.len() && i != j implies list[i]
                != list[j] by {
                assert(self.lists@[o][i] == list[i] && self.lists@[o][j] == list[j]);
            }
        }
        list.unique_seq_to_set();
        let range = vstd::set_lib::set_int_range(0, self.bound() as int);
        vstd::set_lib::lemma_int_range(0, self.bound() as int);
        assert(list.to_set().subset_of(range)) by {
            assert forall|x: int| list.to_set().contains(x) implies range.contains(x) by {
                let i = choose|i: int| 0 <= i < list.len() && list[i] == x;
                assert(self@[o][i] == x);
            }
        }
        vstd::set_lib::lemma_len_subset(list.to_set(), range);
    }
}

} // verus!
