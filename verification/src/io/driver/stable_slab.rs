//! A slab whose entries keep their key and never move between pages.

use vstd::prelude::*;

verus! {

/// Number of slots in a page.
pub const PAGE_SIZE: usize = 1024;

const PAGE_SHIFT: usize = 10;

const PAGE_MASK: usize = 1023;

/// End marker of the free list.
const NIL: usize = usize::MAX;

enum Slot<T> {
    Occupied(T),
    Vacant(usize),
}

/// A keyed collection in pages of `PAGE_SIZE` slots. Vacant slots form a
/// last-in first-out free list, so the key of the next insertion is determined.
pub struct StableSlab<T> {
    pages: Vec<Vec<Slot<T>>>,
    free_head: usize,
    len: usize,
    free: Ghost<Seq<usize>>,
}

/// What a slab holds: its entries by key, the vacant keys in the order in which
/// they will be handed out, and the number of slots.
#[verifier::ext_equal]
pub ghost struct SlabModel<T> {
    pub entries: Map<usize, T>,
    pub free: Seq<usize>,
    pub capacity: nat,
}

/// The keys of the page that starts at slot `start`, in ascending order.
pub open spec fn page_keys(start: nat) -> Seq<usize> {
    Seq::new(PAGE_SIZE as nat, |i: int| (start + i) as usize)
}

impl<T> SlabModel<T> {
    /// A slab without pages.
    pub open spec fn empty() -> Self {
        SlabModel { entries: Map::empty(), free: Seq::empty(), capacity: 0 }
    }

    /// One more page, whose slots are handed out before the older vacant ones.
    pub open spec fn with_page(self) -> Self {
        SlabModel {
            entries: self.entries,
            free: page_keys(self.capacity) + self.free,
            capacity: self.capacity + PAGE_SIZE as nat,
        }
    }

    /// `n` more pages.
    pub open spec fn with_pages(self, n: nat) -> Self
        decreases n,
    {
        if n == 0 {
            self
        } else {
            self.with_pages((n - 1) as nat).with_page()
        }
    }

    /// The slab that an insertion works on: it has a vacant slot.
    pub open spec fn grown(self) -> Self {
        if self.free.len() > 0 {
            self
        } else {
            self.with_page()
        }
    }

    /// Whether one more entry fits below the largest key.
    pub open spec fn can_insert(self) -> bool {
        self.free.len() > 0 || self.capacity + PAGE_SIZE <= usize::MAX
    }

    /// The key of the next insertion.
    pub open spec fn next_key(self) -> usize {
        self.grown().free[0]
    }

    pub open spec fn after_insert(self, val: T) -> Self {
        SlabModel {
            entries: self.entries.insert(self.next_key(), val),
            free: self.grown().free.drop_first(),
            capacity: self.grown().capacity,
        }
    }

    pub open spec fn after_remove(self, key: usize) -> Self {
        SlabModel {
            entries: self.entries.remove(key),
            free: seq![key] + self.free,
            capacity: self.capacity,
        }
    }

    /// Number of pages that `reserve` adds for `additional` more entries.
    pub open spec fn pages_for(self, additional: nat) -> nat {
        if additional > self.free.len() {
            ((additional - self.free.len() + PAGE_SIZE - 1) / PAGE_SIZE as int) as nat
        } else {
            0
        }
    }
}

/// Distinct numbers below `n`, one of which is missing, are fewer than `n`.
proof fn lemma_missing_key(s: Seq<usize>, n: nat, missing: usize)
    requires
        s.no_duplicates(),
        forall|i: int| 0 <= i < s.len() ==> s[i] < n,
        missing < n,
        !s.contains(missing),
    ensures
        s.len() < n,
{
    let t = s.push(missing);
    assert(t.no_duplicates());
    lemma_distinct_keys(t, n);
}

/// Distinct numbers below `n` are at most `n` many.
proof fn lemma_distinct_keys(s: Seq<usize>, n: nat)
    requires
        s.no_duplicates(),
        forall|i: int| 0 <= i < s.len() ==> s[i] < n,
    ensures
        s.len() <= n,
{
    let ints = s.map_values(|k: usize| k as int);
    assert(ints.no_duplicates());
    ints.unique_seq_to_set();
    let range = vstd::set_lib::set_int_range(0, n as int);
    vstd::set_lib::lemma_int_range(0, n as int);
    assert(ints.to_set().subset_of(range));
    vstd::set_lib::lemma_len_subset(ints.to_set(), range);
}

/// There are `n` keys below `n`.
proof fn lemma_key_range(n: nat)
    requires
        n <= usize::MAX,
    ensures
        Set::new(|k: usize| k < n).finite(),
        Set::new(|k: usize| k < n).len() == n,
    decreases n,
{
    let range = Set::new(|k: usize| k < n);
    if n == 0 {
        assert(range =~= Set::empty());
    } else {
        let last = (n - 1) as usize;
        lemma_key_range((n - 1) as nat);
        assert(range =~= Set::new(|k: usize| k < n - 1).insert(last));
    }
}

impl<T> StableSlab<T> {
    spec fn slots(self) -> nat {
        (self.pages@.len() * PAGE_SIZE) as nat
    }

    spec fn slot(self, key: int) -> Slot<T> {
        self.pages@[key / 1024]@[key % 1024]
    }

    spec fn link(self, i: int) -> usize {
        if i < self.free@.len() {
            self.free@[i]
        } else {
            NIL
        }
    }

    /// The `i`-th vacant slot points to the one after it.
    spec fn chained(self, i: int) -> bool {
        &&& self.free@[i] < self.slots()
        &&& self.slot(self.free@[i] as int) == Slot::<T>::Vacant(self.link(i + 1))
    }

    spec fn entries(self) -> Map<usize, T> {
        Map::new(
            |k: usize| k < self.slots() && self.slot(k as int) is Occupied,
            |k: usize| self.slot(k as int)->Occupied_0,
        )
    }

    /// The slab's invariant: full pages, and a free list that runs through every
    /// vacant slot exactly once.
    pub closed spec fn wf(self) -> bool {
        &&& self.slots() <= usize::MAX
        &&& forall|p: int| 0 <= p < self.pages@.len() ==> (#[trigger] self.pages@[p])@.len() == PAGE_SIZE
        &&& self.free@.no_duplicates()
        &&& forall|i: int| 0 <= i < self.free@.len() ==> #[trigger] self.chained(i)
        &&& forall|k: usize|
            k < self.slots() && (#[trigger] self.slot(k as int)) is Vacant ==> self.free@.contains(k)
        &&& self.free_head == self.link(0)
        &&& self.len + self.free@.len() == self.slots()
    }

    pub closed spec fn view(self) -> SlabModel<T> {
        SlabModel { entries: self.entries(), free: self.free@, capacity: self.slots() }
    }

    /// Keys lie below the capacity, and no key is both vacant and occupied.
    pub proof fn lemma_keys(self)
        requires
            self.wf(),
        ensures
            self@.capacity <= usize::MAX,
            self@.free.no_duplicates(),
            forall|k: usize| #[trigger] self@.entries.dom().contains(k) ==> k < self@.capacity
                && !self@.free.contains(k),
            forall|k: usize| k < self@.capacity ==> self@.entries.dom().contains(k)
                || #[trigger] self@.free.contains(k),
            forall|k: usize| #[trigger] self@.free.contains(k) ==> k < self@.capacity,
            forall|i: int| 0 <= i < self@.free.len() ==> #[trigger] self@.free[i] < self@.capacity,
    {
        assert forall|i: int| 0 <= i < self@.free.len() implies #[trigger] self@.free[i] < self@.capacity by {
            assert(self.chained(i));
        }
        assert forall|k: usize| #[trigger] self@.entries.dom().contains(k) implies k < self@.capacity
            && !self@.free.contains(k) by {
            if self.free@.contains(k) {
                let i = choose|i: int| 0 <= i < self.free@.len() && self.free@[i] == k;
                assert(self.chained(i));
            }
        }
        assert forall|k: usize| #[trigger] self@.free.contains(k) implies k < self@.capacity by {
            let i = choose|i: int| 0 <= i < self.free@.len() && self.free@[i] == k;
            assert(self.chained(i));
        }
        assert forall|k: usize| k < self@.capacity implies self@.entries.dom().contains(k)
            || #[trigger] self@.free.contains(k) by {
            assert(self.slot(k as int) is Vacant || self.slot(k as int) is Occupied);
        }
    }

    /// Every slot is either vacant or holds one entry.
    pub proof fn lemma_count(self)
        requires
            self.wf(),
        ensures
            self@.entries.dom().finite(),
            self@.entries.dom().len() + self@.free.len() == self@.capacity,
    {
        self.lemma_keys();
        lemma_key_range(self@.capacity);
        let range = Set::new(|k: usize| k < self@.capacity);
        let vacant = self@.free.to_set();
        self@.free.unique_seq_to_set();
        vstd::seq_lib::seq_to_set_is_finite(self@.free);
        assert(self@.entries.dom() =~= range.difference(vacant));
        vstd::set_lib::lemma_set_disjoint_lens(self@.entries.dom(), vacant);
        assert(self@.entries.dom() + vacant =~= range) by {
            assert forall|k: usize| range.contains(k) implies (self@.entries.dom() + vacant).contains(k) by {
                assert(self@.entries.dom().contains(k) || self@.free.contains(k));
            }
        }
    }

    pub fn new() -> (slab: Self)
        ensures
            slab.wf(),
            slab@ == SlabModel::<T>::empty(),
    {
        let slab = StableSlab { pages: Vec::new(), free_head: NIL, len: 0, free: Ghost(Seq::empty()) };
        assert(slab@.entries =~= Map::empty());
        slab
    }

    /// A slab with room for `capacity` entries.
    pub fn with_capacity(capacity: usize) -> (slab: Self)
        requires
            capacity + PAGE_SIZE <= usize::MAX,
        ensures
            slab.wf(),
            slab@ == SlabModel::<T>::empty().with_pages(SlabModel::<T>::empty().pages_for(capacity as nat)),
    {
        let mut slab = Self::new();
        slab.reserve(capacity);
        slab
    }

    fn unpack_key(key: usize) -> (place: (usize, usize))
        ensures
            place.0 == key / 1024,
            place.1 == key % 1024,
    {
        assert(key >> 10usize == key / 1024) by (bit_vector);
        assert(key & 1023usize == key % 1024) by (bit_vector);
        (key >> PAGE_SHIFT, key & PAGE_MASK)
    }

    fn add_page(&mut self)
        requires
            old(self).wf(),
            old(self)@.capacity + PAGE_SIZE <= usize::MAX,
        ensures
            final(self).wf(),
            final(self)@ == old(self)@.with_page(),
            final(self).len == old(self).len,
    {
        let page_idx: usize = self.pages.len();
        let start_idx: usize = page_idx * PAGE_SIZE;
        let mut page: Vec<Slot<T>> = Vec::with_capacity(PAGE_SIZE);
        let old_head: usize = self.free_head;
        let mut i: usize = 0;
        while i < PAGE_SIZE
            invariant
                i <= PAGE_SIZE,
                page@.len() == i,
                start_idx + PAGE_SIZE <= usize::MAX,
                forall|j: int|
                    0 <= j < i ==> #[trigger] page@[j] == Slot::<T>::Vacant(
                        if j == PAGE_SIZE - 1 {
                            old_head
                        } else {
                            (start_idx + j + 1) as usize
                        },
                    ),
            decreases PAGE_SIZE - i,
        {
            let next: usize = if i == PAGE_SIZE - 1 {
                old_head
            } else {
                start_idx + i + 1
            };
            page.push(Slot::Vacant(next));
            i += 1;
        }
        self.pages.push(page);
        self.free_head = start_idx;
        proof {
            let keys = page_keys(old(self).slots());
            self.free = Ghost(keys + old(self).free@);
            old(self).lemma_keys();
            assert(self.free@.no_duplicates());
            assert forall|k: int| 0 <= k < old(self).slots() implies self.slot(k) == old(self).slot(k) by {
                assert(k / 1024 < old(self).pages@.len());
            }
            assert forall|k: int| old(self).slots() <= k < self.slots() implies self.slot(k)
                == #[trigger] page@[k - start_idx] by {
                assert(k / 1024 == page_idx);
                assert(k % 1024 == k - start_idx);
            }
            assert forall|i: int| 0 <= i < self.free@.len() implies #[trigger] self.chained(i) by {
                if i >= PAGE_SIZE {
                    assert(old(self).chained(i - PAGE_SIZE));
                    assert(self.free@[i] == old(self).free@[i - PAGE_SIZE]);
                    assert(self.link(i + 1) == old(self).link(i - PAGE_SIZE + 1));
                } else {
                    assert(self.slot(start_idx + i) == page@[i]);
                }
            }
            assert forall|k: usize| k < self.slots() && (#[trigger] self.slot(k as int)) is Vacant implies
                self.free@.contains(k) by {
                if k < old(self).slots() {
                    assert(old(self).slot(k as int) is Vacant);
                    assert(old(self).free@.contains(k));
                    let j = choose|j: int| 0 <= j < old(self).free@.len() && old(self).free@[j] == k;
                    assert(self.free@[j + PAGE_SIZE] == k);
                } else {
                    assert(self.free@[k - start_idx] == k);
                }
            }
            assert(self@.entries =~= old(self)@.entries);
        }
    }

    /// Makes room for `additional` more entries.
    pub fn reserve(&mut self, additional: usize)
        requires
            old(self).wf(),
            additional + PAGE_SIZE <= usize::MAX,
            old(self)@.capacity + old(self)@.pages_for(additional as nat) * PAGE_SIZE <= usize::MAX,
        ensures
            final(self).wf(),
            final(self)@ == old(self)@.with_pages(old(self)@.pages_for(additional as nat)),
    {
        let available: usize = (self.pages.len() * PAGE_SIZE) - self.len;
        if additional > available {
            let needed: usize = additional - available;
            let pages_needed: usize = (needed + PAGE_SIZE - 1) / PAGE_SIZE;
            let mut i: usize = 0;
            while i < pages_needed
                invariant
                    i <= pages_needed,
                    self.wf(),
                    self@ == old(self)@.with_pages(i as nat),
                    self@.capacity == old(self)@.capacity + i * PAGE_SIZE,
                    old(self)@.capacity + pages_needed * PAGE_SIZE <= usize::MAX,
                decreases pages_needed - i,
            {
                self.add_page();
                i += 1;
            }
        }
    }

    /// Replaces the slot at `key`; every other slot stays as it was.
    proof fn lemma_one_slot(before: Self, after: Self, key: usize)
        requires
            before.wf(),
            key < before.slots(),
            after.pages@.len() == before.pages@.len(),
            forall|p: int|
                0 <= p < before.pages@.len() && p != key as int / 1024 ==> after.pages@[p] == before.pages@[p],
            after.pages@[key as int / 1024]@ == before.pages@[key as int / 1024]@.update(
                key as int % 1024,
                after.slot(key as int),
            ),
        ensures
            after.slots() == before.slots(),
            forall|p: int| 0 <= p < after.pages@.len() ==> (#[trigger] after.pages@[p])@.len() == PAGE_SIZE,
            forall|k: int| 0 <= k < before.slots() && k != key ==> #[trigger] after.slot(k) == before.slot(k),
    {
        assert forall|k: int| 0 <= k < before.slots() && k != key implies #[trigger] after.slot(k)
            == before.slot(k) by {
            if k / 1024 == key as int / 1024 {
                assert(k % 1024 != key as int % 1024);
            }
        }
    }

    /// Stores `val` in the first vacant slot and returns its key.
    pub fn insert(&mut self, val: T) -> (key: usize)
        requires
            old(self).wf(),
            old(self)@.can_insert(),
        ensures
            final(self).wf(),
            key == old(self)@.next_key(),
            !old(self)@.entries.dom().contains(key),
            final(self)@ == old(self)@.after_insert(val),
    {
        let key: usize = if self.free_head != NIL {
            self.free_head
        } else {
            assert(self.free@.len() == 0) by {
                if self.free@.len() > 0 {
                    assert(self.chained(0));
                }
            }
            self.add_page();
            self.free_head
        };
        let ghost mid = *self;
        assert(mid@ == old(self)@.grown());
        assert(key == mid.free@[0]);
        assert(mid.chained(0));
        let (page_idx, slot_idx) = Self::unpack_key(key);
        let next: usize = match &self.pages[page_idx][slot_idx] {
            Slot::Vacant(next) => *next,
            Slot::Occupied(_) => NIL,
        };
        self.free_head = next;
        self.pages[page_idx][slot_idx] = Slot::Occupied(val);
        proof {
            mid.lemma_keys();
            lemma_distinct_keys(mid.free@, mid.slots());
        }
        self.len += 1;
        proof {
            self.free = Ghost(mid.free@.drop_first());
            Self::lemma_one_slot(mid, *self, key);
            assert forall|i: int| 0 <= i < self.free@.len() implies #[trigger] self.chained(i) by {
                assert(mid.chained(i + 1));
                assert(self.free@[i] == mid.free@[i + 1]);
                assert(self.link(i + 1) == mid.link(i + 2));
                assert(mid.free@[i + 1] != mid.free@[0]);
            }
            assert forall|k: usize| k < self.slots() && (#[trigger] self.slot(k as int)) is Vacant implies
                self.free@.contains(k) by {
                assert(k != key);
                assert(mid.slot(k as int) is Vacant);
                let j = choose|j: int| 0 <= j < mid.free@.len() && mid.free@[j] == k;
                assert(self.free@[j - 1] == k);
            }
            assert(self@.entries =~= mid@.entries.insert(key, val));
        }
        key
    }

    /// Takes the entry at `key` out; its slot is the next to be handed out.
    pub fn remove(&mut self, key: usize) -> (val: T)
        requires
            old(self).wf(),
            old(self)@.entries.dom().contains(key),
        ensures
            final(self).wf(),
            val == old(self)@.entries[key],
            final(self)@ == old(self)@.after_remove(key),
    {
        proof {
            self.lemma_keys();
        }
        let (page_idx, slot_idx) = Self::unpack_key(key);
        let mut slot: Slot<T> = Slot::Vacant(self.free_head);
        std::mem::swap(&mut self.pages[page_idx][slot_idx], &mut slot);
        match slot {
            Slot::Occupied(val) => {
                proof {
                    lemma_missing_key(old(self).free@, old(self).slots(), key);
                }
                self.free_head = key;
                self.len -= 1;
                proof {
                    self.free = Ghost(seq![key] + old(self).free@);
                    Self::lemma_one_slot(*old(self), *self, key);
                    assert forall|i: int| 0 <= i < self.free@.len() implies #[trigger] self.chained(i) by {
                        assert(self.link(i + 1) == old(self).link(i));
                        if i > 0 {
                            assert(old(self).chained(i - 1));
                            assert(self.free@[i] == old(self).free@[i - 1]);
                            assert(old(self).free@.contains(self.free@[i]));
                        }
                    }
                    assert forall|k: usize| k < self.slots() && (#[trigger] self.slot(k as int)) is Vacant implies
                        self.free@.contains(k) by {
                        if k == key {
                            assert(self.free@[0] == k);
                        } else {
                            assert(old(self).slot(k as int) is Vacant);
                            let j = choose|j: int| 0 <= j < old(self).free@.len() && old(self).free@[j] == k;
                            assert(self.free@[j + 1] == k);
                        }
                    }
                    assert(self@.entries =~= old(self)@.entries.remove(key));
                }
                val
            },
            Slot::Vacant(_) => {
                assert(false);
                vstd::pervasive::unreached()
            },
        }
    }

    /// The entry at `key`, if there is one.
    pub fn get(&self, key: usize) -> (entry: Option<&T>)
        requires
            self.wf(),
        ensures
            entry == (if self@.entries.dom().contains(key) {
                Some(&self@.entries[key])
            } else {
                None
            }),
    {
        let (page_idx, slot_idx) = Self::unpack_key(key);
        if page_idx < self.pages.len() {
            if let Slot::Occupied(val) = &self.pages[page_idx][slot_idx] {
                return Some(val);
            }
        }
        None
    }

    proof fn lemma_entry_changed(before: Self, after: Self, key: usize)
        requires
            before.wf(),
            before@.entries.dom().contains(key),
            after.slot(key as int) is Occupied,
            after.pages@.len() == before.pages@.len(),
            forall|p: int|
                0 <= p < before.pages@.len() && p != key as int / 1024 ==> after.pages@[p] == before.pages@[p],
            after.pages@[key as int / 1024]@ == before.pages@[key as int / 1024]@.update(
                key as int % 1024,
                after.slot(key as int),
            ),
            after.free_head == before.free_head,
            after.len == before.len,
            after.free == before.free,
        ensures
            after.wf(),
            after@ == (SlabModel {
                entries: before@.entries.insert(key, after.slot(key as int)->Occupied_0),
                ..before@
            }),
    {
        before.lemma_keys();
        Self::lemma_one_slot(before, after, key);
        assert forall|i: int| 0 <= i < after.free@.len() implies #[trigger] after.chained(i) by {
            assert(before.chained(i));
            assert(before.free@.contains(before.free@[i]));
        }
        assert forall|k: usize| k < after.slots() && (#[trigger] after.slot(k as int)) is Vacant implies
            after.free@.contains(k) by {
            assert(before.slot(k as int) is Vacant);
        }
        assert(after@.entries =~= before@.entries.insert(key, after.slot(key as int)->Occupied_0));
    }

    /// The entry at `key` for modification, if there is one.
    pub fn get_mut(&mut self, key: usize) -> (entry: Option<&mut T>)
        requires
            old(self).wf(),
        ensures
            final(self).wf(),
            match entry {
                Some(e) => {
                    &&& old(self)@.entries.dom().contains(key)
                    &&& *e == old(self)@.entries[key]
                    &&& final(self)@ == (SlabModel {
                        entries: old(self)@.entries.insert(key, *final(e)),
                        ..old(self)@
                    })
                },
                None => !old(self)@.entries.dom().contains(key) && *final(self) == *old(self),
            },
    {
        if !self.contains(key) {
            return None;
        }
        let (page_idx, slot_idx) = Self::unpack_key(key);
        let ghost end = *final(self);
        match &mut self.pages[page_idx][slot_idx] {
            Slot::Occupied(val) => {
                proof {
                    Self::lemma_entry_changed(*old(self), end, key);
                }
                Some(val)
            },
            Slot::Vacant(_) => None,
        }
    }

    pub fn contains(&self, key: usize) -> (found: bool)
        requires
            self.wf(),
        ensures
            found == self@.entries.dom().contains(key),
    {
        self.get(key).is_some()
    }

    pub fn is_empty(&self) -> (empty: bool)
        requires
            self.wf(),
        ensures
            empty == (self@.entries == Map::<usize, T>::empty()),
    {
        proof {
            self.lemma_count();
            assert(self.len == 0 ==> self@.entries =~= Map::empty());
        }
        self.len == 0
    }

    /// Number of entries.
    pub fn len(&self) -> (n: usize)
        requires
            self.wf(),
        ensures
            n == self@.entries.dom().len(),
    {
        proof {
            self.lemma_count();
        }
        self.len
    }

    /// Whether one more entry fits below the largest key.
    pub fn has_room(&self) -> (room: bool)
        requires
            self.wf(),
        ensures
            room == self@.can_insert(),
    {
        proof {
            self.lemma_keys();
        }
        self.free_head != NIL || self.pages.len() * PAGE_SIZE <= usize::MAX - PAGE_SIZE
    }

    /// Number of pages.
    pub fn page_count(&self) -> (n: usize)
        requires
            self.wf(),
        ensures
            n * PAGE_SIZE == self@.capacity,
    {
        self.pages.len()
    }
}

impl<T> vstd::std_specs::core::IndexSpecImpl<usize> for StableSlab<T> {
    open spec fn index_req(&self, index: &usize) -> bool {
        self.wf() && self@.entries.dom().contains(*index)
    }
}

impl<T> std::ops::Index<usize> for StableSlab<T> {
    type Output = T;

    fn index(&self, index: usize) -> (entry: &T)
        ensures
            *entry == self@.entries[index],
    {
        self.get(index).unwrap()
    }
}

impl<T> SlabModel<T> {
    /// A key that is given back is the next to be given out. Putting something in and
    /// taking it out again leaves the rest as it was.
    pub proof fn lemma_key_comes_back(self, val: T, key: usize)
        requires
            !self.entries.dom().contains(self.next_key()),
            self.grown().free.len() > 0,
        ensures
            self.after_remove(key).next_key() == key,
            self.after_insert(val).entries[self.next_key()] == val,
            self.after_insert(val).after_remove(self.next_key()).entries == self.entries,
            self.after_insert(val).after_remove(self.next_key()).free == self.grown().free,
            forall|k: usize| k != self.next_key() && self.entries.dom().contains(k)
                ==> #[trigger] self.after_insert(val).entries[k] == self.entries[k],
            forall|k: usize| k != key && self.entries.dom().contains(k) ==> self.after_remove(key).entries.dom().contains(k)
                && #[trigger] self.after_remove(key).entries[k] == self.entries[k],
            !self.after_remove(key).entries.dom().contains(key),
    {
        assert(self.after_insert(val).after_remove(self.next_key()).entries =~= self.entries);
        assert(self.after_insert(val).after_remove(self.next_key()).free =~= self.grown().free);
    }

    /// A slab grows by a page of one thousand and twenty-four keys, which follow those
    /// that it has and are given out in order, and only where no key is left.
    pub proof fn lemma_grows_by_page(self)
        ensures
            self.free.len() > 0 ==> self.grown() == self,
            self.free.len() > 0 ==> self.next_key() == self.free[0],
            self.with_page().capacity == self.capacity + 1024,
            self.with_page().free.len() == self.free.len() + 1024,
            self.with_page().entries == self.entries,
            forall|i: int|
                0 <= i < 1024 && self.capacity + 1024 <= usize::MAX ==> #[trigger] self.with_page().free[i]
                    == self.capacity + i,
            self.free.len() == 0 && self.capacity + 1024 <= usize::MAX ==> self.next_key() == self.capacity,
    {
    }

    /// The pages for more entries are enough, and not one too many.
    pub proof fn lemma_pages_suffice(self, additional: nat)
        ensures
            self.free.len() + self.pages_for(additional) * 1024 >= additional,
            self.pages_for(additional) > 0 ==> self.free.len() + (self.pages_for(additional) - 1) * 1024
                < additional,
    {
    }
}

} // verus!
