//! Operations in flight, by key.

use crate::error::IoError;
use crate::io::driver::stable_slab::{SlabModel, StableSlab, PAGE_SIZE};
use crate::io::driver::PlatformOp;
use crate::poll::Poll;
use std::task::Waker;
use vstd::prelude::*;

verus! {

/// An operation: who waits for it, its result once there is one, and what it
/// works with.
pub struct OpEntry<Op: PlatformOp, P> {
    pub waker: Option<Waker>,
    pub result: Option<Result<usize, IoError>>,
    pub resources: Option<Op>,
    pub cancelled: bool,
    pub platform_data: P,
}

impl<Op: PlatformOp, P> OpEntry<Op, P> {
    pub fn new(resources: Option<Op>, platform_data: P) -> (entry: Self)
        ensures
            entry == (OpEntry { waker: None, result: None, resources, cancelled: false, platform_data }),
    {
        OpEntry { waker: None, result: None, resources, cancelled: false, platform_data }
    }
}

/// The operations of a driver. An operation keeps its key, and its place in
/// memory, until it is removed.
pub struct OpRegistry<Op: PlatformOp, P> {
    slab: StableSlab<OpEntry<Op, P>>,
}

impl<Op: PlatformOp, P> OpRegistry<Op, P> {
    pub closed spec fn view(self) -> SlabModel<OpEntry<Op, P>> {
        self.slab@
    }

    pub closed spec fn wf(self) -> bool {
        self.slab.wf()
    }

    /// Keys lie below the capacity, and each is either vacant or in use.
    pub proof fn lemma_keys(self)
        requires
            self.wf(),
        ensures
            self@.capacity <= usize::MAX,
            self@.free.no_duplicates(),
            forall|k: usize| #[trigger] self@.entries.dom().contains(k) ==> k < self@.capacity
                && !self@.free.contains(k),
            forall|i: int| 0 <= i < self@.free.len() ==> #[trigger] self@.free[i] < self@.capacity
                && !self@.entries.dom().contains(self@.free[i]),
    {
        self.slab.lemma_keys();
        assert forall|i: int| 0 <= i < self@.free.len() implies #[trigger] self@.free[i] < self@.capacity
            && !self@.entries.dom().contains(self@.free[i]) by {
            assert(self@.free.contains(self@.free[i]));
        }
    }

    pub fn with_capacity(capacity: usize) -> (registry: Self)
        requires
            capacity + PAGE_SIZE <= usize::MAX,
        ensures
            registry.wf(),
            registry@ == SlabModel::<OpEntry<Op, P>>::empty().with_pages(
                SlabModel::<OpEntry<Op, P>>::empty().pages_for(capacity as nat),
            ),
    {
        OpRegistry { slab: StableSlab::with_capacity(capacity) }
    }

    /// Adds an operation under the next key.
    pub fn insert(&mut self, entry: OpEntry<Op, P>) -> (user_data: usize)
        requires
            old(self).wf(),
            old(self)@.can_insert(),
        ensures
            final(self).wf(),
            user_data == old(self)@.next_key(),
            !old(self)@.entries.dom().contains(user_data),
            final(self)@ == old(self)@.after_insert(entry),
    {
        self.slab.insert(entry)
    }

    /// Whether one more operation fits.
    pub fn has_room(&self) -> (room: bool)
        requires
            self.wf(),
        ensures
            room == self@.can_insert(),
    {
        self.slab.has_room()
    }

    /// Number of pages of slots.
    pub fn page_count(&self) -> (n: usize)
        requires
            self.wf(),
        ensures
            n * PAGE_SIZE == self@.capacity,
    {
        self.slab.page_count()
    }

    pub fn get(&self, user_data: usize) -> (entry: Option<&OpEntry<Op, P>>)
        requires
            self.wf(),
        ensures
            entry == (if self@.entries.dom().contains(user_data) {
                Some(&self@.entries[user_data])
            } else {
                None
            }),
    {
        self.slab.get(user_data)
    }

    pub fn get_mut(&mut self, user_data: usize) -> (entry: Option<&mut OpEntry<Op, P>>)
        requires
            old(self).wf(),
        ensures
            final(self).wf(),
            match entry {
                Some(e) => {
                    &&& old(self)@.entries.dom().contains(user_data)
                    &&& *e == old(self)@.entries[user_data]
                    &&& final(self)@ == (SlabModel {
                        entries: old(self)@.entries.insert(user_data, *final(e)),
                        ..old(self)@
                    })
                },
                None => !old(self)@.entries.dom().contains(user_data) && *final(self) == *old(self),
            },
    {
        self.slab.get_mut(user_data)
    }

    pub fn contains(&self, user_data: usize) -> (found: bool)
        requires
            self.wf(),
        ensures
            found == self@.entries.dom().contains(user_data),
    {
        self.slab.contains(user_data)
    }

    pub fn is_empty(&self) -> (empty: bool)
        requires
            self.wf(),
        ensures
            empty == (self@.entries == Map::<usize, OpEntry<Op, P>>::empty()),
    {
        self.slab.is_empty()
    }

    pub fn remove(&mut self, user_data: usize) -> (entry: OpEntry<Op, P>)
        requires
            old(self).wf(),
            old(self)@.entries.dom().contains(user_data),
        ensures
            final(self).wf(),
            entry == old(self)@.entries[user_data],
            final(self)@ == old(self)@.after_remove(user_data),
    {
        self.slab.remove(user_data)
    }

    /// The operation with the smallest key from `from` on. Stepping from each key
    /// to the next visits them all.
    pub fn iter_mut(&mut self, from: usize) -> (next: Option<(usize, &mut OpEntry<Op, P>)>)
        requires
            old(self).wf(),
        ensures
            final(self).wf(),
            match next {
                Some((key, e)) => {
                    &&& from <= key
                    &&& old(self)@.entries.dom().contains(key)
                    &&& forall|k: usize| from <= k < key ==> !#[trigger] old(self)@.entries.dom().contains(k)
                    &&& *e == old(self)@.entries[key]
                    &&& final(self)@ == (SlabModel {
                        entries: old(self)@.entries.insert(key, *final(e)),
                        ..old(self)@
                    })
                },
                None => {
                    &&& forall|k: usize| from <= k ==> !#[trigger] old(self)@.entries.dom().contains(k)
                    &&& *final(self) == *old(self)
                },
            },
    {
        let pages: usize = self.slab.page_count();
        proof {
            self.lemma_keys();
        }
        let capacity: usize = pages * PAGE_SIZE;
        let mut key: usize = from;
        while key < capacity && !self.slab.contains(key)
            invariant
                self.wf(),
                *self == *old(self),
                from <= key,
                capacity == self@.capacity,
                forall|k: usize| from <= k < key ==> !#[trigger] self@.entries.dom().contains(k),
            decreases capacity - key,
        {
            key += 1;
        }
        if key >= capacity {
            return None;
        }
        match self.slab.get_mut(key) {
            Some(e) => Some((key, e)),
            None => None,
        }
    }

    /// Takes a finished operation out, or notes who waits for it.
    pub fn poll_op(&mut self, user_data: usize, waker: Waker) -> (polled: Poll<(Result<usize, IoError>, Op)>)
        requires
            old(self).wf(),
            old(self)@.entries.dom().contains(user_data),
            old(self)@.entries[user_data].result.is_some() ==> old(self)@.entries[user_data].resources.is_some(),
        ensures
            final(self).wf(),
            ({
                let entry = old(self)@.entries[user_data];
                match entry.result {
                    Some(res) => {
                        &&& polled == Poll::Ready((res, entry.resources->0))
                        &&& final(self)@ == old(self)@.after_remove(user_data)
                    },
                    None => {
                        &&& polled == Poll::<(Result<usize, IoError>, Op)>::Pending
                        &&& final(self)@ == (SlabModel {
                            entries: old(self)@.entries.insert(
                                user_data,
                                (OpEntry { waker: Some(waker), ..entry }),
                            ),
                            ..old(self)@
                        })
                    },
                }
            }),
    {
        let done: bool = match self.slab.get(user_data) {
            Some(entry) => entry.result.is_some(),
            None => false,
        };
        if done {
            let entry = self.slab.remove(user_data);
            Poll::Ready((entry.result.unwrap(), entry.resources.unwrap()))
        } else {
            if let Some(entry) = self.slab.get_mut(user_data) {
                entry.waker = Some(waker);
            }
            Poll::Pending
        }
    }
}

impl<Op: PlatformOp, P> vstd::std_specs::core::IndexSpecImpl<usize> for OpRegistry<Op, P> {
    open spec fn index_req(&self, index: &usize) -> bool {
        self.wf() && self@.entries.dom().contains(*index)
    }
}

impl<Op: PlatformOp, P> std::ops::Index<usize> for OpRegistry<Op, P> {
    type Output = OpEntry<Op, P>;

    fn index(&self, index: usize) -> (entry: &OpEntry<Op, P>)
        ensures
            *entry == self@.entries[index],
    {
        self.slab.get(index).unwrap()
    }
}

} // verus!
