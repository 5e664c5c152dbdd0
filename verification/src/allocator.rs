//! A slot arena issuing stable integer handles.
//!
//! Slots are reused through a free list: `allocate` fills the most
//! recently freed slot if one exists, otherwise appends a new one.
//! A handle stays valid until `deallocate` frees its slot.
//!
//! The view of an allocator is the sequence of its slots, each either
//! occupied (`Some`) or free (`None`).

use vstd::prelude::*;

verus! {

/// The number of occupied slots in a slot sequence.
pub open spec fn count_some<T>(s: Seq<Option<T>>) -> int
    decreases s.len(),
{
    if s.len() == 0 {
        0
    } else {
        count_some(s.drop_last()) + if s.last() is Some {
            1int
        } else {
            0int
        }
    }
}

pub proof fn lemma_count_some_bounds<T>(s: Seq<Option<T>>)
    ensures
        0 <= count_some(s) <= s.len(),
    decreases s.len(),
{
    if s.len() > 0 {
        lemma_count_some_bounds(s.drop_last());
    }
}

pub proof fn lemma_count_some_update<T>(s: Seq<Option<T>>, i: int, v: Option<T>)
    requires
        0 <= i < s.len(),
    ensures
        count_some(s.update(i, v)) == count_some(s) + (if v is Some {
            1int
        } else {
            0int
        }) - (if s[i] is Some {
            1int
        } else {
            0int
        }),
    decreases s.len(),
{
    let t = s.update(i, v);
    if i == s.len() - 1 {
        assert(t.drop_last() =~= s.drop_last());
    } else {
        assert(t.drop_last() =~= s.drop_last().update(i, v));
        lemma_count_some_update(s.drop_last(), i, v);
    }
}

pub proof fn lemma_count_some_push<T>(s: Seq<Option<T>>, v: Option<T>)
    ensures
        count_some(s.push(v)) == count_some(s) + (if v is Some {
            1int
        } else {
            0int
        }),
{
    assert(s.push(v).drop_last() =~= s);
}

/// If some slot is occupied, the occupied count is positive.
pub proof fn lemma_count_some_occupied<T>(s: Seq<Option<T>>, i: int)
    requires
        0 <= i < s.len(),
        s[i] is Some,
    ensures
        count_some(s) >= 1,
    decreases s.len(),
{
    if i < s.len() - 1 {
        lemma_count_some_occupied(s.drop_last(), i);
        lemma_count_some_bounds(s.drop_last());
    } else {
        lemma_count_some_bounds(s.drop_last());
    }
}

/// If some slot is free, the occupied count is below the slot count.
pub proof fn lemma_count_some_free<T>(s: Seq<Option<T>>, i: int)
    requires
        0 <= i < s.len(),
        s[i] is None,
    ensures
        count_some(s) < s.len(),
    decreases s.len(),
{
    if i < s.len() - 1 {
        lemma_count_some_free(s.drop_last(), i);
    } else {
        lemma_count_some_bounds(s.drop_last());
    }
}

/// A generic slot store issuing stable indices, reusing freed slots.
#[derive(Debug)]
pub struct Allocator<T> {
    nodes: Vec<Option<T>>,
    free_list: Vec<usize>,
    len: usize,
}

impl<T> View for Allocator<T> {
    type V = Seq<Option<T>>;

    closed spec fn view(&self) -> Seq<Option<T>> {
        self.nodes@
    }
}

impl<T> Allocator<T> {
    /// Internal consistency: the free list holds exactly the free
    /// slots, once each, and `len` counts the occupied slots.
    pub closed spec fn wf(&self) -> bool {
        &&& forall|k: int|
            0 <= k < self.free_list@.len() ==> (#[trigger] self.free_list@[k]) < self.nodes@.len()
                && self.nodes@[self.free_list@[k] as int] is None
        &&& forall|k1: int, k2: int|
            0 <= k1 < k2 < self.free_list@.len() ==> self.free_list@[k1] != self.free_list@[k2]
        &&& forall|j: int|
            0 <= j < self.nodes@.len() && self.nodes@[j] is None ==> self.free_list@.contains(
                j as usize,
            )
        &&& self.len as int == count_some(self.nodes@)
    }

    /// Stores `item` in a free slot, or in a fresh slot at the end,
    /// and returns the slot's index.
    pub fn allocate(&mut self, item: T) -> (id: usize)
        requires
            old(self).wf(),
        ensures
            final(self).wf(),
            id < final(self)@.len(),
            final(self)@[id as int] == Some(item),
            ({
                ||| (id < old(self)@.len() && old(self)@[id as int] is None && final(self)@ == old(
                    self,
                )@.update(id as int, Some(item)))
                ||| (id == old(self)@.len() && final(self)@ == old(self)@.push(Some(item)))
            }),
            (exists|j: int| 0 <= j < old(self)@.len() && old(self)@[j] is None) ==> id < old(
                self,
            )@.len(),
    {
        proof {
            lemma_count_some_bounds(self.nodes@);
        }
        let n = self.nodes.len();
        if let Some(free) = self.free_list.pop() {
            proof {
                lemma_count_some_free(self.nodes@, free as int);
                lemma_count_some_update(self.nodes@, free as int, Some(item));
            }
            self.len = self.len + 1;
            self.nodes[free] = Some(item);
            proof {
                let old_free = old(self).free_list@;
                assert forall|j: int|
                    0 <= j < self.nodes@.len() && self.nodes@[j] is None implies self.free_list@
                    .contains(j as usize) by {
                    assert(old_free.contains(j as usize));
                    let k = choose|k: int| 0 <= k < old_free.len() && old_free[k] == j as usize;
                    assert(k < old_free.len() - 1);
                    assert(self.free_list@[k] == j as usize);
                }
            }
            return free;
        }
        proof {
            lemma_count_some_push(self.nodes@, Some(item));
            // With an empty free list there is no free slot at all.
            assert forall|j: int|
                0 <= j < self.nodes@.len() implies !(self.nodes@[j] is None) by {
                if self.nodes@[j] is None {
                    assert(self.free_list@.contains(j as usize));
                }
            }
        }
        self.nodes.push(Some(item));
        let grown = self.nodes.len();
        self.len = self.len + 1;
        grown - 1
    }

    /// Frees the slot `id` and returns what it held. Freeing an
    /// already-free slot is a programming error and is excluded.
    pub fn deallocate(&mut self, id: usize) -> (r: T)
        requires
            old(self).wf(),
            id < old(self)@.len(),
            old(self)@[id as int] is Some,
        ensures
            final(self).wf(),
            Some(r) == old(self)@[id as int],
            final(self)@ == old(self)@.update(id as int, None::<T>),
    {
        proof {
            lemma_count_some_occupied(self.nodes@, id as int);
            lemma_count_some_update(self.nodes@, id as int, None::<T>);
        }
        let slot = &mut self.nodes[id];
        let node = slot.take();
        self.free_list.push(id);
        self.len = self.len - 1;
        proof {
            let old_free = old(self).free_list@;
            assert forall|j: int|
                0 <= j < self.nodes@.len() && self.nodes@[j] is None implies self.free_list@
                .contains(j as usize) by {
                if j == id as int {
                    assert(self.free_list@.last() == id);
                } else {
                    assert(old_free.contains(j as usize));
                    let k = choose|k: int| 0 <= k < old_free.len() && old_free[k] == j as usize;
                    assert(self.free_list@[k] == j as usize);
                }
            }
            assert forall|k1: int, k2: int|
                0 <= k1 < k2 < self.free_list@.len() implies self.free_list@[k1]
                != self.free_list@[k2] by {
                if k2 == self.free_list@.len() - 1 {
                    assert(old(self).nodes@[self.free_list@[k1] as int] is None);
                }
            }
        }
        node.unwrap()
    }

    /// A reference to the item in slot `id`, or `None` for a freed
    /// slot. The slot index must be one this allocator has issued.
    pub fn get(&self, id: usize) -> (r: Option<&T>)
        requires
            id < self@.len(),
        ensures
            match r {
                Some(v) => self@[id as int] == Some(*v),
                None => self@[id as int] is None,
            },
    {
        self.nodes[id].as_ref()
    }

    /// A mutable reference to the item in slot `id`. The slot must be
    /// occupied; use of a freed slot is a programming error.
    pub fn get_mut(&mut self, id: usize) -> (r: &mut T)
        requires
            old(self).wf(),
            id < old(self)@.len(),
            old(self)@[id as int] is Some,
        ensures
            *r == old(self)@[id as int]->0,
            final(self)@ == old(self)@.update(id as int, Some(*final(r))),
            final(self).wf(),
    {
        proof {
            assert forall|v: Option<T>| v is Some implies count_some(
                self.nodes@.update(id as int, v),
            ) == count_some(self.nodes@) by {
                lemma_count_some_update(self.nodes@, id as int, v);
            }
        }
        let slot = &mut self.nodes[id];
        match slot {
            Some(v) => v,
            None => vstd::pervasive::unreached(),
        }
    }

    /// The number of slots ever issued, occupied or free.
    pub fn slot_count(&self) -> (r: usize)
        ensures
            r == self@.len(),
    {
        self.nodes.len()
    }

    /// The number of occupied slots.
    pub fn len(&self) -> (r: usize)
        requires
            self.wf(),
        ensures
            r == count_some(self@),
    {
        self.len
    }

    /// Whether no slot is occupied.
    pub fn is_empty(&self) -> (r: bool)
        requires
            self.wf(),
        ensures
            r == (count_some(self@) == 0),
    {
        self.len == 0
    }
}

impl<T> Default for Allocator<T> {
    /// An empty allocator with no slots.
    fn default() -> (r: Self)
        ensures
            r.wf(),
            r@.len() == 0,
    {
        Allocator { nodes: Vec::new(), free_list: Vec::new(), len: 0 }
    }
}

} // verus!
