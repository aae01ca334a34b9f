//! A slab whose handles carry a generation, so that a handle to a removed entry
//! never reaches the entry that later reuses its slot.
use crate::slab_specs::{
    slab_clone, slab_entries, slab_get, slab_insert, slab_len, slab_new, slab_next_key, slab_slots, slab_try_remove,
    slab_vacant_key,
};
use slab::Slab;
use vstd::prelude::*;

verus! {

/// A stable handle to an entry of a [`GenerationalSlab`].
#[derive(Copy, Clone, Debug, PartialEq, Eq, Structural, PartialOrd, Ord, Hash)]
pub struct NodeId {
    pub index: usize,
    pub generation: usize,
}

impl NodeId {
    /// The handle with index 0 and generation 0.
    pub fn zero() -> (id: NodeId)
        ensures
            id.index == 0,
            id.generation == 0,
    {
        NodeId { index: 0, generation: 0 }
    }
}

/// The integer key of a handle: its index in the high 64 bits, its generation in the low.
pub open spec fn node_key(id: NodeId) -> u128 {
    (id.index as int * 0x1_0000_0000_0000_0000 + id.generation as int) as u128
}

/// Two handles with the same key are the same handle.
pub proof fn lemma_node_key_injective(a: NodeId, b: NodeId)
    ensures
        node_key(a) == node_key(b) <==> a == b,
{
    assert(a.index as int * 0x1_0000_0000_0000_0000 + a.generation < 0x1_0000_0000_0000_0000_0000_0000_0000_0000)
        by (nonlinear_arith)
        requires
            a.index <= usize::MAX,
            a.generation <= usize::MAX,
            usize::MAX < 0x1_0000_0000_0000_0000,
    ;
    assert(b.index as int * 0x1_0000_0000_0000_0000 + b.generation < 0x1_0000_0000_0000_0000_0000_0000_0000_0000)
        by (nonlinear_arith)
        requires
            b.index <= usize::MAX,
            b.generation <= usize::MAX,
            usize::MAX < 0x1_0000_0000_0000_0000,
    ;
    if node_key(a) == node_key(b) {
        let ka = a.index as int * 0x1_0000_0000_0000_0000 + a.generation;
        let kb = b.index as int * 0x1_0000_0000_0000_0000 + b.generation;
        assert(ka == kb);
        assert(a.index == b.index && a.generation == b.generation) by (nonlinear_arith)
            requires
                ka == kb,
                ka == a.index as int * 0x1_0000_0000_0000_0000 + a.generation,
                kb == b.index as int * 0x1_0000_0000_0000_0000 + b.generation,
                0 <= a.generation < 0x1_0000_0000_0000_0000,
                0 <= b.generation < 0x1_0000_0000_0000_0000,
                0 <= a.index,
                0 <= b.index,
        ;
    }
}

impl NodeId {
    /// The integer key of this handle (see `node_key`).
    pub fn key(&self) -> (k: u128)
        ensures
            k == node_key(*self),
    {
        assert(self.index as int * 0x1_0000_0000_0000_0000 + self.generation < 0x1_0000_0000_0000_0000_0000_0000_0000_0000)
            by (nonlinear_arith)
            requires
                self.index <= usize::MAX,
                self.generation <= usize::MAX,
                usize::MAX < 0x1_0000_0000_0000_0000,
        ;
        (self.index as u128) * 0x1_0000_0000_0000_0000u128 + (self.generation as u128)
    }
}

impl Default for NodeId {
    fn default() -> (id: NodeId)
        ensures
            id.index == 0,
            id.generation == 0,
    {
        NodeId::zero()
    }
}

/// The generation that follows `g` in a slot (wrapping at `usize::MAX`).
pub open spec fn next_generation(g: usize) -> usize {
    if g == usize::MAX {
        0
    } else {
        (g + 1) as usize
    }
}

/// A slab of values whose handles ([`NodeId`]) carry the generation of their slot.
///
/// The slot keys come from a `slab::Slab` that records, for each occupied slot, the
/// generation it was filled with; the values sit in a vector indexed by slot.
#[derive(Debug)]
pub struct GenerationalSlab<T> {
    slab: Slab<usize>,
    values: Vec<Option<T>>,
    generations: Vec<usize>,
}

impl<T> GenerationalSlab<T> {
    /// The occupied slots, each with the generation it was filled with and its value.
    pub closed spec fn entries(&self) -> Map<usize, (usize, T)> {
        Map::new(
            |k: usize| slab_entries(self.slab).contains_key(k),
            |k: usize| (slab_entries(self.slab)[k], self.values@[k as int]->Some_0),
        )
    }

    /// The current generation of slot `i`: that of the next value stored there.
    pub closed spec fn generation(&self, i: usize) -> usize {
        if i < self.generations@.len() {
            self.generations@[i as int]
        } else {
            0
        }
    }

    /// The slot key that the next insertion uses.
    pub closed spec fn next_slot(&self) -> usize {
        slab_next_key(self.slab)
    }

    /// The number of slots ever used, live or freed.
    pub closed spec fn slots(&self) -> usize {
        slab_slots(self.slab)
    }

    /// Whether `id` designates a live entry.
    pub open spec fn is_valid(&self, id: NodeId) -> bool {
        &&& self.entries().contains_key(id.index)
        &&& self.entries()[id.index].0 == id.generation
    }

    /// The value behind a valid handle.
    pub open spec fn value(&self, id: NodeId) -> T {
        self.entries()[id.index].1
    }

    /// `after` is `self` with `value` inserted under the fresh handle `id`.
    pub open spec fn inserted(&self, after: Self, id: NodeId, value: T) -> bool {
        &&& id.index == self.next_slot()
        &&& !self.entries().contains_key(id.index)
        &&& id.generation == self.generation(id.index)
        &&& after.entries() == self.entries().insert(id.index, (id.generation, value))
        &&& forall|i: usize| after.generation(i) == self.generation(i)
    }

    /// `after` is `self` with the live entry behind `id` removed, its slot moved on to the
    /// next generation.
    pub open spec fn removed(&self, after: Self, id: NodeId) -> bool {
        &&& self.is_valid(id)
        &&& after.entries() == self.entries().remove(id.index)
        &&& after.generation(id.index) == next_generation(self.generation(id.index))
        &&& forall|i: usize| i != id.index ==> after.generation(i) == self.generation(i)
    }

    /// Internal consistency of the slab, the values and the generations.
    pub closed spec fn wf(&self) -> bool {
        &&& slab_entries(self.slab).dom().finite()
        &&& forall|k: usize|
            #[trigger] slab_entries(self.slab).contains_key(k) <==> (k < self.values@.len()
                && self.values@[k as int] is Some)
        &&& forall|k: usize| #[trigger]
            slab_entries(self.slab).contains_key(k) ==> k < self.generations@.len()
                && slab_entries(self.slab)[k] == self.generations@[k as int]
    }

    /// Every entry is stored with the current generation of its slot.
    pub proof fn lemma_entries_current(&self)
        requires
            self.wf(),
        ensures
            self.entries().dom().finite(),
            forall|k: usize| #[trigger]
                self.entries().contains_key(k) ==> self.entries()[k].0 == self.generation(k),
    {
        assert(self.entries().dom() =~= slab_entries(self.slab).dom());
    }

    /// Creates an empty slab.
    pub fn new() -> (s: Self)
        ensures
            s.wf(),
            s.entries().dom().is_empty(),
            s.next_slot() == 0,
            s.slots() == 0,
            forall|i: usize| s.generation(i) == 0,
    {
        let s = GenerationalSlab { slab: slab_new(), values: Vec::new(), generations: Vec::new() };
        assert(s.entries().dom() =~= Set::empty());
        s
    }
}


impl<T> GenerationalSlab<T> {
    /// Grows the per-slot vectors so that slot `k` has an entry in each.
    fn grow_to(&mut self, k: usize)
        requires
            old(self).wf(),
            k < usize::MAX,
        ensures
            final(self).wf(),
            final(self).slab == old(self).slab,
            k < final(self).values@.len(),
            k < final(self).generations@.len(),
            final(self).entries() == old(self).entries(),
            forall|i: usize| final(self).generation(i) == old(self).generation(i),
    {
        while self.generations.len() <= k
            invariant
                self.wf(),
                self.slab == old(self).slab,
                self.values@ == old(self).values@,
                self.generations@.len() <= k + 1 || self.generations@ == old(self).generations@,
                forall|i: usize| self.generation(i) == old(self).generation(i),
            decreases k + 1 - self.generations@.len(),
        {
            self.generations.push(0);
        }
        while self.values.len() <= k
            invariant
                self.wf(),
                self.slab == old(self).slab,
                k < self.generations@.len(),
                self.values@.len() <= k + 1 || self.values@ == old(self).values@,
                old(self).values@.len() <= self.values@.len(),
                forall|i: usize| self.generation(i) == old(self).generation(i),
                forall|j: int|
                    old(self).values@.len() <= j < self.values@.len() ==> self.values@[j] is None,
                forall|j: int|
                    0 <= j < old(self).values@.len() ==> self.values@[j] == old(self).values@[j],
            decreases k + 1 - self.values@.len(),
        {
            self.values.push(None);
        }
        assert(self.entries() =~= old(self).entries());
    }

    /// Inserts a value and returns its handle, which carries the slot's current generation.
    pub fn insert(&mut self, value: T) -> (id: NodeId)
        requires
            old(self).wf(),
        ensures
            final(self).wf(),
            id.index == old(self).next_slot(),
            !old(self).entries().contains_key(id.index),
            id.generation == old(self).generation(id.index),
            final(self).entries() == old(self).entries().insert(id.index, (id.generation, value)),
            forall|i: usize| final(self).generation(i) == old(self).generation(i),
            old(self).inserted(*final(self), id, value),
            id.index == old(self).slots() ==> final(self).next_slot() == id.index + 1 && final(self).slots() == id.index + 1,
            id.index < old(self).slots() ==> final(self).slots() == old(self).slots(),
            id.index <= old(self).slots(),
    {
        let index = slab_vacant_key(&self.slab);
        self.grow_to(index);
        let generation = self.generations[index];
        let ghost before = self.entries();
        slab_insert(&mut self.slab, generation);
        self.values.set(index, Some(value));
        assert(self.entries() =~= before.insert(index, (generation, value)));
        NodeId { index, generation }
    }

    /// The value behind `id`, if `id` designates a live entry.
    pub fn get(&self, id: NodeId) -> (r: Option<&T>)
        requires
            self.wf(),
        ensures
            r == (if self.is_valid(id) {
                Some(&self.value(id))
            } else {
                None
            }),
    {
        match slab_get(&self.slab, id.index) {
            Some(stored_generation) => {
                if stored_generation == id.generation {
                    match &self.values[id.index] {
                        Some(value) => Some(value),
                        None => None,
                    }
                } else {
                    None
                }
            },
            None => None,
        }
    }

    /// A mutable reference to the value behind `id`, if `id` designates a live entry.
    pub fn get_mut(&mut self, id: NodeId) -> (r: Option<&mut T>)
        requires
            old(self).wf(),
        ensures
            final(self).wf(),
            final(self).next_slot() == old(self).next_slot(),
            final(self).slots() == old(self).slots(),
            forall|i: usize| final(self).generation(i) == old(self).generation(i),
            r is Some <==> old(self).is_valid(id),
            r is None ==> final(self).entries() == old(self).entries(),
            r is Some ==> *r->Some_0 == old(self).value(id) && final(self).entries()
                == old(self).entries().insert(id.index, (id.generation, *final(r->Some_0))),
    {
        match slab_get(&self.slab, id.index) {
            Some(stored_generation) => {
                if stored_generation == id.generation {
                    let ghost before = self.entries();
                    let slot = &mut self.values[id.index];
                    let r = slot.as_mut();
                    proof {
                        assert(r is Some);
                    }
                    r
                } else {
                    None
                }
            },
            None => None,
        }
    }
}


impl<T> GenerationalSlab<T> {
    /// Removes the entry behind `id` if `id` is live, and moves its slot to the next
    /// generation so that `id` and every older handle to the slot stay dead.
    pub fn remove(&mut self, id: NodeId) -> (r: Option<T>)
        requires
            old(self).wf(),
        ensures
            final(self).wf(),
            r is Some <==> old(self).is_valid(id),
            r is Some ==> old(self).removed(*final(self), id),
            r is Some ==> final(self).next_slot() == id.index,
            final(self).slots() == old(self).slots(),
            r is None ==> final(self).next_slot() == old(self).next_slot(),
            r is Some ==> {
                &&& r->Some_0 == old(self).value(id)
                &&& final(self).entries() == old(self).entries().remove(id.index)
                &&& final(self).generation(id.index) == next_generation(
                    old(self).generation(id.index),
                )
                &&& forall|i: usize|
                    i != id.index ==> final(self).generation(i) == old(self).generation(i)
            },
            r is None ==> {
                &&& final(self).entries() == old(self).entries()
                &&& forall|i: usize| final(self).generation(i) == old(self).generation(i)
            },
    {
        if let Some(stored_generation) = slab_get(&self.slab, id.index) {
            if stored_generation == id.generation {
                let ghost before = self.entries();
                let next = self.generations[id.index].wrapping_add(1);
                self.generations.set(id.index, next);
                slab_try_remove(&mut self.slab, id.index);
                let mut taken: Option<T> = None;
                std::mem::swap(&mut taken, &mut self.values[id.index]);
                assert(self.entries() =~= before.remove(id.index));
                return taken;
            }
        }
        None
    }

    /// The number of live entries.
    pub fn len(&self) -> (n: usize)
        requires
            self.wf(),
        ensures
            n == self.entries().len(),
    {
        proof {
            assert(self.entries().dom() =~= slab_entries(self.slab).dom());
        }
        slab_len(&self.slab)
    }

    /// Whether no entry is live.
    pub fn is_empty(&self) -> (b: bool)
        requires
            self.wf(),
        ensures
            b == (self.entries().len() == 0),
    {
        self.len() == 0
    }

    /// All live entries with their handles, in increasing slot order.
    pub fn iter(&self) -> (r: Vec<(NodeId, &T)>)
        requires
            self.wf(),
        ensures
            forall|j: int|
                0 <= j < r@.len() ==> self.is_valid(#[trigger] r@[j].0) && *r@[j].1 == self.value(
                    r@[j].0,
                ),
            forall|j: int, l: int| 0 <= j < l < r@.len() ==> r@[j].0.index < r@[l].0.index,
            forall|id: NodeId|
                #[trigger] self.is_valid(id) ==> exists|j: int| 0 <= j < r@.len() && r@[j].0 == id,
    {
        let mut r: Vec<(NodeId, &T)> = Vec::new();
        let mut i: usize = 0;
        while i < self.values.len()
            invariant
                self.wf(),
                i <= self.values@.len(),
                forall|j: int|
                    0 <= j < r@.len() ==> self.is_valid(#[trigger] r@[j].0) && *r@[j].1
                        == self.value(r@[j].0) && r@[j].0.index < i,
                forall|j: int, l: int| 0 <= j < l < r@.len() ==> r@[j].0.index < r@[l].0.index,
                forall|id: NodeId|
                    #[trigger] self.is_valid(id) && id.index < i ==> exists|j: int|
                        0 <= j < r@.len() && r@[j].0 == id,
            decreases self.values@.len() - i,
        {
            let ghost old_r = r@;
            if let Some(value) = &self.values[i] {
                assert(slab_entries(self.slab).contains_key(i));
                let generation = self.generations[i];
                let id = NodeId { index: i, generation };
                r.push((id, value));
                assert(r@[r@.len() - 1].0 == id);
                assert forall|id2: NodeId|
                    #[trigger] self.is_valid(id2) && id2.index < i + 1 implies exists|j: int|
                        0 <= j < r@.len() && r@[j].0 == id2 by {
                    if id2.index < i {
                        let j = choose|j: int| 0 <= j < old_r.len() && old_r[j].0 == id2;
                        assert(r@[j] == old_r[j]);
                    } else {
                        assert(id2 == id);
                    }
                }
            } else {
                assert(!slab_entries(self.slab).contains_key(i));
            }
            i = i + 1;
        }
        r
    }
}

impl<T: Clone> Clone for GenerationalSlab<T> {
    /// A slab with the same slots, generations and cloned values.
    fn clone(&self) -> (c: Self)
        ensures
            self.wf() ==> c.wf(),
            c.entries().dom() == self.entries().dom(),
            forall|k: usize| #[trigger]
                c.entries().contains_key(k) ==> c.entries()[k].0 == self.entries()[k].0,
            forall|i: usize| c.generation(i) == self.generation(i),
            c.next_slot() == self.next_slot(),
    {
        let values = self.values.clone();
        let c = GenerationalSlab {
            slab: slab_clone(&self.slab),
            values,
            generations: self.generations.clone(),
        };
        proof {
            assert(c.generations@ =~= self.generations@);
            assert forall|k: int| 0 <= k < c.values@.len() implies (c.values@[k] is Some
                <==> self.values@[k] is Some) by {
                assert(cloned::<Option<T>>(self.values@[k], c.values@[k]));
            }
            assert(c.entries().dom() =~= self.entries().dom());
        }
        c
    }
}

impl<T> Default for GenerationalSlab<T> {
    /// An empty slab.
    fn default() -> (s: Self)
        ensures
            s.wf(),
            s.entries().dom().is_empty(),
            forall|i: usize| s.generation(i) == 0,
    {
        GenerationalSlab::new()
    }
}


/// A reserved slot of a [`GenerationalSlab`], with the handle that a value stored in it gets.
pub struct VacantEntry<'a, T> {
    /// The slab the slot is reserved in.
    pub slab: &'a mut GenerationalSlab<T>,
    /// The handle that the stored value gets.
    pub key: NodeId,
}

impl<'a, T> VacantEntry<'a, T> {
    /// The reserved slot is the slab's next one and carries that slot's generation.
    pub open spec fn inv(&self) -> bool {
        &&& self.slab.wf()
        &&& self.key.index == self.slab.next_slot()
        &&& self.key.index <= self.slab.slots()
        &&& self.key.index < usize::MAX
        &&& !self.slab.entries().contains_key(self.key.index)
        &&& self.key.generation == self.slab.generation(self.key.index)
    }

    /// Stores `val` in the reserved slot and returns a reference to it.
    pub fn insert(self, val: T) -> (r: &'a mut T)
        requires
            self.inv(),
        ensures
            *r == val,
            final(self.slab).wf(),
            final(self.slab).entries() == old(self.slab).entries().insert(
                self.key.index,
                (self.key.generation, *final(r)),
            ),
            forall|i: usize| final(self.slab).generation(i) == old(self.slab).generation(i),
            self.key.index == old(self.slab).slots() ==> final(self.slab).next_slot() == self.key.index + 1
                && final(self.slab).slots() == self.key.index + 1,
            self.key.index < old(self.slab).slots() ==> final(self.slab).slots() == old(self.slab).slots(),
    {
        let slab = self.slab;
        let index = self.key.index;
        slab.grow_to(index);
        let ghost before = slab.entries();
        slab_insert(&mut slab.slab, self.key.generation);
        let slot = &mut slab.values[index];
        let r = slot.insert(val);
        r
    }

    /// The handle that a value stored in this entry gets.
    pub fn key(&self) -> (k: NodeId)
        ensures
            k == self.key,
    {
        self.key
    }
}

impl<T> GenerationalSlab<T> {
    /// Reserves the next slot; the entry knows the handle its value will get.
    pub fn vacant_entry(&mut self) -> (e: VacantEntry<'_, T>)
        requires
            old(self).wf(),
        ensures
            e.inv(),
            e.key.index == old(self).next_slot(),
            e.key.generation == old(self).generation(old(self).next_slot()),
            e.slab.entries() == old(self).entries(),
            e.slab.next_slot() == old(self).next_slot(),
            e.slab.slots() == old(self).slots(),
            forall|i: usize| e.slab.generation(i) == old(self).generation(i),
            *final(self) == *final(e.slab),
    {
        let index = slab_vacant_key(&self.slab);
        self.grow_to(index);
        let generation = self.generations[index];
        VacantEntry { slab: self, key: NodeId { index, generation } }
    }
}

/// What an insertion stores, a read through its handle gives back; and every other live
/// handle keeps reaching its value.
pub proof fn law_get_after_insert<T>(before: GenerationalSlab<T>, after: GenerationalSlab<T>, id: NodeId, value: T, other: NodeId)
    requires
        before.wf(),
        before.inserted(after, id, value),
    ensures
        after.is_valid(id),
        after.value(id) == value,
        before.is_valid(other) ==> after.is_valid(other) && after.value(other) == before.value(other) && other != id,
{
}

/// A handle to a removed entry reaches nothing, not even the entry that next reuses its
/// slot: the reused slot carries another generation.
pub proof fn law_stale_handle_after_reuse<T>(
    s0: GenerationalSlab<T>,
    s1: GenerationalSlab<T>,
    s2: GenerationalSlab<T>,
    id: NodeId,
    new_id: NodeId,
    value: T,
)
    requires
        s0.wf(),
        s0.removed(s1, id),
        s1.inserted(s2, new_id, value),
    ensures
        !s1.is_valid(id),
        !s2.is_valid(id),
        new_id != id,
{
    s0.lemma_entries_current();
}

} // verus!
