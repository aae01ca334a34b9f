//! Trusted declarations for the `slab` crate's `Slab`, holding slot generations.
use slab::Slab;
use vstd::prelude::*;

verus! {

/// Declares `slab::Slab` so that it can stand in fields and signatures.
#[verifier::external_type_specification]
#[verifier::external_body]
#[verifier::reject_recursive_types(T)]
pub struct ExSlab<T>(Slab<T>);

/// What a slab of generations holds: the occupied keys and the value at each.
pub uninterp spec fn slab_entries(s: Slab<usize>) -> Map<usize, usize>;

/// The key that the slab hands out on its next insertion (`Slab::vacant_key`).
pub uninterp spec fn slab_next_key(s: Slab<usize>) -> usize;

/// The number of slots of the slab's entry vector, occupied or vacant.
pub uninterp spec fn slab_slots(s: Slab<usize>) -> usize;

/// `Slab::new`: a slab with no occupied key and no slot.
#[verifier::external_body]
pub(crate) fn slab_new() -> (fresh: Slab<usize>)
    ensures
        slab_entries(fresh).dom().is_empty(),
        slab_next_key(fresh) == 0,
        slab_slots(fresh) == 0,
{
    Slab::new()
}

/// `Slab::vacant_key`: the key the next insertion uses; it is never occupied, and it
/// is an index of the slab's backing vector or its length, so it is below `usize::MAX`.
#[verifier::external_body]
pub(crate) fn slab_vacant_key(s: &Slab<usize>) -> (k: usize)
    ensures
        k == slab_next_key(*s),
        !slab_entries(*s).contains_key(k),
        k < usize::MAX,
        k <= slab_slots(*s),
{
    s.vacant_key()
}

/// `Slab::insert`: stores `val` at the vacant key and returns that key. When that key is
/// the slot count, a slot is added and the next key is the one after it; otherwise the
/// slot was vacant and the slot count stays.
#[verifier::external_body]
pub(crate) fn slab_insert(s: &mut Slab<usize>, val: usize) -> (k: usize)
    ensures
        k == slab_next_key(*old(s)),
        !slab_entries(*old(s)).contains_key(k),
        slab_entries(*final(s)) == slab_entries(*old(s)).insert(k, val),
        k == slab_slots(*old(s)) ==> slab_next_key(*final(s)) == k + 1 && slab_slots(*final(s)) == k + 1,
        k < slab_slots(*old(s)) ==> slab_slots(*final(s)) == slab_slots(*old(s)),
{
    s.insert(val)
}

/// `Slab::get` (copied): the value at `key`, if `key` is occupied.
#[verifier::external_body]
pub(crate) fn slab_get(s: &Slab<usize>, key: usize) -> (r: Option<usize>)
    ensures
        r == (if slab_entries(*s).contains_key(key) {
            Some(slab_entries(*s)[key])
        } else {
            None
        }),
{
    s.get(key).copied()
}

/// `Slab::try_remove`: removes and returns the value at `key`, if occupied; the freed key
/// is the next one handed out. A vacant or absent key leaves the slab as it was.
#[verifier::external_body]
pub(crate) fn slab_try_remove(s: &mut Slab<usize>, key: usize) -> (r: Option<usize>)
    ensures
        r == (if slab_entries(*old(s)).contains_key(key) {
            Some(slab_entries(*old(s))[key])
        } else {
            None
        }),
        slab_entries(*final(s)) == slab_entries(*old(s)).remove(key),
        slab_slots(*final(s)) == slab_slots(*old(s)),
        slab_next_key(*final(s)) == (if slab_entries(*old(s)).contains_key(key) {
            key
        } else {
            slab_next_key(*old(s))
        }),
{
    s.try_remove(key)
}

/// `Slab::clone` (for `usize` values): a slab with the same entries, next key and slots.
#[verifier::external_body]
pub(crate) fn slab_clone(s: &Slab<usize>) -> (copy: Slab<usize>)
    ensures
        slab_entries(copy) == slab_entries(*s),
        slab_next_key(copy) == slab_next_key(*s),
        slab_slots(copy) == slab_slots(*s),
{
    s.clone()
}

/// `Slab::len`: the number of occupied keys.
#[verifier::external_body]
pub(crate) fn slab_len(s: &Slab<usize>) -> (n: usize)
    ensures
        n == slab_entries(*s).len(),
{
    s.len()
}

/// What a slab of entity handles (`Entity::to_bits`) holds: the occupied keys and the
/// entity at each.
pub uninterp spec fn entity_slab_entries(s: Slab<u64>) -> Map<usize, u64>;

/// `Slab::new` (for entity handles): a slab with no occupied key.
#[verifier::external_body]
pub(crate) fn entity_slab_new() -> (fresh: Slab<u64>)
    ensures
        entity_slab_entries(fresh).dom().is_empty(),
{
    Slab::new()
}

/// `Slab::insert` (for entity handles): stores `val` at a key that was vacant, and returns
/// the key.
#[verifier::external_body]
pub(crate) fn entity_slab_insert(s: &mut Slab<u64>, val: u64) -> (k: usize)
    ensures
        !entity_slab_entries(*old(s)).contains_key(k),
        entity_slab_entries(*final(s)) == entity_slab_entries(*old(s)).insert(k, val),
{
    s.insert(val)
}

/// `Slab::try_remove` (for entity handles): removes and returns the value at `key`, if
/// occupied.
#[verifier::external_body]
pub(crate) fn entity_slab_try_remove(s: &mut Slab<u64>, key: usize) -> (r: Option<u64>)
    ensures
        r == (if entity_slab_entries(*old(s)).contains_key(key) {
            Some(entity_slab_entries(*old(s))[key])
        } else {
            None
        }),
        entity_slab_entries(*final(s)) == entity_slab_entries(*old(s)).remove(key),
{
    s.try_remove(key)
}

/// `Slab::len` (for entity handles): the number of occupied keys.
#[verifier::external_body]
pub(crate) fn entity_slab_len(s: &Slab<u64>) -> (n: usize)
    ensures
        n == entity_slab_entries(*s).len(),
{
    s.len()
}

} // verus!
