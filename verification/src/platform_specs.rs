//! Trusted declarations for the hash collections of `bevy_platform`, with integer keys.
use bevy_platform::collections::{HashMap, HashSet};
use bevy_platform::hash::FixedHasher;
use vstd::prelude::*;

verus! {

/// Declares `bevy_platform::hash::FixedHasher`, the collections' default hasher.
#[verifier::external_type_specification]
#[verifier::external_body]
pub struct ExFixedHasher(FixedHasher);

/// Declares `bevy_platform::collections::HashSet` so that it can stand in fields and
/// signatures.
#[verifier::external_type_specification]
#[verifier::external_body]
#[verifier::reject_recursive_types(T)]
#[verifier::reject_recursive_types(S)]
pub struct ExPlatformHashSet<T, S>(HashSet<T, S>);

/// Declares `bevy_platform::collections::HashMap` so that it can stand in fields and
/// signatures.
#[verifier::external_type_specification]
#[verifier::external_body]
#[verifier::reject_recursive_types(K)]
#[verifier::reject_recursive_types(V)]
#[verifier::reject_recursive_types(S)]
pub struct ExPlatformHashMap<K, V, S>(HashMap<K, V, S>);

/// What a set of classifications holds.
pub uninterp spec fn class_set(s: HashSet<u8>) -> Set<u8>;

/// What a set of asset keys holds.
pub uninterp spec fn asset_set(s: HashSet<u128>) -> Set<u128>;

/// What a map from entity bits to indices holds.
pub uninterp spec fn index_map(m: HashMap<u64, usize>) -> Map<u64, usize>;

/// `HashSet::new`: an empty set.
#[verifier::external_body]
pub(crate) fn class_set_new() -> (s: HashSet<u8>)
    ensures
        class_set(s) == Set::<u8>::empty(),
{
    HashSet::new()
}

/// `HashSet::insert`: adds `value`; returns whether it was absent.
#[verifier::external_body]
pub(crate) fn class_set_insert(s: &mut HashSet<u8>, value: u8) -> (added: bool)
    ensures
        added == !class_set(*old(s)).contains(value),
        class_set(*final(s)) == class_set(*old(s)).insert(value),
{
    s.insert(value)
}

/// `HashSet::contains`: whether `value` is in the set.
#[verifier::external_body]
pub(crate) fn class_set_contains(s: &HashSet<u8>, value: u8) -> (b: bool)
    ensures
        b == class_set(*s).contains(value),
{
    s.contains(&value)
}

/// `HashSet::new`: an empty set of asset keys.
#[verifier::external_body]
pub(crate) fn asset_set_new() -> (s: HashSet<u128>)
    ensures
        asset_set(s) == Set::<u128>::empty(),
{
    HashSet::new()
}

/// `HashSet::insert`: adds `value`; returns whether it was absent.
#[verifier::external_body]
pub(crate) fn asset_set_insert(s: &mut HashSet<u128>, value: u128) -> (added: bool)
    ensures
        added == !asset_set(*old(s)).contains(value),
        asset_set(*final(s)) == asset_set(*old(s)).insert(value),
{
    s.insert(value)
}

/// `HashSet::remove`: removes `value`; returns whether it was present.
#[verifier::external_body]
pub(crate) fn asset_set_remove(s: &mut HashSet<u128>, value: u128) -> (removed: bool)
    ensures
        removed == asset_set(*old(s)).contains(value),
        asset_set(*final(s)) == asset_set(*old(s)).remove(value),
{
    s.remove(&value)
}

/// `HashSet::contains`: whether `value` is in the set.
#[verifier::external_body]
pub(crate) fn asset_set_contains(s: &HashSet<u128>, value: u128) -> (b: bool)
    ensures
        b == asset_set(*s).contains(value),
{
    s.contains(&value)
}

/// `HashMap::new`: an empty map.
#[verifier::external_body]
pub(crate) fn index_map_new() -> (m: HashMap<u64, usize>)
    ensures
        index_map(m).dom().is_empty(),
{
    HashMap::new()
}

/// `HashMap::get` (copied): the value at `key`, if any.
#[verifier::external_body]
pub(crate) fn index_map_get(m: &HashMap<u64, usize>, key: u64) -> (r: Option<usize>)
    ensures
        r == (if index_map(*m).contains_key(key) {
            Some(index_map(*m)[key])
        } else {
            None
        }),
{
    m.get(&key).copied()
}

/// `HashMap::insert`: maps `key` to `value`; returns the value it replaced, if any.
#[verifier::external_body]
pub(crate) fn index_map_insert(m: &mut HashMap<u64, usize>, key: u64, value: usize) -> (r: Option<usize>)
    ensures
        r == (if index_map(*old(m)).contains_key(key) {
            Some(index_map(*old(m))[key])
        } else {
            None
        }),
        index_map(*final(m)) == index_map(*old(m)).insert(key, value),
{
    m.insert(key, value)
}

/// `HashMap::remove`: removes `key`; returns its value, if any.
#[verifier::external_body]
pub(crate) fn index_map_remove(m: &mut HashMap<u64, usize>, key: u64) -> (r: Option<usize>)
    ensures
        r == (if index_map(*old(m)).contains_key(key) {
            Some(index_map(*old(m))[key])
        } else {
            None
        }),
        index_map(*final(m)) == index_map(*old(m)).remove(key),
{
    m.remove(&key)
}

} // verus!
