//! The concurrent maps that link voice sources, users and channels.
//!
//! `DashMap` changes through a shared reference. Here every change takes the map
//! exclusively, so that what it holds is a function of what was done to it.

use dashmap::DashMap;
use vstd::prelude::*;

verus! {

/// `dashmap::DashMap`, whose inside stays hidden.
#[verifier::external_type_specification]
#[verifier::external_body]
#[verifier::reject_recursive_types(K)]
#[verifier::reject_recursive_types(V)]
#[verifier::reject_recursive_types(S)]
pub struct ExDashMap<K, V, S>(DashMap<K, V, S>);

/// What a map from sources holds.
pub uninterp spec fn by_source(map: DashMap<u32, u64>) -> Map<u32, u64>;

/// What a map from users holds.
pub uninterp spec fn by_user(map: DashMap<u64, u32>) -> Map<u64, u32>;

/// `DashMap::new`: a new map from sources is empty.
#[verifier::external_body]
pub(crate) fn source_map() -> (r: DashMap<u32, u64>)
    ensures
        by_source(r) == (Map::<u32, u64>::empty()),
{
    DashMap::new()
}

/// `DashMap::insert`: afterwards the key has the value, whatever it had before, and
/// the value that it had before comes back.
#[verifier::external_body]
pub(crate) fn source_insert(map: &mut DashMap<u32, u64>, key: u32, value: u64) -> (r: Option<u64>)
    ensures
        by_source(*final(map)) == by_source(*old(map)).insert(key, value),
        r == by_source(*old(map)).get(key),
{
    map.insert(key, value)
}

/// `DashMap::get`: the value of the key, where it has one.
#[verifier::external_body]
pub(crate) fn source_get(map: &DashMap<u32, u64>, key: u32) -> (r: Option<u64>)
    ensures
        r == by_source(*map).get(key),
{
    map.get(&key).map(|pair| *pair.value())
}

/// `DashMap::contains_key`: whether the key has a value.
#[verifier::external_body]
pub(crate) fn source_contains(map: &DashMap<u32, u64>, key: u32) -> (r: bool)
    ensures
        r == by_source(*map).contains_key(key),
{
    map.contains_key(&key)
}

/// `DashMap::remove`: afterwards the key has no value, and the value that it had
/// comes back.
#[verifier::external_body]
pub(crate) fn source_remove(map: &mut DashMap<u32, u64>, key: u32) -> (r: Option<u64>)
    ensures
        by_source(*final(map)) == by_source(*old(map)).remove(key),
        r == by_source(*old(map)).get(key),
{
    map.remove(&key).map(|pair| pair.1)
}

/// `DashMap::iter`: every key of the map with its value, each key once, in an order
/// that is left open.
#[verifier::external_body]
pub(crate) fn source_entries(map: &DashMap<u32, u64>) -> (r: Vec<(u32, u64)>)
    ensures
        forall|i: int| 0 <= i < r@.len() ==> by_source(*map).contains_pair((#[trigger] r@[i]).0, r@[i].1),
        forall|i: int, j: int| 0 <= i < j < r@.len() ==> (#[trigger] r@[i]).0 != (#[trigger] r@[j]).0,
        forall|key: u32| #[trigger]
            by_source(*map).contains_key(key) ==> r@.contains((key, by_source(*map)[key])),
{
    map.iter().map(|pair| (*pair.key(), *pair.value())).collect()
}

/// `DashMap::new`: a new map from users is empty.
#[verifier::external_body]
pub(crate) fn user_map() -> (r: DashMap<u64, u32>)
    ensures
        by_user(r) == (Map::<u64, u32>::empty()),
{
    DashMap::new()
}

/// `DashMap::insert` on a map from users.
#[verifier::external_body]
pub(crate) fn user_insert(map: &mut DashMap<u64, u32>, key: u64, value: u32) -> (r: Option<u32>)
    ensures
        by_user(*final(map)) == by_user(*old(map)).insert(key, value),
        r == by_user(*old(map)).get(key),
{
    map.insert(key, value)
}

/// `DashMap::get` on a map from users.
#[verifier::external_body]
pub(crate) fn user_get(map: &DashMap<u64, u32>, key: u64) -> (r: Option<u32>)
    ensures
        r == by_user(*map).get(key),
{
    map.get(&key).map(|pair| *pair.value())
}

/// `DashMap::remove` on a map from users.
#[verifier::external_body]
pub(crate) fn user_remove(map: &mut DashMap<u64, u32>, key: u64) -> (r: Option<u32>)
    ensures
        by_user(*final(map)) == by_user(*old(map)).remove(key),
        r == by_user(*old(map)).get(key),
{
    map.remove(&key).map(|pair| pair.1)
}

} // verus!
