//! The concurrent hash maps in which sockets and connections are found, with
//! what is relied on of `dashmap::DashMap`. Every operation here takes the map
//! by `&mut` where it changes it, so no other thread is at it meanwhile.

use dashmap::DashMap;
use vstd::prelude::*;

verus! {

/// `dashmap::DashMap`.
#[verifier::external_type_specification]
#[verifier::external_body]
#[verifier::reject_recursive_types(K)]
#[verifier::reject_recursive_types(V)]
#[verifier::reject_recursive_types(S)]
pub struct ExDashMap<K, V, S>(DashMap<K, V, S>);

/// What a map from numbers to numbers holds.
pub uninterp spec fn id_table(map: DashMap<u64, u64>) -> Map<u64, u64>;

/// What a map from serial numbers to numbers holds.
pub uninterp spec fn serial_table(map: DashMap<String, u64>) -> Map<Seq<char>, u64>;

/// `DashMap::new` gives a map that holds nothing.
#[verifier::external_body]
pub(crate) fn new_id_table() -> (map: DashMap<u64, u64>)
    ensures
        id_table(map) == (Map::<u64, u64>::empty()),
{
    DashMap::new()
}

/// `DashMap::insert` puts the value under the key, in place of one that was
/// there.
#[verifier::external_body]
pub(crate) fn id_insert(map: &mut DashMap<u64, u64>, key: u64, value: u64)
    ensures
        id_table(*final(map)) == id_table(*old(map)).insert(key, value),
{
    map.insert(key, value);
}

/// `DashMap::get` gives the value under the key, if there is one.
#[verifier::external_body]
pub(crate) fn id_get(map: &DashMap<u64, u64>, key: u64) -> (value: Option<u64>)
    ensures
        match value {
            Some(v) => id_table(*map).contains_pair(key, v),
            None => !id_table(*map).contains_key(key),
        },
{
    map.get(&key).map(|entry| *entry)
}

/// `DashMap::remove` takes out the key and its value, if it is there.
#[verifier::external_body]
pub(crate) fn id_remove(map: &mut DashMap<u64, u64>, key: u64)
    ensures
        id_table(*final(map)) == id_table(*old(map)).remove(key),
{
    map.remove(&key);
}

/// `DashMap::retain` with a condition that never holds leaves nothing.
#[verifier::external_body]
pub(crate) fn id_retain_none(map: &mut DashMap<u64, u64>)
    ensures
        id_table(*final(map)) == (Map::<u64, u64>::empty()),
{
    map.retain(|_, _| false);
}

/// `DashMap::new` gives a map that holds nothing.
#[verifier::external_body]
pub(crate) fn new_serial_table() -> (map: DashMap<String, u64>)
    ensures
        serial_table(map) == (Map::<Seq<char>, u64>::empty()),
{
    DashMap::new()
}

/// `DashMap::insert` puts the value under the key, in place of one that was
/// there.
#[verifier::external_body]
pub(crate) fn serial_insert(map: &mut DashMap<String, u64>, key: String, value: u64)
    ensures
        serial_table(*final(map)) == serial_table(*old(map)).insert(key@, value),
{
    map.insert(key, value);
}

/// `DashMap::get` gives the value under the key, if there is one.
#[verifier::external_body]
pub(crate) fn serial_get(map: &DashMap<String, u64>, key: &str) -> (value: Option<u64>)
    ensures
        match value {
            Some(v) => serial_table(*map).contains_pair(key@, v),
            None => !serial_table(*map).contains_key(key@),
        },
{
    map.get(key).map(|entry| *entry)
}

/// `DashMap::contains_key` says whether there is a value under the key.
#[verifier::external_body]
pub(crate) fn serial_contains(map: &DashMap<String, u64>, key: &str) -> (found: bool)
    ensures
        found == serial_table(*map).contains_key(key@),
{
    map.contains_key(key)
}

/// `DashMap::remove` takes out the key and its value, if it is there.
#[verifier::external_body]
pub(crate) fn serial_remove(map: &mut DashMap<String, u64>, key: &str)
    ensures
        serial_table(*final(map)) == serial_table(*old(map)).remove(key@),
{
    map.remove(key);
}

/// Whether `walk` goes over every entry of `table` once, in some order.
pub open spec fn walks(walk: Seq<(String, u64)>, table: Map<Seq<char>, u64>) -> bool {
    &&& forall|i: int|
        0 <= i < walk.len() ==> table.contains_pair((#[trigger] walk[i]).0@, walk[i].1)
    &&& forall|i: int, j: int|
        0 <= i < j < walk.len() ==> (#[trigger] walk[i]).0@ != (#[trigger] walk[j]).0@
    &&& forall|key: Seq<char>| #[trigger]
        table.contains_key(key) ==> exists|i: int|
            0 <= i < walk.len() && (#[trigger] walk[i]).0@ == key
}

/// `DashMap::iter` walks over every entry once, in an order that is left open.
#[verifier::external_body]
pub(crate) fn serial_entries(map: &DashMap<String, u64>) -> (walk: Vec<(String, u64)>)
    ensures
        walks(walk@, serial_table(*map)),
{
    map.iter().map(|entry| (entry.key().clone(), *entry.value())).collect()
}

} // verus!
