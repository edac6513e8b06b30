//! The names of entries, in the order in which they were added.

use indexmap::IndexMap;
use std::collections::VecDeque;
use vstd::prelude::*;

verus! {

/// `indexmap::IndexMap`, whose contents only the functions of this module speak of.
#[verifier::external_type_specification]
#[verifier::external_body]
#[verifier::reject_recursive_types(K)]
#[verifier::reject_recursive_types(V)]
#[verifier::reject_recursive_types(S)]
pub struct ExIndexMap<K, V, S>(indexmap::IndexMap<K, V, S>);

/// The keys of a map, in order.
pub uninterp spec fn map_entries(map: IndexMap<String, ()>) -> Seq<Seq<char>>;

/// Creates a map by `IndexMap::new`, which has no entries.
#[verifier::external_body]
pub(crate) fn map_new() -> (map: IndexMap<String, ()>)
    ensures
        map_entries(map) == Seq::<Seq<char>>::empty(),
{
    IndexMap::new()
}

/// Asks by `IndexMap::contains_key` whether some entry has this key.
#[verifier::external_body]
pub(crate) fn map_contains_key(map: &IndexMap<String, ()>, key: &str) -> (found: bool)
    ensures
        found == map_entries(*map).contains(key@),
{
    map.contains_key(key)
}

/// Adds an entry by `IndexMap::insert`, which puts one whose key is new last in order.
#[verifier::external_body]
pub(crate) fn map_insert(map: &mut IndexMap<String, ()>, key: String)
    requires
        !map_entries(*old(map)).contains(key@),
    ensures
        map_entries(*final(map)) == map_entries(*old(map)).push(key@),
{
    map.insert(key, ());
}

/// Removes an entry by `IndexMap::shift_remove_full`, which gives its place, if there is one with
/// this key, and keeps the others in order.
#[verifier::external_body]
pub(crate) fn map_remove(map: &mut IndexMap<String, ()>, key: &str) -> (place: Option<usize>)
    ensures
        match place {
            Some(i) => {
                &&& i < map_entries(*old(map)).len()
                &&& map_entries(*old(map))[i as int] == key@
                &&& map_entries(*final(map)) == map_entries(*old(map)).remove(i as int)
            },
            None => {
                &&& !map_entries(*old(map)).contains(key@)
                &&& map_entries(*final(map)) == map_entries(*old(map))
            },
        },
{
    map.shift_remove_full(key).map(|(place, _, _)| place)
}

/// Exchanges the places of two entries by `IndexMap::swap_indices`, which panics if one of them does
/// not exist.
#[verifier::external_body]
pub(crate) fn map_swap(map: &mut IndexMap<String, ()>, a: usize, b: usize)
    requires
        a < map_entries(*old(map)).len(),
        b < map_entries(*old(map)).len(),
    ensures
        map_entries(*final(map)) == map_entries(*old(map)).update(
            a as int,
            map_entries(*old(map))[b as int],
        ).update(b as int, map_entries(*old(map))[a as int]),
{
    map.swap_indices(a, b);
}

/// Copies a map by `IndexMap::clone`, which keeps the entries and their order.
#[verifier::external_body]
pub(crate) fn map_clone(map: &IndexMap<String, ()>) -> (copy: IndexMap<String, ()>)
    ensures
        map_entries(copy) == map_entries(*map),
{
    map.clone()
}

/// Lists the keys by `IndexMap::keys`, which gives them in order.
#[verifier::external_body]
pub(crate) fn map_keys(map: &IndexMap<String, ()>) -> (keys: Vec<&String>)
    ensures
        keys@.len() == map_entries(*map).len(),
        forall|i: int|
            0 <= i < keys@.len() ==> (#[trigger] keys@[i])@ == map_entries(*map)[i],
{
    map.keys().collect()
}

/// Takes out the keys by `IndexMap::into_keys`, which gives them in order.
#[verifier::external_body]
pub(crate) fn map_into_keys(map: IndexMap<String, ()>) -> (keys: VecDeque<String>)
    ensures
        keys@.len() == map_entries(map).len(),
        forall|i: int| 0 <= i < keys@.len() ==> (#[trigger] keys@[i])@ == map_entries(map)[i],
{
    map.into_keys().collect()
}

} // verus!
