//! The concurrent map that files chunks and counts by chunk coordinate.

use dashmap::{DashMap, Entry};
use num_traits::Zero;
use vstd::prelude::*;

verus! {

/// `dashmap::DashMap`.
#[verifier::external_type_specification]
#[verifier::external_body]
#[verifier::reject_recursive_types(K)]
#[verifier::reject_recursive_types(V)]
#[verifier::reject_recursive_types(S)]
pub struct ExDashMap<K, V, S>(dashmap::DashMap<K, V, S>);

/// A map from chunk coordinates to a number.
pub type Cells = DashMap<(i32, i32), usize>;

/// What a `DashMap` holds.
pub uninterp spec fn cells(map: DashMap<(i32, i32), usize>) -> Map<(i32, i32), usize>;

/// Nothing filed at all.
pub open spec fn no_cells() -> Map<(i32, i32), usize> {
    Map::empty()
}

/// `DashMap::new`: a map that holds nothing.
#[verifier::external_body]
pub(crate) fn new_cells() -> (map: Cells)
    ensures
        cells(map) == no_cells(),
{
    DashMap::new()
}

/// `DashMap::get`: the value filed under `key`, if there is one.
#[verifier::external_body]
pub(crate) fn get_cell(map: &Cells, key: (i32, i32)) -> (value: Option<usize>)
    ensures
        value == cells(*map).get(key),
{
    map.get(&key).map(|found| *found.value())
}

/// `DashMap::try_get`, then `TryResult::try_unwrap`: the value filed under `key`, if there is
/// one. No guard of the map outlives a call of this module and every change needs the map
/// exclusively, so that no shard is ever found locked.
#[verifier::external_body]
pub(crate) fn try_get_cell(map: &Cells, key: (i32, i32)) -> (value: Option<usize>)
    ensures
        value == cells(*map).get(key),
{
    map.try_get(&key).try_unwrap().map(|found| *found.value())
}

/// `DashMap::insert`: files `value` under `key`, in place of what was there.
#[verifier::external_body]
pub(crate) fn insert_cell(map: &mut Cells, key: (i32, i32), value: usize) -> (replaced: Option<usize>)
    ensures
        cells(*final(map)) == cells(*old(map)).insert(key, value),
        replaced == cells(*old(map)).get(key),
{
    map.insert(key, value)
}

/// `DashMap::entry`, then `Entry::or_insert`: files `value` under `key` unless something is
/// filed there already, and returns what is filed there now.
#[verifier::external_body]
pub(crate) fn or_insert_cell(map: &mut Cells, key: (i32, i32), value: usize) -> (kept: usize)
    ensures
        cells(*old(map)).contains_key(key) ==> {
            &&& cells(*final(map)) == cells(*old(map))
            &&& kept == cells(*old(map))[key]
        },
        !cells(*old(map)).contains_key(key) ==> {
            &&& cells(*final(map)) == cells(*old(map)).insert(key, value)
            &&& kept == value
        },
{
    *map.entry(key).or_insert(value).value()
}

/// `DashMap::entry`, then `OccupiedEntry::get_mut`: changes the value filed under `key` to
/// `value`. Where nothing is filed there, nothing changes.
#[verifier::external_body]
pub(crate) fn set_occupied(map: &mut Cells, key: (i32, i32), value: usize)
    ensures
        cells(*final(map)) == (if cells(*old(map)).contains_key(key) {
            cells(*old(map)).insert(key, value)
        } else {
            cells(*old(map))
        }),
{
    match map.entry(key) {
        Entry::Occupied(mut occupied) => *occupied.get_mut() = value,
        Entry::Vacant(_) => {}
    }
}

/// `DashMap::entry`, then `OccupiedEntry::remove_entry`: takes out what is filed under `key`.
/// Where nothing is filed there, nothing changes.
#[verifier::external_body]
pub(crate) fn remove_occupied(map: &mut Cells, key: (i32, i32))
    ensures
        cells(*final(map)) == cells(*old(map)).remove(key),
{
    match map.entry(key) {
        Entry::Occupied(occupied) => {
            occupied.remove_entry();
        }
        Entry::Vacant(_) => {}
    }
}

/// `DashMap::remove_if`, with a condition that does not look at the entry: takes out what is
/// filed under `key` if `condition` holds, and returns it.
#[verifier::external_body]
pub(crate) fn remove_cell_if(map: &mut Cells, key: (i32, i32), condition: bool) -> (removed: Option<
    ((i32, i32), usize),
>)
    ensures
        condition && cells(*old(map)).contains_key(key) ==> {
            &&& cells(*final(map)) == cells(*old(map)).remove(key)
            &&& removed == Some((key, cells(*old(map))[key]))
        },
        !(condition && cells(*old(map)).contains_key(key)) ==> {
            &&& cells(*final(map)) == cells(*old(map))
            &&& removed is None
        },
{
    map.remove_if(&key, |_, _| condition)
}

/// `DashMap::retain`: keeps the entries of which `keep` returns `true`, and no others.
#[verifier::external_body]
pub(crate) fn retain_cells(map: &mut Cells, keep: impl Fn((i32, i32), usize) -> bool)
    requires
        forall|key: (i32, i32), value: usize| keep.requires((key, value)),
    ensures
        forall|key: (i32, i32)| #[trigger]
            cells(*final(map)).contains_key(key) ==> {
                &&& cells(*old(map)).contains_key(key)
                &&& cells(*final(map))[key] == cells(*old(map))[key]
                &&& keep.ensures((key, cells(*old(map))[key]), true)
            },
        forall|key: (i32, i32)| #[trigger]
            cells(*old(map)).contains_key(key) && !cells(*final(map)).contains_key(key)
                ==> keep.ensures((key, cells(*old(map))[key]), false),
{
    map.retain(|key, value| keep(*key, *value))
}

/// `DashMap::iter`: every entry, once, in an order that the map does not promise.
#[verifier::external_body]
pub(crate) fn cell_entries(map: &Cells) -> (entries: Vec<((i32, i32), usize)>)
    ensures
        entries@.no_duplicates(),
        forall|key: (i32, i32), value: usize| #[trigger]
            entries@.contains((key, value)) <==> cells(*map).contains_pair(key, value),
{
    map.iter().map(|entry| (*entry.key(), *entry.value())).collect()
}

/// `DashMap::clear`: takes out every entry.
#[verifier::external_body]
pub(crate) fn clear_cells(map: &mut Cells)
    ensures
        cells(*final(map)) == no_cells(),
{
    map.clear()
}

/// `DashMap::len`: how many entries the map holds.
#[verifier::external_body]
pub(crate) fn cell_count(map: &Cells) -> (count: usize)
    ensures
        count == cells(*map).len(),
{
    map.len()
}

/// `DashMap::capacity`: how many entries the map has room for, which is at least as many as
/// it holds.
#[verifier::external_body]
pub(crate) fn cell_capacity(map: &Cells) -> (capacity: usize)
    ensures
        capacity >= cells(*map).len(),
{
    map.capacity()
}

/// `DashMap::shrink_to_fit`: gives spare room back; what the map holds stays.
#[verifier::external_body]
pub(crate) fn shrink_cells(map: &mut Cells)
    ensures
        cells(*final(map)) == cells(*old(map)),
{
    map.shrink_to_fit()
}

/// `num_traits::Zero::is_zero` on `usize`.
#[verifier::external_body]
pub(crate) fn is_zero(count: usize) -> (zero: bool)
    ensures
        zero == (count == 0),
{
    count.is_zero()
}

} // verus!
