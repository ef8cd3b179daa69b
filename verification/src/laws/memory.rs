//! What is written, what leaves memory and what stays.

use crate::cells::no_cells;
use crate::level::memory::{
    is_listed, lemma_written_next, lemma_written_nothing, lists_all, names_of,
};
use crate::level::{LevelView, SyncChunk};
use crate::math::Vector2;
use crate::tick::{ticks_in, ticks_outside};
use vstd::prelude::*;

verus! {

/// Of every level it holds that a chunk that is loaded, a spawn chunk and a chunk that is held are
/// in memory, and that a chunk with a count of watchers has at least one; and a level of which
/// this holds is a valid one.
pub proof fn law_levels_are_valid(level: LevelView)
    ensures
        level.wf() <==> {
            &&& forall|key: (i32, i32)| #[trigger]
                level.loaded_chunks.contains_key(key) ==> level.chunks.contains_key(
                    level.loaded_chunks[key],
                )
            &&& forall|key: (i32, i32)| #[trigger]
                level.spawn_chunks.contains_key(key) ==> level.chunks.contains_key(
                    level.spawn_chunks[key],
                )
            &&& forall|name: SyncChunk| #[trigger]
                level.held_chunks.contains(name) ==> level.chunks.contains_key(name)
            &&& forall|key: (i32, i32)| #[trigger]
                level.chunk_watchers.contains_key(key) ==> level.chunk_watchers[key] >= 1
        },
{
}

/// A chunk is listed if an entry of the list has both its coordinates.
pub proof fn law_listed_chunks(list: Seq<(Vector2, SyncChunk)>, coord: Vector2)
    ensures
        is_listed(list, coord) <==> exists|j: int|
            0 <= j < list.len() && (#[trigger] list[j]).0.x == coord.x && list[j].0.z == coord.z,
{
    if is_listed(list, coord) {
        let j = choose|j: int| 0 <= j < list.len() && (#[trigger] list[j]).0 == coord;
        assert(list[j].0.x == coord.x && list[j].0.z == coord.z);
    }
    if exists|j: int|
        0 <= j < list.len() && (#[trigger] list[j]).0.x == coord.x && list[j].0.z == coord.z {
        let j = choose|j: int|
            0 <= j < list.len() && (#[trigger] list[j]).0.x == coord.x && list[j].0.z == coord.z;
        assert(list[j].0 == coord);
    }
}

/// A chunk that is written behind others takes along the ticks that the others left at its
/// coordinate, in place of those that it held; all others stay in the level. Nothing else of the
/// chunk changes, no other chunk, and nothing else of the level. Writing nothing changes nothing.
pub proof fn law_writing_next(
    level: LevelView,
    list: Seq<(Vector2, SyncChunk)>,
    coord: Vector2,
    name: SyncChunk,
    other: SyncChunk,
)
    requires
        level.chunks.contains_key(name),
    ensures
        level.written(Seq::empty()) == level,
        ({
            let before = level.written(list);
            let after = level.written(list.push((coord, name)));
            &&& after == (LevelView {
                block_ticks: after.block_ticks,
                fluid_ticks: after.fluid_ticks,
                chunks: after.chunks,
                ..level
            })
            &&& after.block_ticks == ticks_outside(before.block_ticks, coord)
            &&& after.fluid_ticks == ticks_outside(before.fluid_ticks, coord)
            &&& after.chunks.dom() == level.chunks.dom()
            &&& after.chunks[name].block_ticks == ticks_in(before.block_ticks, coord)
            &&& after.chunks[name].fluid_ticks == ticks_in(before.fluid_ticks, coord)
            &&& after.chunks[name].section == level.chunks[name].section
            &&& after.chunks[name].position == level.chunks[name].position
            &&& after.chunks[name].block_entities == level.chunks[name].block_entities
            &&& after.chunks[name].dirty == level.chunks[name].dirty
            &&& other != name && level.chunks.contains_key(other) ==> after.chunks[other]
                == before.chunks[other]
        }),
{
    lemma_written_nothing(level);
    lemma_written_next(level, list, (coord, name));
    assert(level.written(list.push((coord, name))).chunks.dom() =~= level.chunks.dom());
}

/// A chunk behind others is to be cleaned, behind those before it, exactly if it is loaded and
/// nobody watches it, and it is handed out under the name of the chunk that is loaded there.
pub proof fn law_chunks_to_clean_next(level: LevelView, chunks: Seq<Vector2>, chunk: Vector2)
    ensures
        level.chunks_to_clean(Seq::empty()) == Seq::<(Vector2, SyncChunk)>::empty(),
        ({
            let key = (chunk.x, chunk.z);
            let is_unwatched = !level.chunk_watchers.contains_key(key) || level.chunk_watchers[key]
                == 0;
            level.chunks_to_clean(chunks.push(chunk)) == if is_unwatched
                && level.loaded_chunks.contains_key(key) {
                level.chunks_to_clean(chunks).push((chunk, level.loaded_chunks[key]))
            } else {
                level.chunks_to_clean(chunks)
            }
        }),
{
    reveal(Seq::filter_map);
    assert(chunks.push(chunk).drop_last() =~= chunks);
}

/// The end of a cleaning takes out of the loaded chunks those that are listed and that nobody
/// watches; every other chunk stays loaded under its name, and nothing else of the level changes.
pub proof fn law_cleaned_chunks(
    level: LevelView,
    list: Seq<(Vector2, SyncChunk)>,
    chunk: Vector2,
)
    ensures
        ({
            let key = (chunk.x, chunk.z);
            let after = level.cleaned(list);
            let is_unwatched = !level.chunk_watchers.contains_key(key) || level.chunk_watchers[key]
                == 0;
            let is_there = exists|j: int|
                0 <= j < list.len() && (#[trigger] list[j]).0.x == chunk.x && list[j].0.z
                    == chunk.z;
            &&& after == (LevelView { loaded_chunks: after.loaded_chunks, ..level })
            &&& is_there && is_unwatched ==> !after.loaded_chunks.contains_key(key)
            &&& !(is_there && is_unwatched) ==> after.loaded_chunks.get(key)
                == level.loaded_chunks.get(key)
        }),
{
    law_listed_chunks(list, chunk);
    assert(Vector2::of_key((chunk.x, chunk.z)) == chunk);
}

/// Cleaning memory forgets the counts of 0 and the loaded chunks that nobody watches; every other
/// count and every other loaded chunk stays, and nothing else of the level changes.
pub proof fn law_memory_cleaned(level: LevelView, key: (i32, i32))
    ensures
        ({
            let after = level.memory_cleaned();
            let is_watched = level.chunk_watchers.contains_key(key) && level.chunk_watchers[key]
                > 0;
            &&& after == (LevelView {
                chunk_watchers: after.chunk_watchers,
                loaded_chunks: after.loaded_chunks,
                ..level
            })
            &&& is_watched ==> {
                &&& after.chunk_watchers.contains_key(key)
                &&& after.chunk_watchers[key] == level.chunk_watchers[key]
                &&& after.loaded_chunks.get(key) == level.loaded_chunks.get(key)
            }
            &&& !is_watched ==> {
                &&& !after.chunk_watchers.contains_key(key)
                &&& !after.loaded_chunks.contains_key(key)
            }
        }),
{
}

/// A chunk is referred to exactly if it is loaded somewhere, is a spawn chunk somewhere or is
/// held.
pub proof fn law_references(level: LevelView, name: SyncChunk)
    ensures
        level.referenced().contains(name) <==> {
            ||| exists|key: (i32, i32)| #[trigger]
                level.loaded_chunks.contains_key(key) && level.loaded_chunks[key] == name
            ||| exists|key: (i32, i32)| #[trigger]
                level.spawn_chunks.contains_key(key) && level.spawn_chunks[key] == name
            ||| level.held_chunks.count(name) > 0
        },
{
    if level.loaded_chunks.contains_value(name) {
        let key = choose|key: (i32, i32)| #[trigger]
            level.loaded_chunks.dom().contains(key) && level.loaded_chunks[key] == name;
        assert(level.loaded_chunks.contains_key(key));
    }
    if level.spawn_chunks.contains_value(name) {
        let key = choose|key: (i32, i32)| #[trigger]
            level.spawn_chunks.dom().contains(key) && level.spawn_chunks[key] == name;
        assert(level.spawn_chunks.contains_key(key));
    }
}

/// A chunk is held as often more as it is named, and as often less once it is released; nothing
/// else of the level changes.
pub proof fn law_holds_are_counted(level: LevelView, names: Seq<SyncChunk>, name: SyncChunk)
    ensures
        level.with_held(names) == (LevelView {
            held_chunks: level.with_held(names).held_chunks,
            ..level
        }),
        level.with_held(names).held_chunks.count(name) == level.held_chunks.count(name)
            + names.to_multiset().count(name),
        level.without_held(names) == (LevelView {
            held_chunks: level.without_held(names).held_chunks,
            ..level
        }),
        level.without_held(names).held_chunks.count(name) == if level.held_chunks.count(name)
            >= names.to_multiset().count(name) {
            level.held_chunks.count(name) - names.to_multiset().count(name)
        } else {
            0
        },
        level.with_held(names).without_held(names) == level,
{
    assert(level.with_held(names).without_held(names).held_chunks =~= level.held_chunks);
}

/// The chunks that are handed out to be written are held, and released, under the names in the
/// list, one for each entry.
pub proof fn law_lists_are_held(level: LevelView, list: Seq<(Vector2, SyncChunk)>, i: int)
    ensures
        names_of(list).len() == list.len(),
        0 <= i < list.len() ==> names_of(list)[i] == list[i].1,
        level.holding(list) == level.with_held(names_of(list)),
        level.released(list) == level.without_held(names_of(list)),
        level.holds_all(list) <==> forall|j: int|
            0 <= j < list.len() ==> level.chunks.contains_key((#[trigger] list[j]).1),
{
}

/// A list of all loaded chunks has each of them once, under its coordinate and its name, and
/// nothing else. Where nothing is filed, nothing is listed.
pub proof fn law_all_are_listed(
    list: Seq<(Vector2, SyncChunk)>,
    map: Map<(i32, i32), SyncChunk>,
    chunk: Vector2,
    name: SyncChunk,
)
    requires
        lists_all(list, map),
    ensures
        list.no_duplicates(),
        list.contains((chunk, name)) <==> map.contains_key((chunk.x, chunk.z)) && map[(
            chunk.x,
            chunk.z,
        )] == name,
        !no_cells().contains_key((chunk.x, chunk.z)),
{
    assert(list.contains((chunk, name)) <==> map.contains_pair(chunk.key(), name));
}

} // verus!
