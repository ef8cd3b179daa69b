//! What a fetch sends, what it takes up and what it leaves as it is.

use crate::chunk::ChunkView;
use crate::level::fetch::{message_names, with_spawn_chunks};
use crate::level::{LevelView, SyncChunk};
use crate::math::Vector2;
use crate::seqs::lemma_filter_push;
use vstd::prelude::*;

verus! {

/// A chunk in memory is the one that is loaded at the coordinate, or else the spawn chunk there.
pub proof fn law_chunks_in_memory(level: LevelView, chunk: Vector2)
    ensures
        ({
            let key = (chunk.x, chunk.z);
            &&& level.loaded_chunks.contains_key(key) ==> level.cached(chunk) == Some(
                level.loaded_chunks[key],
            )
            &&& !level.loaded_chunks.contains_key(key) && level.spawn_chunks.contains_key(key)
                ==> level.cached(chunk) == Some(level.spawn_chunks[key])
            &&& !level.loaded_chunks.contains_key(key) && !level.spawn_chunks.contains_key(key)
                ==> level.cached(chunk) is None
        }),
{
}

/// A chunk that is asked for behind others is sent behind theirs, as one that is not new, if it
/// is in memory; otherwise it is to be loaded behind theirs.
pub proof fn law_fetch_next(level: LevelView, chunks: Seq<Vector2>, chunk: Vector2)
    ensures
        level.cached_messages(Seq::empty()) == Seq::<(SyncChunk, bool)>::empty(),
        level.uncached(Seq::empty()) == Seq::<Vector2>::empty(),
        ({
            let key = (chunk.x, chunk.z);
            let sent = level.cached_messages(chunks);
            let more_sent = level.cached_messages(chunks.push(chunk));
            let left = level.uncached(chunks);
            let more_left = level.uncached(chunks.push(chunk));
            &&& level.loaded_chunks.contains_key(key) ==> {
                &&& more_sent == sent.push((level.loaded_chunks[key], false))
                &&& more_left == left
            }
            &&& !level.loaded_chunks.contains_key(key) && level.spawn_chunks.contains_key(key) ==> {
                &&& more_sent == sent.push((level.spawn_chunks[key], false))
                &&& more_left == left
            }
            &&& !level.loaded_chunks.contains_key(key) && !level.spawn_chunks.contains_key(key)
                ==> {
                &&& more_sent == sent
                &&& more_left == left.push(chunk)
            }
        }),
{
    reveal(Seq::filter);
    reveal(Seq::filter_map);
    assert(chunks.push(chunk).drop_last() =~= chunks);
    lemma_filter_push(chunks, chunk, |chunk: Vector2| level.cached(chunk) is None);
}

/// Serving chunks from memory loads the spawn chunks that are asked for, under their names, where
/// none is loaded; every other chunk is loaded as before, and nothing else of the level changes.
pub proof fn law_served_chunks(level: LevelView, chunks: Seq<Vector2>, chunk: Vector2)
    ensures
        ({
            let key = (chunk.x, chunk.z);
            let after = level.served(chunks);
            let is_taken = !level.loaded_chunks.contains_key(key) && level.spawn_chunks.contains_key(
                key,
            ) && chunks.contains(chunk);
            &&& after == (LevelView { loaded_chunks: after.loaded_chunks, ..level })
            &&& is_taken ==> after.loaded_chunks.get(key) == Some(level.spawn_chunks[key])
            &&& !is_taken ==> after.loaded_chunks.get(key) == level.loaded_chunks.get(key)
        }),
{
    assert(Vector2::of_key((chunk.x, chunk.z)) == chunk);
}

/// Where no chunk is loaded at a coordinate, a chunk that is taken up there is loaded there under
/// its name, and is in memory under that name as it was given, in every part: its blocks, its
/// position, its ticks, its block entities and whether it is dirty. Where one is loaded, nothing
/// changes. No other chunk and nothing else of the level changes.
pub proof fn law_new_chunk_is_taken_up_whole(
    level: LevelView,
    coord: Vector2,
    chunk: ChunkView,
    name: SyncChunk,
)
    ensures
        ({
            let key = (coord.x, coord.z);
            let after = level.with_chunk(coord, chunk, name);
            &&& level.loaded_chunks.contains_key(key) ==> after == level
            &&& !level.loaded_chunks.contains_key(key) ==> {
                &&& after == (LevelView {
                    loaded_chunks: after.loaded_chunks,
                    chunks: after.chunks,
                    ..level
                })
                &&& after.loaded_chunks == level.loaded_chunks.insert(key, name)
                &&& after.chunks.remove(name) == level.chunks.remove(name)
                &&& after.chunks.contains_key(name)
                &&& after.chunks[name].section == chunk.section
                &&& after.chunks[name].position == chunk.position
                &&& after.chunks[name].block_ticks == chunk.block_ticks
                &&& after.chunks[name].fluid_ticks == chunk.fluid_ticks
                &&& after.chunks[name].block_entities == chunk.block_entities
                &&& after.chunks[name].dirty == chunk.dirty
            }
        }),
{
    assert(level.chunks.insert(name, chunk).remove(name) =~= level.chunks.remove(name));
}

/// A chunk from storage is taken up like any other, at its own position, and the ticks that are
/// stored in it are put behind those of the level, whether or not one is loaded there already.
pub proof fn law_stored_chunk_is_taken_up_whole(
    level: LevelView,
    chunk: ChunkView,
    name: SyncChunk,
)
    ensures
        ({
            let taken_up = level.with_chunk(chunk.position, chunk, name);
            let after = level.with_loaded_chunk(chunk, name);
            &&& after.block_ticks == level.block_ticks + chunk.block_ticks
            &&& after.fluid_ticks == level.fluid_ticks + chunk.fluid_ticks
            &&& after == (LevelView {
                block_ticks: after.block_ticks,
                fluid_ticks: after.fluid_ticks,
                ..taken_up
            })
        }),
{
}

/// The chunk at a coordinate goes by the name of the one that is loaded there, or else by a name
/// that no chunk in memory goes by.
pub proof fn law_names_of_new_chunks(level: LevelView, coord: Vector2, name: SyncChunk)
    ensures
        ({
            let key = (coord.x, coord.z);
            &&& level.loaded_chunks.contains_key(key) ==> (level.may_go_by(coord, name) <==> name
                == level.loaded_chunks[key])
            &&& !level.loaded_chunks.contains_key(key) ==> (level.may_go_by(coord, name)
                <==> !level.chunks.contains_key(name))
        }),
{
}

/// A generation begins only for a fetch that goes on, for a chunk that is not loaded and that is
/// not being generated. That a coordinate is being generated is noted for it alone, and changes
/// nothing else of the level.
pub proof fn law_generation_begins(
    level: LevelView,
    pos: Vector2,
    other: Vector2,
    continues: bool,
)
    ensures
        ({
            let key = (pos.x, pos.z);
            let is_loaded = level.loaded_chunks.contains_key(key);
            let step = level.generate_step(pos, continues);
            &&& step is Stop <==> !continues
            &&& step is Delivered <==> continues && is_loaded
            &&& step is Wait <==> continues && !is_loaded && level.generating.contains(key)
            &&& step is Generate <==> continues && !is_loaded && !level.generating.contains(key)
        }),
        level.with_generating(pos) == (LevelView {
            generating: level.with_generating(pos).generating,
            ..level
        }),
        level.with_generating(pos).generating.contains((other.x, other.z)) <==> other == pos
            || level.generating.contains((other.x, other.z)),
        level.without_generating(pos) == (LevelView {
            generating: level.without_generating(pos).generating,
            ..level
        }),
        level.without_generating(pos).generating.contains((other.x, other.z)) <==> other != pos
            && level.generating.contains((other.x, other.z)),
{
    assert(other.key() == pos.key() <==> other == pos);
}

/// The messages of a fetch are about the chunks that they name.
pub proof fn law_messages_name_chunks(messages: Seq<(SyncChunk, bool)>, i: int)
    ensures
        message_names(messages).len() == messages.len(),
        0 <= i < messages.len() ==> message_names(messages)[i] == messages[i].0,
{
}

/// A chunk that is received behind others becomes the spawn chunk at its own position, in place
/// of the one before, and no other spawn chunk changes. Receiving nothing changes nothing.
pub proof fn law_spawn_chunks_next(
    spawn_chunks: Map<(i32, i32), SyncChunk>,
    chunks: Map<SyncChunk, ChunkView>,
    received: Seq<SyncChunk>,
    name: SyncChunk,
)
    ensures
        with_spawn_chunks(spawn_chunks, chunks, Seq::empty()) == spawn_chunks,
        with_spawn_chunks(spawn_chunks, chunks, received.push(name)) == with_spawn_chunks(
            spawn_chunks,
            chunks,
            received,
        ).insert((chunks[name].position.x, chunks[name].position.z), name),
{
    assert(received.push(name).drop_last() =~= received);
}

} // verus!
