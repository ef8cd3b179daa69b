//! Where the blocks of the world are.

use crate::chunk::{
    block_grid, place_of, BlockStateId, ChunkData, ChunkParsingError, ChunkReadingError, ChunkView,
    RawBlockState, AIR_STATE_ID,
};
use crate::level::{Level, LevelView, SyncChunk};
use crate::math::{BlockPos, Vector2, Vector3};
use vstd::prelude::*;

verus! {

/// A chunk is what its fields say.
pub proof fn law_chunk_is_its_fields(data: ChunkData)
    ensures
        data@.section == data.section@,
        data@.position == data.position,
        data@.block_ticks == data.block_ticks@,
        data@.fluid_ticks == data.fluid_ticks@,
        data@.block_entities == data.block_entities@,
        data@.dirty == data.dirty,
{
}

/// Chunks are told apart by both coordinates, in their order.
pub proof fn law_chunks_are_told_apart(a: Vector2, b: Vector2, key: (i32, i32))
    ensures
        a.key() == b.key() <==> a.x == b.x && a.z == b.z,
        a.key() == key <==> a.x == key.0 && a.z == key.1,
        Vector2::of_key(key) == a <==> a.x == key.0 && a.z == key.1,
{
}

/// A block lies in the chunk of the 16 by 16 columns around it, and at its own height.
pub proof fn law_position_is_split(pos: BlockPos)
    ensures
        16 * pos.chunk().x <= pos.0.x < 16 * pos.chunk().x + 16,
        16 * pos.chunk().z <= pos.0.z < 16 * pos.chunk().z + 16,
        pos.relative().x == pos.0.x - 16 * pos.chunk().x,
        pos.relative().y == pos.0.y,
        pos.relative().z == pos.0.z - 16 * pos.chunk().z,
{
}

/// A place in a chunk is given by its three coordinates.
pub proof fn law_place_has_three_coordinates(at: Vector3)
    ensures
        place_of(at).0 == at.x,
        place_of(at).1 == at.y,
        place_of(at).2 == at.z,
{
}

/// A chunk has the blocks of its list and no others: those along `x` stand side by side, then
/// those along `z`, then the layers, from `min_y` up.
pub proof fn law_chunk_has_its_blocks(
    min_y: int,
    blocks: Seq<BlockStateId>,
    x: int,
    y: int,
    z: int,
)
    ensures
        block_grid(min_y, blocks).contains_key((x, y, z)) <==> {
            &&& 0 <= x < 16
            &&& 0 <= z < 16
            &&& min_y <= y
            &&& ((y - min_y) * 16 + z) * 16 + x < blocks.len()
        },
        block_grid(min_y, blocks).contains_key((x, y, z)) ==> block_grid(min_y, blocks)[(x, y, z)]
            == blocks[((y - min_y) * 16 + z) * 16 + x],
{
}

/// A chunk of `n` full layers has a block in each column at every height from `min_y` on, up to
/// the last of them, and none below or above.
pub proof fn law_chunk_has_its_layers(
    min_y: int,
    blocks: Seq<BlockStateId>,
    n: int,
    x: int,
    y: int,
    z: int,
)
    requires
        blocks.len() == 256 * n,
        0 <= x < 16,
        0 <= z < 16,
    ensures
        block_grid(min_y, blocks).contains_key((x, y, z)) <==> min_y <= y < min_y + n,
        min_y <= y < min_y + n ==> block_grid(min_y, blocks)[(x, y, z)] == blocks[256 * (y - min_y)
            + 16 * z + x],
{
}

/// The block at a position is the one that the list of its chunk gives for its column and its
/// height, if it gives one, and there is none where no chunk is loaded. Air is the block state 0.
pub proof fn law_block_is_in_its_list(
    level: LevelView,
    pos: BlockPos,
    chunk_x: i32,
    chunk_z: i32,
    min_y: int,
    blocks: Seq<BlockStateId>,
)
    requires
        16 * chunk_x <= pos.0.x < 16 * chunk_x + 16,
        16 * chunk_z <= pos.0.z < 16 * chunk_z + 16,
        level.loaded_chunks.contains_key((chunk_x, chunk_z)) ==> level.chunks[level.loaded_chunks[(
            chunk_x,
            chunk_z,
        )]].section == block_grid(min_y, blocks),
    ensures
        level.chunk_of(pos) == level.loaded_chunks.get((chunk_x, chunk_z)),
        ({
            let index = 256 * (pos.0.y - min_y) + 16 * (pos.0.z - 16 * chunk_z) + (pos.0.x - 16
                * chunk_x);
            let is_there = level.loaded_chunks.contains_key((chunk_x, chunk_z)) && min_y <= pos.0.y
                && index < blocks.len();
            &&& is_there ==> level.block_at(pos) == Some(blocks[index])
            &&& !is_there ==> level.block_at(pos) is None
        }),
        AIR_STATE_ID == 0,
{
    assert(pos.chunk().x == chunk_x && pos.chunk().z == chunk_z);
    let at = place_of(pos.relative());
    assert(at == (pos.0.x - 16 * chunk_x, pos.0.y as int, pos.0.z - 16 * chunk_z));
}

/// What is read at a position of a loaded chunk is the block that the chunk's list gives for its
/// column and its height, and air where it gives none.
pub proof fn law_block_that_is_read(
    level: &Level,
    pos: &BlockPos,
    chunk_x: i32,
    chunk_z: i32,
    min_y: int,
    blocks: Seq<BlockStateId>,
    read: Option<RawBlockState>,
)
    requires
        16 * chunk_x <= pos.0.x < 16 * chunk_x + 16,
        16 * chunk_z <= pos.0.z < 16 * chunk_z + 16,
        level@.loaded_chunks.contains_key((chunk_x, chunk_z)),
        level@.chunks[level@.loaded_chunks[(chunk_x, chunk_z)]].section == block_grid(
            min_y,
            blocks,
        ),
        call_ensures(Level::get_block_state, (level, pos), read),
    ensures
        ({
            let index = 256 * (pos.0.y - min_y) + 16 * (pos.0.z - 16 * chunk_z) + (pos.0.x - 16
                * chunk_x);
            &&& read is Some
            &&& min_y <= pos.0.y && index < blocks.len() ==> read->Some_0.state_id == blocks[index]
            &&& !(min_y <= pos.0.y && index < blocks.len()) ==> read->Some_0.state_id == 0
        }),
{
    law_block_is_in_its_list(level@, *pos, chunk_x, chunk_z, min_y, blocks);
}

/// Putting a block at a position changes that block of its chunk and whether the chunk is dirty,
/// and nothing else: no other block of the chunk, no other part of it, no other chunk, and
/// nothing else of the level. A chunk that was dirty stays dirty.
pub proof fn law_block_changes_alone(
    level: LevelView,
    pos: BlockPos,
    id: BlockStateId,
    name: SyncChunk,
    at: (int, int, int),
    other_name: SyncChunk,
)
    requires
        level.wf(),
        level.block_at(pos) is Some,
        level.loaded_chunks[(pos.chunk().x, pos.chunk().z)] == name,
    ensures
        ({
            let after = level.with_block(pos, id);
            let here = (pos.0.x - 16 * pos.chunk().x, pos.0.y as int, pos.0.z - 16 * pos.chunk().z);
            let chunk = level.chunks[name];
            let changed = after.chunks[name];
            &&& after == (LevelView { chunks: after.chunks, ..level })
            &&& after.chunks.dom() == level.chunks.dom()
            &&& other_name != name ==> after.chunks[other_name] == level.chunks[other_name]
            &&& changed == (ChunkView { section: changed.section, dirty: changed.dirty, ..chunk })
            &&& changed.section.dom() == chunk.section.dom()
            &&& changed.section[here] == id
            &&& at != here ==> changed.section.get(at) == chunk.section.get(at)
            &&& changed.dirty <==> chunk.dirty || chunk.section[here] != id
        }),
{
    let here = place_of(pos.relative());
    let after = level.with_block(pos, id);
    assert(here == (pos.0.x - 16 * pos.chunk().x, pos.0.y as int, pos.0.z - 16 * pos.chunk().z));
    assert(level.chunks.contains_key(name));
    assert(level.chunks[name].section.contains_key(here));
    assert(after.chunks.dom() =~= level.chunks.dom());
    assert(after.chunks[name].section.dom() =~= level.chunks[name].section.dom());
}

/// Putting a block at a place of a chunk changes that block and no other part of the chunk, but
/// that a chunk whose block becomes another is dirty.
pub proof fn law_chunk_with_a_block(
    chunk: ChunkView,
    at: (int, int, int),
    other: (int, int, int),
    id: BlockStateId,
)
    requires
        chunk.section.contains_key(at),
    ensures
        ({
            let after = chunk.with_block(at, id);
            &&& after.section.get(at) == Some(id)
            &&& other != at ==> after.section.get(other) == chunk.section.get(other)
            &&& after.dirty <==> chunk.dirty || chunk.section[at] != id
            &&& after.position == chunk.position
            &&& after.block_ticks == chunk.block_ticks
            &&& after.fluid_ticks == chunk.fluid_ticks
            &&& after.block_entities == chunk.block_entities
        }),
{
}

/// Two errors of the storage are expected, and no others: that it has no such chunk, and that
/// the chunk was stored before it was generated.
pub proof fn law_expected_errors(error: ChunkReadingError)
    ensures
        error.spec_is_expected() <==> {
            ||| error == ChunkReadingError::ChunkNotExist
            ||| error == ChunkReadingError::ParsingError(ChunkParsingError::ChunkNotGenerated)
        },
{
}

} // verus!
