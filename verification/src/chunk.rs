//! Chunks, and what is read back of them from storage.

use crate::math::{BlockPos, Vector2, Vector3};
use crate::tick::ScheduledTick;
use vstd::prelude::*;

verus! {

/// The number of a block state.
pub type BlockStateId = u16;

/// The block state of air.
pub const AIR_STATE_ID: BlockStateId = 0;

/// A block state as it stands in the world.
#[derive(Clone, Copy, Debug, PartialEq, Eq, Structural)]
pub struct RawBlockState {
    pub state_id: BlockStateId,
}

/// The blocks of a chunk: layers of 16 by 16 blocks, from the lowest up. A layer lists its
/// blocks along `x` first, then along `z`.
pub struct ChunkSections {
    min_y: i32,
    blocks: Vec<BlockStateId>,
}

/// Where a block stands in the list of a chunk whose lowest layer is `min_y`.
pub open spec fn block_index(min_y: int, at: (int, int, int)) -> int {
    ((at.1 - min_y) * 16 + at.2) * 16 + at.0
}

/// The blocks that a list gives a chunk whose lowest layer is `min_y`, by their place in the
/// chunk: `x` and `z` relative to the chunk, `y` absolute.
pub open spec fn block_grid(min_y: int, blocks: Seq<BlockStateId>) -> Map<
    (int, int, int),
    BlockStateId,
> {
    Map::new(
        |at: (int, int, int)|
            0 <= at.0 < 16 && 0 <= at.2 < 16 && min_y <= at.1 && block_index(min_y, at)
                < blocks.len(),
        |at: (int, int, int)| blocks[block_index(min_y, at)],
    )
}

impl View for ChunkSections {
    type V = Map<(int, int, int), BlockStateId>;

    closed spec fn view(&self) -> Map<(int, int, int), BlockStateId> {
        block_grid(self.min_y as int, self.blocks@)
    }
}

impl ChunkSections {
    /// The blocks of a chunk, listed from the layer `min_y` up.
    pub fn new(min_y: i32, blocks: Vec<BlockStateId>) -> (sections: ChunkSections)
        ensures
            sections@ == block_grid(min_y as int, blocks@),
    {
        ChunkSections { min_y, blocks }
    }

    /// The place of a block in the list, if there is such a block.
    fn index_of(&self, relative_x: usize, y: i32, relative_z: usize) -> (index: Option<usize>)
        ensures
            index is Some <==> self@.contains_key((relative_x as int, y as int, relative_z as int)),
            index matches Some(i) ==> {
                &&& i == block_index(
                    self.min_y as int,
                    (relative_x as int, y as int, relative_z as int),
                )
                &&& i < self.blocks@.len()
            },
    {
        if relative_x >= 16 || relative_z >= 16 || y < self.min_y {
            return None;
        }
        let index: u64 = ((y as i64 - self.min_y as i64) as u64 * 16 + relative_z as u64) * 16
            + relative_x as u64;
        if index < self.blocks.len() as u64 {
            Some(index as usize)
        } else {
            None
        }
    }

    /// The block at the absolute height `y` of a column of the chunk, if the chunk has one
    /// there.
    pub fn get_block_absolute_y(&self, relative_x: usize, y: i32, relative_z: usize) -> (id: Option<
        BlockStateId,
    >)
        ensures
            id == self@.get((relative_x as int, y as int, relative_z as int)),
    {
        match self.index_of(relative_x, y, relative_z) {
            Some(index) => Some(self.blocks[index]),
            None => None,
        }
    }

    /// Puts a block at the absolute height `y` of a column of the chunk.
    pub fn set_block_absolute_y(
        &mut self,
        relative_x: usize,
        y: i32,
        relative_z: usize,
        block_state_id: BlockStateId,
    )
        requires
            old(self)@.contains_key((relative_x as int, y as int, relative_z as int)),
        ensures
            final(self)@ == old(self)@.insert(
                (relative_x as int, y as int, relative_z as int),
                block_state_id,
            ),
    {
        if let Some(index) = self.index_of(relative_x, y, relative_z) {
            self.blocks.set(index, block_state_id);
        }
        assert(self@ =~= old(self)@.insert(
            (relative_x as int, y as int, relative_z as int),
            block_state_id,
        ));
    }
}

/// A chunk of the world. A block entity is named by a number.
pub struct ChunkData {
    pub section: ChunkSections,
    pub position: Vector2,
    pub block_ticks: Vec<ScheduledTick>,
    pub fluid_ticks: Vec<ScheduledTick>,
    pub block_entities: Vec<(BlockPos, usize)>,
    /// Whether the chunk has changed since it was read or written.
    pub dirty: bool,
}

/// What a chunk is.
#[verifier::ext_equal]
pub struct ChunkView {
    pub section: Map<(int, int, int), BlockStateId>,
    pub position: Vector2,
    pub block_ticks: Seq<ScheduledTick>,
    pub fluid_ticks: Seq<ScheduledTick>,
    pub block_entities: Seq<(BlockPos, usize)>,
    pub dirty: bool,
}

impl View for ChunkData {
    type V = ChunkView;

    open spec fn view(&self) -> ChunkView {
        ChunkView {
            section: self.section@,
            position: self.position,
            block_ticks: self.block_ticks@,
            fluid_ticks: self.fluid_ticks@,
            block_entities: self.block_entities@,
            dirty: self.dirty,
        }
    }
}

/// The key of a place in a chunk.
pub open spec fn place_of(relative: Vector3) -> (int, int, int) {
    (relative.x as int, relative.y as int, relative.z as int)
}

impl ChunkData {
    /// The block at a place of the chunk; air where the chunk has no block.
    pub fn block_state(&self, relative: &Vector3) -> (state: RawBlockState)
        requires
            0 <= relative.x < 16,
            0 <= relative.z < 16,
        ensures
            state.state_id == match self@.section.get(place_of(*relative)) {
                Some(id) => id,
                None => AIR_STATE_ID,
            },
    {
        match self.section.get_block_absolute_y(
            relative.x as usize,
            relative.y,
            relative.z as usize,
        ) {
            Some(id) => RawBlockState { state_id: id },
            None => RawBlockState { state_id: AIR_STATE_ID },
        }
    }

    /// Puts a block at a place of the chunk and returns the one that it replaces. A chunk
    /// that changes is dirty.
    pub fn replace_block_state(
        &mut self,
        relative: &Vector3,
        block_state_id: BlockStateId,
    ) -> (replaced: BlockStateId)
        requires
            0 <= relative.x < 16,
            0 <= relative.z < 16,
            old(self)@.section.contains_key(place_of(*relative)),
        ensures
            replaced == old(self)@.section[place_of(*relative)],
            final(self)@ == old(self)@.with_block(place_of(*relative), block_state_id),
    {
        let replaced = match self.section.get_block_absolute_y(
            relative.x as usize,
            relative.y,
            relative.z as usize,
        ) {
            Some(id) => id,
            None => block_state_id,
        };
        if replaced == block_state_id {
            return block_state_id;
        }
        self.dirty = true;
        self.section.set_block_absolute_y(
            relative.x as usize,
            relative.y,
            relative.z as usize,
            block_state_id,
        );
        replaced
    }
}

impl ChunkView {
    /// The chunk with another block at a place. It is dirty if the block is another indeed.
    pub open spec fn with_block(self, at: (int, int, int), id: BlockStateId) -> ChunkView {
        if self.section[at] == id {
            self
        } else {
            ChunkView { section: self.section.insert(at, id), dirty: true, ..self }
        }
    }
}

/// Why the stored form of a chunk could not be read.
#[derive(Debug)]
pub enum ChunkParsingError {
    /// The chunk was stored before it was generated.
    ChunkNotGenerated,
    /// Anything else, in words.
    Other(String),
}

/// Why a chunk could not be read from storage.
#[derive(Debug)]
pub enum ChunkReadingError {
    /// The storage has no such chunk.
    ChunkNotExist,
    ParsingError(ChunkParsingError),
    /// Anything else, in words.
    Other(String),
}

impl ChunkReadingError {
    /// Whether the error only says that the chunk has not been generated yet.
    pub open spec fn spec_is_expected(&self) -> bool {
        ||| self is ChunkNotExist
        ||| *self matches ChunkReadingError::ParsingError(error) && error is ChunkNotGenerated
    }

    pub fn is_expected(&self) -> (expected: bool)
        ensures
            expected == self.spec_is_expected(),
    {
        match self {
            ChunkReadingError::ChunkNotExist => true,
            ChunkReadingError::ParsingError(ChunkParsingError::ChunkNotGenerated) => true,
            _ => false,
        }
    }
}

/// What the storage answers when it is asked for a chunk.
pub enum LoadedData<D, E> {
    /// The chunk was read.
    Loaded(D),
    /// The chunk at this position was never stored.
    Missing(Vector2),
    /// The chunk at this position could not be read.
    Error((Vector2, E)),
}

} // verus!
