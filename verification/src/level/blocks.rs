//! The blocks of the chunks that are loaded.

use super::{Level, LevelView, SyncChunk};
use crate::cells::try_get_cell;
use crate::chunk::{place_of, BlockStateId, ChunkData, RawBlockState, AIR_STATE_ID};
use crate::math::{BlockPos, Vector2};
use vstd::prelude::*;

verus! {

impl LevelView {
    /// The chunk that holds a block, if it is loaded.
    pub open spec fn chunk_of(self, position: BlockPos) -> Option<SyncChunk> {
        self.loaded_chunks.get(position.chunk().key())
    }

    /// The block at a position, if its chunk is loaded and has a block there.
    pub open spec fn block_at(self, position: BlockPos) -> Option<BlockStateId> {
        match self.chunk_of(position) {
            Some(name) => self.chunks[name].section.get(place_of(position.relative())),
            None => None,
        }
    }

    /// The level with another block at a position whose chunk is loaded.
    pub open spec fn with_block(self, position: BlockPos, id: BlockStateId) -> LevelView {
        let name = self.chunk_of(position)->Some_0;
        LevelView {
            chunks: self.chunks.insert(
                name,
                self.chunks[name].with_block(place_of(position.relative()), id),
            ),
            ..self
        }
    }
}

impl Level {
    /// The chunk at the coordinates, if it is loaded. It is not held on that account.
    pub fn try_get_chunk(&self, coordinates: Vector2) -> (chunk: Option<SyncChunk>)
        ensures
            chunk == self@.loaded_chunks.get(coordinates.key()),
    {
        try_get_cell(&self.state.loaded_chunks, coordinates.key())
    }

    /// The chunk that goes by a name, if it is in memory.
    pub fn chunk(&self, name: SyncChunk) -> (chunk: Option<&ChunkData>)
        ensures
            chunk is Some <==> self@.chunks.contains_key(name),
            chunk matches Some(data) ==> data@ == self@.chunks[name],
    {
        self.state.chunks.get(name)
    }

    /// The block at a position; air where the chunk has no block. Nothing is returned where
    /// the chunk is not loaded: it has to be fetched first.
    pub fn get_block_state(&self, position: &BlockPos) -> (state: Option<RawBlockState>)
        requires
            self@.wf(),
        ensures
            state is Some <==> self@.chunk_of(*position) is Some,
            state matches Some(raw) ==> raw.state_id == match self@.block_at(*position) {
                Some(id) => id,
                None => AIR_STATE_ID,
            },
    {
        let (chunk_coordinate, relative) = position.chunk_and_chunk_relative_position();
        match self.try_get_chunk(chunk_coordinate) {
            Some(name) => match self.chunk(name) {
                Some(chunk) => Some(chunk.block_state(&relative)),
                None => None,
            },
            None => None,
        }
    }

    /// Puts a block at a position and returns the one that it replaces. Nothing is changed or
    /// returned where the chunk is not loaded: it has to be fetched first.
    pub fn set_block_state(
        &mut self,
        position: &BlockPos,
        block_state_id: BlockStateId,
    ) -> (replaced: Option<BlockStateId>)
        requires
            old(self)@.wf(),
            old(self)@.chunk_of(*position) is Some ==> old(self)@.block_at(*position) is Some,
        ensures
            final(self)@.wf(),
            replaced == old(self)@.block_at(*position),
            final(self)@ == if old(self)@.chunk_of(*position) is Some {
                old(self)@.with_block(*position, block_state_id)
            } else {
                old(self)@
            },
    {
        let (chunk_coordinate, relative) = position.chunk_and_chunk_relative_position();
        match self.try_get_chunk(chunk_coordinate) {
            Some(name) => {
                let replaced = match self.state.chunks.take(name) {
                    Some(mut chunk) => {
                        let replaced = chunk.replace_block_state(&relative, block_state_id);
                        self.state.chunks.put(name, chunk);
                        Some(replaced)
                    },
                    None => None,
                };
                assert(self@.chunks =~= old(self)@.with_block(*position, block_state_id).chunks);
                replaced
            },
            None => None,
        }
    }

    /// The block entities of a chunk, which are all to be ticked. There are none where the
    /// chunk is not in memory.
    pub fn tick_block_entities(&self, chunk: SyncChunk) -> (block_entities: Vec<(BlockPos, usize)>)
        ensures
            block_entities@ == if self@.chunks.contains_key(chunk) {
                self@.chunks[chunk].block_entities
            } else {
                Seq::empty()
            },
    {
        let mut block_entities: Vec<(BlockPos, usize)> = Vec::new();
        if let Some(data) = self.chunk(chunk) {
            let mut i: usize = 0;
            while i < data.block_entities.len()
                invariant
                    i <= data.block_entities@.len(),
                    block_entities@ == data.block_entities@.take(i as int),
                decreases data.block_entities@.len() - i,
            {
                block_entities.push(data.block_entities[i]);
                i = i + 1;
                assert(data.block_entities@.take(i as int) =~= data.block_entities@.take(
                    i - 1,
                ).push(data.block_entities@[i - 1]));
            }
            assert(data.block_entities@.take(i as int) =~= data.block_entities@);
        }
        block_entities
    }
}

} // verus!
