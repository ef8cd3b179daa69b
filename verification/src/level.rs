//! A level: which chunks are in memory, who watches them, and which ticks they wait for.

use crate::cells::{cells, new_cells, no_cells, Cells};
use crate::chunk::ChunkView;
use crate::folder::LevelFolder;
use crate::store::ChunkStore;
use crate::tick::ScheduledTick;
use std::collections::VecDeque;
use vstd::multiset::Multiset;
use vstd::prelude::*;

pub mod blocks;
pub mod fetch;
pub mod memory;
pub mod ticks;
pub mod watch;

verus! {

/// The number from which a world is generated.
#[derive(Clone, Copy, Debug, PartialEq, Eq, Structural)]
pub struct Seed(pub u64);

/// Names a chunk of a level. Every copy names the same chunk, so that a change made under one
/// copy is seen under all. A chunk keeps its name as long as it is in memory: while it is loaded,
/// while it is a spawn chunk, and while it is held. Chunks that are sent, or handed out to be
/// written, are held until they are released.
pub type SyncChunk = usize;

/// The chunks of a world that are in memory.
///
/// - The level answers from memory for the chunks that it holds, and says which others have
///   to be loaded or generated.
/// - It counts the watchers of a chunk, and lets go of a chunk that nobody watches.
/// - It keeps the ticks that are scheduled for blocks and fluids, and stores them with their
///   chunk when the chunk is written.
pub struct Level {
    pub seed: Seed,
    /// What the level's methods keep.
    pub state: LevelState,
}

/// All of a level but its seed.
pub struct LevelState {
    level_folder: LevelFolder,
    // The chunks around the spawn point, which are always loaded.
    spawn_chunks: Cells,
    // The chunks that are paired with chunk watchers. A chunk that is no longer watched is
    // taken out and written.
    loaded_chunks: Cells,
    chunk_watchers: Cells,
    // The chunks themselves, by the name under which the maps refer to them.
    chunks: ChunkStore,
    // The chunks that are handed out and have not been released.
    held_chunks: Vec<SyncChunk>,
    // The coordinates whose chunks are being generated.
    generating: Vec<(i32, i32)>,
    block_ticks: Vec<ScheduledTick>,
    remaining_block_ticks_this_tick: VecDeque<ScheduledTick>,
    fluid_ticks: Vec<ScheduledTick>,
}

/// What a level is. A chunk is filed under its coordinates.
#[verifier::ext_equal]
pub struct LevelView {
    pub seed: Seed,
    pub level_folder: LevelFolder,
    /// The chunks around the spawn point.
    pub spawn_chunks: Map<(i32, i32), SyncChunk>,
    /// The chunks that are loaded.
    pub loaded_chunks: Map<(i32, i32), SyncChunk>,
    /// How many watch a chunk.
    pub chunk_watchers: Map<(i32, i32), usize>,
    /// The chunks that are in memory.
    pub chunks: Map<SyncChunk, ChunkView>,
    /// The chunks that are handed out and have not been released, as often as they are handed
    /// out.
    pub held_chunks: Multiset<SyncChunk>,
    /// The coordinates whose chunks are being generated.
    pub generating: Set<(i32, i32)>,
    /// The block ticks whose time has not come.
    pub block_ticks: Seq<ScheduledTick>,
    /// The block ticks whose time has come, as far as they have not been taken.
    pub remaining_block_ticks_this_tick: Seq<ScheduledTick>,
    /// The fluid ticks whose time has not come.
    pub fluid_ticks: Seq<ScheduledTick>,
}

impl View for Level {
    type V = LevelView;

    open spec fn view(&self) -> LevelView {
        self.state.with_seed(self.seed)
    }
}

impl LevelState {
    /// What a level of this state and a seed is.
    pub closed spec fn with_seed(&self, seed: Seed) -> LevelView {
        LevelView {
            seed,
            level_folder: self.level_folder,
            spawn_chunks: cells(self.spawn_chunks),
            loaded_chunks: cells(self.loaded_chunks),
            chunk_watchers: cells(self.chunk_watchers),
            chunks: self.chunks@,
            held_chunks: self.held_chunks@.to_multiset(),
            generating: Set::new(|key: (i32, i32)| self.generating@.contains(key)),
            block_ticks: self.block_ticks@,
            remaining_block_ticks_this_tick: self.remaining_block_ticks_this_tick@,
            fluid_ticks: self.fluid_ticks@,
        }
    }
}

impl LevelView {
    /// What holds of every level: the chunks to which its maps refer and those that are held
    /// are in memory, and a chunk has an entry among the watched ones only while somebody
    /// watches it.
    pub open spec fn wf(self) -> bool {
        &&& forall|key: (i32, i32)| #[trigger]
            self.loaded_chunks.contains_key(key) ==> self.chunks.contains_key(
                self.loaded_chunks[key],
            )
        &&& forall|key: (i32, i32)| #[trigger]
            self.spawn_chunks.contains_key(key) ==> self.chunks.contains_key(self.spawn_chunks[key])
        &&& forall|name: SyncChunk| #[trigger]
            self.held_chunks.contains(name) ==> self.chunks.contains_key(name)
        &&& forall|key: (i32, i32)| #[trigger]
            self.chunk_watchers.contains_key(key) ==> self.chunk_watchers[key] > 0
    }
}

/// The seed of a level is what its field says, and nothing else of the level depends on it.
pub proof fn law_seed_is_its_field(level: Level, seed: Seed)
    ensures
        level.seed == level@.seed,
        (Level { seed, state: level.state })@ == (LevelView { seed, ..level@ }),
{
}

impl Level {
    /// A level that is stored in `root_folder` and has nothing in memory yet.
    pub fn from_root_folder(root_folder: std::path::PathBuf, seed: i64) -> (level: Level)
        ensures
            level@.wf(),
            level.seed == level@.seed,
            level@.level_folder.root_folder == root_folder,
            level@.level_folder.has_regions_in_root(),
            level@ == (LevelView {
                seed: Seed(
                    if seed >= 0 {
                        seed as u64
                    } else {
                        (seed + 0x1_0000_0000_0000_0000) as u64
                    },
                ),
                level_folder: level@.level_folder,
                spawn_chunks: no_cells(),
                loaded_chunks: no_cells(),
                chunk_watchers: no_cells(),
                chunks: Map::empty(),
                held_chunks: Multiset::empty(),
                generating: Set::empty(),
                block_ticks: Seq::empty(),
                remaining_block_ticks_this_tick: Seq::empty(),
                fluid_ticks: Seq::empty(),
            }),
    {
        assert(seed < 0 ==> seed as u64 == seed + 0x1_0000_0000_0000_0000) by (bit_vector);
        let level = Level {
            seed: Seed(seed as u64),
            state: LevelState {
                level_folder: LevelFolder::in_root_folder(root_folder),
                spawn_chunks: new_cells(),
                loaded_chunks: new_cells(),
                chunk_watchers: new_cells(),
                chunks: ChunkStore::new(),
                held_chunks: Vec::new(),
                generating: Vec::new(),
                block_ticks: Vec::new(),
                remaining_block_ticks_this_tick: VecDeque::new(),
                fluid_ticks: Vec::new(),
            },
        };
        proof {
            level.state.held_chunks@.to_multiset_ensures();
            assert(level@.held_chunks =~= Multiset::empty());
            assert(level@.generating =~= Set::empty());
        }
        level
    }

    /// The number from which the world is generated.
    pub fn seed(&self) -> (seed: Seed)
        ensures
            seed == self@.seed,
    {
        self.seed
    }

    /// Where the level is stored.
    pub fn level_folder(&self) -> (folder: &LevelFolder)
        ensures
            *folder == self@.level_folder,
    {
        &self.state.level_folder
    }
}

} // verus!
