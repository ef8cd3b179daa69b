//! How chunks are written and leave memory.

use super::watch::watcher_count;
use super::{Level, LevelView, SyncChunk};
use crate::cells::{
    cell_capacity, cell_count, cell_entries, cells, clear_cells, get_cell, is_zero, no_cells,
    remove_cell_if, retain_cells, shrink_cells,
};
use crate::chunk::ChunkView;
use crate::math::Vector2;
use crate::seqs::{
    lemma_add_has, lemma_filter_agree, lemma_filter_all, lemma_filter_none, lemma_filter_twice,
};
use crate::tick::{take_ticks_in, ticks_in, ticks_outside, ScheduledTick};
use vstd::prelude::*;

verus! {

/// How much room for entries may lie idle before it is given back.
pub const MAX_IDLE_ENTRIES: usize = 4096;

/// Whether the coordinate stands in a list of chunks.
pub open spec fn is_listed(chunks: Seq<(Vector2, SyncChunk)>, coord: Vector2) -> bool {
    exists|j: int| 0 <= j < chunks.len() && (#[trigger] chunks[j]).0 == coord
}

/// The last place at which the chunk `name` stands in a list, or -1.
pub open spec fn last_place(chunks: Seq<(Vector2, SyncChunk)>, name: SyncChunk) -> int
    decreases chunks.len(),
{
    if chunks.len() == 0 {
        -1
    } else if chunks.last().1 == name {
        chunks.len() - 1
    } else {
        last_place(chunks.drop_last(), name)
    }
}

/// The names of the chunks of a list.
pub open spec fn names_of(chunks: Seq<(Vector2, SyncChunk)>) -> Seq<SyncChunk> {
    chunks.map_values(|entry: (Vector2, SyncChunk)| entry.1)
}

/// The ticks that no chunk of the list takes along, in their order.
pub open spec fn ticks_kept(
    ticks: Seq<ScheduledTick>,
    chunks: Seq<(Vector2, SyncChunk)>,
) -> Seq<ScheduledTick> {
    ticks.filter(|tick: ScheduledTick| !is_listed(chunks, tick.block_pos.chunk()))
}

/// The ticks that the chunk at a place of the list takes along: all that are scheduled at its
/// coordinate, unless the same coordinate stands earlier in the list.
pub open spec fn ticks_taken(
    ticks: Seq<ScheduledTick>,
    chunks: Seq<(Vector2, SyncChunk)>,
    place: int,
) -> Seq<ScheduledTick> {
    if is_listed(chunks.take(place), chunks[place].0) {
        Seq::empty()
    } else {
        ticks_in(ticks, chunks[place].0)
    }
}

/// Whether a list gives every entry of a map, once.
pub open spec fn lists_all(
    list: Seq<(Vector2, SyncChunk)>,
    map: Map<(i32, i32), SyncChunk>,
) -> bool {
    &&& list.no_duplicates()
    &&& forall|coord: Vector2, name: SyncChunk| #[trigger]
        list.contains((coord, name)) <==> map.contains_pair(coord.key(), name)
}

impl LevelView {
    /// Whether nobody watches the chunk filed under `key`.
    pub open spec fn is_unwatched(self, key: (i32, i32)) -> bool {
        watcher_count(self.chunk_watchers, key) == 0
    }

    /// A chunk once the chunks of the list have taken along the ticks of their coordinates.
    /// What a chunk took along the last time is forgotten.
    pub open spec fn written_chunk(
        self,
        chunks: Seq<(Vector2, SyncChunk)>,
        name: SyncChunk,
    ) -> ChunkView {
        let place = last_place(chunks, name);
        if place < 0 {
            self.chunks[name]
        } else {
            ChunkView {
                block_ticks: ticks_taken(self.block_ticks, chunks, place),
                fluid_ticks: ticks_taken(self.fluid_ticks, chunks, place),
                ..self.chunks[name]
            }
        }
    }

    /// The level once the chunks of the list have taken along the ticks of their coordinates.
    pub open spec fn written(self, chunks: Seq<(Vector2, SyncChunk)>) -> LevelView {
        LevelView {
            block_ticks: ticks_kept(self.block_ticks, chunks),
            fluid_ticks: ticks_kept(self.fluid_ticks, chunks),
            chunks: Map::new(
                |name: SyncChunk| self.chunks.contains_key(name),
                |name: SyncChunk| self.written_chunk(chunks, name),
            ),
            ..self
        }
    }

    /// Of the given chunks, those that are loaded and that nobody watches, in their order.
    pub open spec fn chunks_to_clean(self, chunks: Seq<Vector2>) -> Seq<(Vector2, SyncChunk)> {
        chunks.filter_map(
            |chunk: Vector2|
                if self.is_unwatched(chunk.key()) && self.loaded_chunks.contains_key(chunk.key()) {
                    Some((chunk, self.loaded_chunks[chunk.key()]))
                } else {
                    None
                },
        )
    }

    /// The level once the chunks of the list that nobody watches are no longer loaded.
    pub open spec fn cleaned(self, written: Seq<(Vector2, SyncChunk)>) -> LevelView {
        LevelView {
            loaded_chunks: Map::new(
                |key: (i32, i32)|
                    self.loaded_chunks.contains_key(key) && !(is_listed(
                        written,
                        Vector2::of_key(key),
                    ) && self.is_unwatched(key)),
                |key: (i32, i32)| self.loaded_chunks[key],
            ),
            ..self
        }
    }

    /// The level once what nobody watches is forgotten.
    pub open spec fn memory_cleaned(self) -> LevelView {
        LevelView {
            chunk_watchers: Map::new(
                |key: (i32, i32)| !self.is_unwatched(key),
                |key: (i32, i32)| self.chunk_watchers[key],
            ),
            loaded_chunks: Map::new(
                |key: (i32, i32)|
                    self.loaded_chunks.contains_key(key) && !self.is_unwatched(key),
                |key: (i32, i32)| self.loaded_chunks[key],
            ),
            ..self
        }
    }

    /// The chunks to which the loaded chunks or the spawn chunks refer, and those that are
    /// held.
    pub open spec fn referenced(self) -> Set<SyncChunk> {
        Set::new(
            |name: SyncChunk|
                {
                    ||| self.loaded_chunks.contains_value(name)
                    ||| self.spawn_chunks.contains_value(name)
                    ||| self.held_chunks.contains(name)
                },
        )
    }

    /// The level once the named chunks are held, each as often as it is named.
    pub open spec fn with_held(self, names: Seq<SyncChunk>) -> LevelView {
        LevelView { held_chunks: self.held_chunks.add(names.to_multiset()), ..self }
    }

    /// The level once the named chunks are released, each as often as it is named.
    pub open spec fn without_held(self, names: Seq<SyncChunk>) -> LevelView {
        LevelView { held_chunks: self.held_chunks.sub(names.to_multiset()), ..self }
    }

    /// The level once the chunks of a list are handed out to be written.
    pub open spec fn holding(self, chunks: Seq<(Vector2, SyncChunk)>) -> LevelView {
        self.with_held(names_of(chunks))
    }

    /// The level once the chunks of a list are no longer to be written.
    pub open spec fn released(self, chunks: Seq<(Vector2, SyncChunk)>) -> LevelView {
        self.without_held(names_of(chunks))
    }

    /// Whether every chunk of the list is in memory.
    pub open spec fn holds_all(self, chunks: Seq<(Vector2, SyncChunk)>) -> bool {
        forall|i: int| 0 <= i < chunks.len() ==> self.chunks.contains_key((#[trigger] chunks[i]).1)
    }
}

/// A chunk more in a list.
proof fn lemma_is_listed_push(
    chunks: Seq<(Vector2, SyncChunk)>,
    more: (Vector2, SyncChunk),
    coord: Vector2,
)
    ensures
        is_listed(chunks.push(more), coord) <==> is_listed(chunks, coord) || more.0 == coord,
{
    let longer = chunks.push(more);
    if is_listed(chunks, coord) {
        let j = choose|j: int| 0 <= j < chunks.len() && (#[trigger] chunks[j]).0 == coord;
        assert(longer[j].0 == coord);
    }
    if more.0 == coord {
        assert(longer[chunks.len() as int].0 == coord);
    }
    if is_listed(longer, coord) && more.0 != coord {
        let j = choose|j: int| 0 <= j < longer.len() && (#[trigger] longer[j]).0 == coord;
        assert(chunks[j].0 == coord);
    }
}

/// What stays, and what the next chunk of a list takes along.
pub(crate) proof fn lemma_ticks_next(
    ticks: Seq<ScheduledTick>,
    chunks: Seq<(Vector2, SyncChunk)>,
    more: (Vector2, SyncChunk),
)
    ensures
        ticks_outside(ticks_kept(ticks, chunks), more.0) == ticks_kept(ticks, chunks.push(more)),
        ticks_in(ticks_kept(ticks, chunks), more.0) == ticks_taken(
            ticks,
            chunks.push(more),
            chunks.len() as int,
        ),
{
    let kept = |tick: ScheduledTick| !is_listed(chunks, tick.block_pos.chunk());
    let outside = |tick: ScheduledTick| tick.block_pos.chunk() != more.0;
    let inside = |tick: ScheduledTick| tick.block_pos.chunk() == more.0;
    lemma_filter_twice(ticks, kept, outside);
    lemma_filter_twice(ticks, kept, inside);
    assert forall|i: int| 0 <= i < ticks.len() implies (kept(#[trigger] ticks[i]) && outside(
        ticks[i],
    )) == !is_listed(chunks.push(more), ticks[i].block_pos.chunk()) by {
        lemma_is_listed_push(chunks, more, ticks[i].block_pos.chunk());
    }
    lemma_filter_agree(
        ticks,
        |tick: ScheduledTick| kept(tick) && outside(tick),
        |tick: ScheduledTick| !is_listed(chunks.push(more), tick.block_pos.chunk()),
    );
    assert(chunks.push(more).take(chunks.len() as int) =~= chunks);
    let both = |tick: ScheduledTick| kept(tick) && inside(tick);
    if is_listed(chunks, more.0) {
        lemma_filter_none(ticks, both);
    } else {
        lemma_filter_agree(ticks, both, inside);
    }
}

/// Where a chunk stands last in a list.
pub(crate) proof fn lemma_last_place(chunks: Seq<(Vector2, SyncChunk)>, name: SyncChunk)
    ensures
        -1 <= last_place(chunks, name) < chunks.len(),
        last_place(chunks, name) >= 0 ==> chunks[last_place(chunks, name)].1 == name,
        forall|i: int|
            last_place(chunks, name) < i < chunks.len() ==> (#[trigger] chunks[i]).1 != name,
    decreases chunks.len(),
{
    if chunks.len() > 0 && chunks.last().1 != name {
        lemma_last_place(chunks.drop_last(), name);
        assert forall|i: int| last_place(chunks, name) < i < chunks.len() implies (
        #[trigger] chunks[i]).1 != name by {
            if i < chunks.len() - 1 {
                assert(chunks.drop_last()[i] == chunks[i]);
            }
        }
    }
}

/// A chunk more is written.
pub(crate) proof fn lemma_written_next(
    level: LevelView,
    chunks: Seq<(Vector2, SyncChunk)>,
    more: (Vector2, SyncChunk),
)
    requires
        level.chunks.contains_key(more.1),
    ensures
        level.written(chunks.push(more)) == (LevelView {
            block_ticks: ticks_outside(level.written(chunks).block_ticks, more.0),
            fluid_ticks: ticks_outside(level.written(chunks).fluid_ticks, more.0),
            chunks: level.written(chunks).chunks.insert(
                more.1,
                ChunkView {
                    block_ticks: ticks_in(level.written(chunks).block_ticks, more.0),
                    fluid_ticks: ticks_in(level.written(chunks).fluid_ticks, more.0),
                    ..level.written(chunks).chunks[more.1]
                },
            ),
            ..level.written(chunks)
        }),
{
    let longer = chunks.push(more);
    lemma_ticks_next(level.block_ticks, chunks, more);
    lemma_ticks_next(level.fluid_ticks, chunks, more);
    assert(longer.drop_last() =~= chunks);
    assert forall|name: SyncChunk| name != more.1 && level.chunks.contains_key(name) implies
        #[trigger] level.written_chunk(longer, name) == level.written_chunk(chunks, name) by {
        lemma_last_place(chunks, name);
        let place = last_place(chunks, name);
        assert(last_place(longer, name) == place);
        if place >= 0 {
            assert(longer.take(place) =~= chunks.take(place));
            assert(longer[place] == chunks[place]);
        }
    }
    assert(last_place(longer, more.1) == chunks.len());
    assert(level.written(longer).chunks =~= level.written(chunks).chunks.insert(
        more.1,
        ChunkView {
            block_ticks: ticks_in(level.written(chunks).block_ticks, more.0),
            fluid_ticks: ticks_in(level.written(chunks).fluid_ticks, more.0),
            ..level.written(chunks).chunks[more.1]
        },
    ));
}

impl Level {
    /// Gives a chunk the ticks that it takes along.
    fn store_ticks(
        &mut self,
        name: SyncChunk,
        block_ticks: Vec<ScheduledTick>,
        fluid_ticks: Vec<ScheduledTick>,
    )
        requires
            old(self)@.chunks.contains_key(name),
        ensures
            final(self)@ == (LevelView {
                chunks: old(self)@.chunks.insert(
                    name,
                    ChunkView {
                        block_ticks: block_ticks@,
                        fluid_ticks: fluid_ticks@,
                        ..old(self)@.chunks[name]
                    },
                ),
                ..old(self)@
            }),
    {
        if let Some(mut chunk) = self.state.chunks.take(name) {
            chunk.block_ticks = block_ticks;
            chunk.fluid_ticks = fluid_ticks;
            self.state.chunks.put(name, chunk);
        }
        assert(self@.chunks =~= old(self)@.chunks.insert(
            name,
            ChunkView {
                block_ticks: block_ticks@,
                fluid_ticks: fluid_ticks@,
                ..old(self)@.chunks[name]
            },
        ));
    }

    /// Makes chunks ready to be written: each takes along the ticks that are scheduled at its
    /// coordinate, which leave the level. Ticks at other coordinates stay.
    pub fn write_chunks(&mut self, chunks_to_write: &[(Vector2, SyncChunk)])
        requires
            old(self)@.wf(),
            old(self)@.holds_all(chunks_to_write@),
        ensures
            final(self)@.wf(),
            final(self)@ == old(self)@.written(chunks_to_write@),
    {
        let mut i: usize = 0;
        let ghost before = self@;
        proof {
            lemma_written_nothing(before);
            assert(chunks_to_write@.take(0) =~= Seq::empty());
        }
        while i < chunks_to_write.len()
            invariant
                i <= chunks_to_write@.len(),
                before.holds_all(chunks_to_write@),
                self@ == before.written(chunks_to_write@.take(i as int)),
            decreases chunks_to_write@.len() - i,
        {
            let (coord, name) = chunks_to_write[i];
            proof {
                assert(chunks_to_write@.take(i + 1) =~= chunks_to_write@.take(i as int).push(
                    chunks_to_write@[i as int],
                ));
                lemma_written_next(
                    before,
                    chunks_to_write@.take(i as int),
                    chunks_to_write@[i as int],
                );
            }
            let block_ticks = take_ticks_in(&mut self.state.block_ticks, coord);
            let fluid_ticks = take_ticks_in(&mut self.state.fluid_ticks, coord);
            self.store_ticks(name, block_ticks, fluid_ticks);
            i = i + 1;
        }
        assert(chunks_to_write@.take(i as int) =~= chunks_to_write@);
    }
}

impl Level {
    /// The chunks that are loaded, in no particular order.
    pub fn list_cached(&self) -> (cached: Vec<(Vector2, SyncChunk)>)
        ensures
            lists_all(cached@, self@.loaded_chunks),
    {
        let entries = cell_entries(&self.state.loaded_chunks);
        let mut cached: Vec<(Vector2, SyncChunk)> = Vec::new();
        let mut i: usize = 0;
        while i < entries.len()
            invariant
                i <= entries@.len(),
                cached@.len() == i,
                forall|j: int|
                    0 <= j < i ==> #[trigger] cached@[j] == (
                        Vector2::of_key(entries@[j].0),
                        entries@[j].1,
                    ),
            decreases entries@.len() - i,
        {
            let (key, name) = entries[i];
            cached.push((Vector2 { x: key.0, z: key.1 }, name));
            i = i + 1;
        }
        proof {
            assert forall|coord: Vector2, name: SyncChunk| #[trigger]
                cached@.contains((coord, name)) <==> self@.loaded_chunks.contains_pair(
                    coord.key(),
                    name,
                ) by {
                if cached@.contains((coord, name)) {
                    let j = choose|j: int| 0 <= j < cached@.len() && cached@[j] == (coord, name);
                    assert(entries@[j] == (coord.key(), name));
                }
                assert(entries@.contains((coord.key(), name)) <==> cells(
                    self.state.loaded_chunks,
                ).contains_pair(coord.key(), name));
                if entries@.contains((coord.key(), name)) {
                    let j = choose|j: int|
                        0 <= j < entries@.len() && entries@[j] == (coord.key(), name);
                    assert(cached@[j] == (coord, name));
                }
            }
            assert forall|i: int, j: int| 0 <= i < j < cached@.len() implies cached@[i]
                != cached@[j] by {
                assert(entries@[i] != entries@[j]);
            }
        }
        cached
    }

    /// Empties the level before it is shut down: every loaded chunk is handed out to be
    /// written, and no chunk counts as loaded any more. The chunks stay in memory until they
    /// are released; their ticks stay in the level until the chunks are written.
    pub fn shutdown(&mut self) -> (chunks_to_write: Vec<(Vector2, SyncChunk)>)
        requires
            old(self)@.wf(),
        ensures
            final(self)@.wf(),
            lists_all(chunks_to_write@, old(self)@.loaded_chunks),
            final(self)@ == (LevelView {
                loaded_chunks: no_cells(),
                ..old(self)@.holding(chunks_to_write@)
            }),
            final(self)@.holds_all(chunks_to_write@),
    {
        let chunks_to_write = self.list_cached();
        proof {
            assert forall|i: int| 0 <= i < chunks_to_write@.len() implies self@.chunks.contains_key(
                (#[trigger] chunks_to_write@[i]).1,
            ) by {
                let (coord, name) = chunks_to_write@[i];
                assert(chunks_to_write@.contains((coord, name)));
                assert(self@.loaded_chunks.contains_key(coord.key()));
            }
        }
        self.hold_chunks(&chunks_to_write);
        clear_cells(&mut self.state.loaded_chunks);
        assert(self@ == (LevelView {
            loaded_chunks: no_cells(),
            ..old(self)@.holding(chunks_to_write@)
        }));
        chunks_to_write
    }

    /// Whether nobody watches the chunk filed under `key`: it has no entry, or its count is 0.
    fn has_no_watchers(&self, key: (i32, i32)) -> (unwatched: bool)
        ensures
            unwatched == self@.is_unwatched(key),
    {
        match get_cell(&self.state.chunk_watchers, key) {
            Some(count) => is_zero(count),
            None => true,
        }
    }

    /// The chunks of a list that are loaded and that nobody watches.
    fn unwatched_of(&self, chunks: &[Vector2]) -> (unwatched: Vec<(Vector2, SyncChunk)>)
        ensures
            unwatched@ == self@.chunks_to_clean(chunks@),
    {
        let mut unwatched: Vec<(Vector2, SyncChunk)> = Vec::new();
        let mut i: usize = 0;
        proof {
            reveal(Seq::filter_map);
            assert(chunks@.take(0) =~= Seq::empty());
        }
        while i < chunks.len()
            invariant
                i <= chunks@.len(),
                unwatched@ == self@.chunks_to_clean(chunks@.take(i as int)),
            decreases chunks@.len() - i,
        {
            let pos = chunks[i];
            proof {
                reveal(Seq::filter_map);
                assert(chunks@.take(i + 1).drop_last() =~= chunks@.take(i as int));
            }
            if self.has_no_watchers(pos.key()) {
                if let Some(name) = get_cell(&self.state.loaded_chunks, pos.key()) {
                    unwatched.push((pos, name));
                }
            }
            i = i + 1;
        }
        assert(chunks@.take(i as int) =~= chunks@);
        unwatched
    }

    /// Starts to clean chunks: hands out those that are loaded and that nobody watches. They
    /// are to be written first, and only then to leave memory; they stay in memory until they
    /// are released.
    pub fn clean_chunks(&mut self, chunks: &[Vector2]) -> (chunks_with_no_watchers: Vec<
        (Vector2, SyncChunk),
    >)
        requires
            old(self)@.wf(),
        ensures
            final(self)@.wf(),
            chunks_with_no_watchers@ == old(self)@.chunks_to_clean(chunks@),
            final(self)@ == old(self)@.holding(chunks_with_no_watchers@),
            final(self)@.holds_all(chunks_with_no_watchers@),
    {
        let chunks_with_no_watchers = self.unwatched_of(chunks);
        proof {
            lemma_cleaned_are_held(self@, chunks@);
        }
        self.hold_chunks(&chunks_with_no_watchers);
        chunks_with_no_watchers
    }

    /// Starts to clean one chunk.
    pub fn clean_chunk(&mut self, chunk: &Vector2) -> (chunks_with_no_watchers: Vec<
        (Vector2, SyncChunk),
    >)
        requires
            old(self)@.wf(),
        ensures
            final(self)@.wf(),
            chunks_with_no_watchers@ == old(self)@.chunks_to_clean(seq![*chunk]),
            final(self)@ == old(self)@.holding(chunks_with_no_watchers@),
            final(self)@.holds_all(chunks_with_no_watchers@),
    {
        let chunks = [*chunk];
        assert(chunks@ =~= seq![*chunk]);
        self.clean_chunks(&chunks)
    }

    /// Keeps a chunk in memory until it is released, and returns whether it is in memory at
    /// all.
    pub fn hold_chunk(&mut self, chunk: SyncChunk) -> (is_held: bool)
        requires
            old(self)@.wf(),
        ensures
            final(self)@.wf(),
            is_held == old(self)@.chunks.contains_key(chunk),
            final(self)@ == if is_held {
                old(self)@.with_held(seq![chunk])
            } else {
                old(self)@
            },
    {
        if self.chunk(chunk).is_none() {
            return false;
        }
        self.hold_one(chunk);
        true
    }

    /// Keeps a chunk in memory until it is released.
    pub(crate) fn hold_one(&mut self, chunk: SyncChunk)
        requires
            old(self)@.wf(),
            old(self)@.chunks.contains_key(chunk),
        ensures
            final(self)@.wf(),
            final(self)@ == old(self)@.with_held(seq![chunk]),
    {
        broadcast use vstd::seq_lib::group_to_multiset_ensures;

        let ghost before = self@;
        self.state.held_chunks.push(chunk);
        proof {
            assert(seq![chunk] =~= Seq::empty().push(chunk));
            assert(self@.held_chunks =~= before.with_held(seq![chunk]).held_chunks);
            assert(self@ == before.with_held(seq![chunk]));
            assert forall|name: SyncChunk| #[trigger] self@.held_chunks.contains(name) implies
                self@.chunks.contains_key(name) by {
                assert(name == chunk || before.held_chunks.contains(name));
            }
        }
    }

    /// Releases a chunk that was held, once.
    pub fn release_chunk(&mut self, chunk: SyncChunk)
        requires
            old(self)@.wf(),
        ensures
            final(self)@.wf(),
            final(self)@ == old(self)@.without_held(seq![chunk]),
    {
        broadcast use vstd::seq_lib::group_to_multiset_ensures;

        let ghost before = self@;
        release_one(&mut self.state.held_chunks, chunk);
        proof {
            assert(seq![chunk] =~= Seq::empty().push(chunk));
            assert(self@.held_chunks =~= before.without_held(seq![chunk]).held_chunks);
            assert(self@ == before.without_held(seq![chunk]));
            assert forall|name: SyncChunk| #[trigger] self@.held_chunks.contains(name) implies
                self@.chunks.contains_key(name) by {
                assert(before.held_chunks.contains(name));
            }
        }
    }

    /// Keeps the chunks of a list in memory until they are released.
    fn hold_chunks(&mut self, chunks: &[(Vector2, SyncChunk)])
        requires
            old(self)@.wf(),
            old(self)@.holds_all(chunks@),
        ensures
            final(self)@.wf(),
            final(self)@ == old(self)@.holding(chunks@),
    {
        broadcast use vstd::seq_lib::group_to_multiset_ensures;

        let ghost before = self@;
        let mut i: usize = 0;
        proof {
            assert(names_of(chunks@.take(0)) =~= Seq::empty());
            assert(before.holding(chunks@.take(0)).held_chunks =~= before.held_chunks);
        }
        while i < chunks.len()
            invariant
                i <= chunks@.len(),
                before.holds_all(chunks@),
                self@.wf(),
                self@ == before.holding(chunks@.take(i as int)),
            decreases chunks@.len() - i,
        {
            let name = chunks[i].1;
            assert(before.chunks.contains_key(chunks@[i as int].1));
            self.hold_one(name);
            proof {
                assert(names_of(chunks@.take(i + 1)) =~= names_of(chunks@.take(i as int)).push(
                    name,
                ));
                lemma_held_push(before, names_of(chunks@.take(i as int)), name);
            }
            i = i + 1;
        }
        assert(chunks@.take(i as int) =~= chunks@);
    }

    /// Ends the writing of chunks that were handed out: they may leave memory.
    pub fn release_chunks(&mut self, chunks: &[(Vector2, SyncChunk)])
        requires
            old(self)@.wf(),
        ensures
            final(self)@.wf(),
            final(self)@ == old(self)@.released(chunks@),
    {
        broadcast use vstd::seq_lib::group_to_multiset_ensures;

        let ghost before = self@;
        let mut i: usize = 0;
        proof {
            assert(names_of(chunks@.take(0)) =~= Seq::empty());
            assert(before.released(chunks@.take(0)).held_chunks =~= before.held_chunks);
        }
        while i < chunks.len()
            invariant
                i <= chunks@.len(),
                before.wf(),
                self@.wf(),
                self@ == before.released(chunks@.take(i as int)),
            decreases chunks@.len() - i,
        {
            broadcast use vstd::seq_lib::group_to_multiset_ensures;

            let name = chunks[i].1;
            self.release_chunk(name);
            proof {
                assert(names_of(chunks@.take(i + 1)) =~= names_of(chunks@.take(i as int)).push(
                    name,
                ));
                assert(seq![name] =~= Seq::empty().push(name));
                assert(self@.held_chunks =~= before.released(chunks@.take(i + 1)).held_chunks);
            }
            i = i + 1;
        }
        assert(chunks@.take(i as int) =~= chunks@);
    }

    /// Ends a cleaning once its chunks have been written: those that still nobody watches are
    /// no longer loaded. A chunk that has got a watcher meanwhile stays.
    pub fn remove_cleaned_chunks(&mut self, written: &[(Vector2, SyncChunk)])
        requires
            old(self)@.wf(),
        ensures
            final(self)@.wf(),
            final(self)@ == old(self)@.cleaned(written@),
    {
        let ghost before = self@;
        let mut i: usize = 0;
        proof {
            assert(written@.take(0) =~= Seq::empty());
            assert(before.cleaned(written@.take(0)).loaded_chunks =~= before.loaded_chunks);
        }
        while i < written.len()
            invariant
                i <= written@.len(),
                self@ == before.cleaned(written@.take(i as int)),
            decreases written@.len() - i,
        {
            let key = written[i].0.key();
            let unwatched = self.has_no_watchers(key);
            remove_cell_if(&mut self.state.loaded_chunks, key, unwatched);
            proof {
                let done = written@.take(i as int);
                assert(written@.take(i + 1) =~= done.push(written@[i as int]));
                assert forall|k: (i32, i32)| #[trigger]
                    is_listed(written@.take(i + 1), Vector2::of_key(k)) <==> is_listed(
                        done,
                        Vector2::of_key(k),
                    ) || k == key by {
                    lemma_is_listed_push(done, written@[i as int], Vector2::of_key(k));
                }
                assert(self@.loaded_chunks =~= before.cleaned(written@.take(i + 1)).loaded_chunks);
            }
            i = i + 1;
        }
        assert(written@.take(i as int) =~= written@);
    }

    /// Forgets the entries of watchers that count 0 and every loaded chunk that nobody
    /// watches, and gives back room that lies idle.
    pub fn clean_memory(&mut self)
        requires
            old(self)@.wf(),
        ensures
            final(self)@.wf(),
            final(self)@ == old(self)@.memory_cleaned(),
    {
        let is_counted = |_key: (i32, i32), count: usize| -> (keep: bool)
            ensures
                keep == (count != 0),
            { !is_zero(count) };
        retain_cells(&mut self.state.chunk_watchers, is_counted);
        let watchers = &self.state.chunk_watchers;
        let is_watched = |key: (i32, i32), _name: SyncChunk| -> (keep: bool)
            ensures
                keep == cells(*watchers).contains_key(key),
            { get_cell(watchers, key).is_some() };
        retain_cells(&mut self.state.loaded_chunks, is_watched);
        if is_too_idle(cell_capacity(&self.state.chunk_watchers), cell_count(&self.state.chunk_watchers)) {
            shrink_cells(&mut self.state.chunk_watchers);
        }
        if is_too_idle(cell_capacity(&self.state.loaded_chunks), cell_count(&self.state.loaded_chunks)) {
            shrink_cells(&mut self.state.loaded_chunks);
        }
        assert(self@ =~= old(self)@.memory_cleaned());
    }

    /// How many chunks are loaded.
    pub fn loaded_chunk_count(&self) -> (count: usize)
        ensures
            count == self@.loaded_chunks.len(),
    {
        cell_count(&self.state.loaded_chunks)
    }

    /// Frees the chunks to which neither the loaded chunks nor the spawn chunks refer and that
    /// are not held.
    pub fn drop_unreferenced_chunks(&mut self)
        requires
            old(self)@.wf(),
        ensures
            final(self)@.wf(),
            final(self)@ == (LevelView {
                chunks: old(self)@.chunks.restrict(old(self)@.referenced()),
                ..old(self)@
            }),
    {
        let ghost before = self@;
        let loaded = cell_entries(&self.state.loaded_chunks);
        let spawn = cell_entries(&self.state.spawn_chunks);
        let mut names = self.state.held_chunks.clone();
        let ghost held = names@;
        extend_names(&mut names, &loaded);
        let ghost held_or_loaded = names@;
        extend_names(&mut names, &spawn);
        proof {
            assert(held =~= self.state.held_chunks@);
            assert forall|name: SyncChunk| #[trigger]
                names@.contains(name) <==> before.referenced().contains(name) by {
                lemma_entries_refer(loaded@, before.loaded_chunks, name);
                lemma_entries_refer(spawn@, before.spawn_chunks, name);
                lemma_add_has(
                    held,
                    loaded@.map_values(|entry: ((i32, i32), usize)| entry.1),
                    name,
                );
                lemma_add_has(
                    held_or_loaded,
                    spawn@.map_values(|entry: ((i32, i32), usize)| entry.1),
                    name,
                );
                self.state.held_chunks@.to_multiset_ensures();
            }
            assert(Set::new(|name: SyncChunk| names@.contains(name)) =~= before.referenced());
        }
        self.state.chunks.keep_only(&names);
        assert(self@ == (LevelView {
            chunks: before.chunks.restrict(before.referenced()),
            ..before
        }));
    }
}

/// One chunk more is held.
pub(crate) proof fn lemma_held_push(level: LevelView, names: Seq<SyncChunk>, name: SyncChunk)
    ensures
        level.with_held(names).with_held(seq![name]) == level.with_held(names.push(name)),
{
    broadcast use vstd::seq_lib::group_to_multiset_ensures;

    assert(seq![name] =~= Seq::empty().push(name));
    assert(level.with_held(names).with_held(seq![name]).held_chunks =~= level.with_held(
        names.push(name),
    ).held_chunks);
}

/// Takes a name out of a list of names, once.
fn release_one(held: &mut Vec<SyncChunk>, name: SyncChunk)
    ensures
        final(held)@.to_multiset() == old(held)@.to_multiset().remove(name),
{
    broadcast use vstd::seq_lib::group_to_multiset_ensures;

    let mut i: usize = 0;
    while i < held.len()
        invariant
            i <= held@.len(),
            held@ == old(held)@,
            forall|j: int| 0 <= j < i ==> #[trigger] held@[j] != name,
        decreases held@.len() - i,
    {
        if held[i] == name {
            held.remove(i);
            proof {
                vstd::seq_lib::to_multiset_remove(old(held)@, i as int);
            }
            return;
        }
        i = i + 1;
    }
    proof {
        assert(!held@.contains(name));
        assert(held@.to_multiset() =~= old(held)@.to_multiset().remove(name));
    }
}

/// The chunks that are to be cleaned are in memory.
proof fn lemma_cleaned_are_held(level: LevelView, chunks: Seq<Vector2>)
    requires
        level.wf(),
    ensures
        level.holds_all(level.chunks_to_clean(chunks)),
    decreases chunks.len(),
{
    reveal(Seq::filter_map);
    if chunks.len() > 0 {
        lemma_cleaned_are_held(level, chunks.drop_last());
        let list = level.chunks_to_clean(chunks.drop_last());
        let longer = level.chunks_to_clean(chunks);
        assert forall|i: int| 0 <= i < longer.len() implies level.chunks.contains_key(
            (#[trigger] longer[i]).1,
        ) by {
            if i < list.len() {
                assert(longer[i] == list[i]);
            } else {
                assert(level.loaded_chunks.contains_key(chunks.last().key()));
            }
        }
    }
}

/// Puts the values of a list of entries behind a list of names.
fn extend_names(names: &mut Vec<SyncChunk>, entries: &Vec<((i32, i32), usize)>)
    ensures
        final(names)@ == old(names)@ + entries@.map_values(|entry: ((i32, i32), usize)| entry.1),
{
    let ghost values = entries@.map_values(|entry: ((i32, i32), usize)| entry.1);
    let mut i: usize = 0;
    while i < entries.len()
        invariant
            i <= entries@.len(),
            values == entries@.map_values(|entry: ((i32, i32), usize)| entry.1),
            names@ == old(names)@ + values.take(i as int),
        decreases entries@.len() - i,
    {
        names.push(entries[i].1);
        i = i + 1;
        assert(values.take(i as int) =~= values.take(i - 1).push(values[i - 1]));
    }
    assert(values.take(i as int) =~= values);
}

/// The entries of a map have its values.
proof fn lemma_entries_refer(
    entries: Seq<((i32, i32), usize)>,
    map: Map<(i32, i32), usize>,
    name: SyncChunk,
)
    requires
        forall|key: (i32, i32), value: usize| #[trigger]
            entries.contains((key, value)) <==> map.contains_pair(key, value),
    ensures
        entries.map_values(|entry: ((i32, i32), usize)| entry.1).contains(name)
            <==> map.contains_value(name),
{
    let values = entries.map_values(|entry: ((i32, i32), usize)| entry.1);
    if values.contains(name) {
        let j = choose|j: int| 0 <= j < values.len() && values[j] == name;
        let (key, value) = entries[j];
        assert(entries.contains((key, value)));
        assert(map.contains_key(key) && map[key] == name);
    }
    if map.contains_value(name) {
        let key = choose|key: (i32, i32)| #[trigger] map.dom().contains(key) && map[key] == name;
        assert(entries.contains((key, name)));
        let j = choose|j: int| 0 <= j < entries.len() && entries[j] == (key, name);
        assert(values[j] == name);
    }
}

/// Whether a map has so much idle room that it should give some back.
pub fn is_too_idle(capacity: usize, len: usize) -> (idle: bool)
    requires
        capacity >= len,
    ensures
        idle == (capacity - len >= 4096),
{
    capacity - len >= MAX_IDLE_ENTRIES
}

/// Nothing is written.
pub(crate) proof fn lemma_written_nothing(level: LevelView)
    ensures
        level.written(Seq::empty()) == level,
{
    let none = Seq::<(Vector2, SyncChunk)>::empty();
    assert(level.written(none).chunks =~= level.chunks);
    let all = |tick: ScheduledTick| !is_listed(none, tick.block_pos.chunk());
    lemma_filter_all(level.block_ticks, all);
    lemma_filter_all(level.fluid_ticks, all);
}

} // verus!
