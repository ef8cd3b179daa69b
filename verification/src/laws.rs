//! What holds of the level as a whole.

use crate::chunk::{place_of, BlockStateId, ChunkReadingError, ChunkView, LoadedData};
use crate::level::fetch::{message_names, with_spawn_chunks};
use crate::level::memory::{
    is_listed, last_place, lemma_last_place, lemma_ticks_next, ticks_kept, ticks_taken,
};
use crate::level::watch::{
    left_unwatched, lemma_times_listed_push, loses_last_watcher, times_listed, watcher_count,
    with_watchers, without_watchers,
};
use crate::level::{LevelView, SyncChunk};
use crate::math::{BlockPos, Vector2};
use crate::player_command::{
    continued, groups_value, player_command_in, signed, var_int_at, Action, ReadingError,
    SPlayerCommand, VarInt,
};
use crate::seqs::{
    lemma_filter_agree, lemma_filter_all, lemma_filter_has, lemma_filter_none, lemma_filter_push,
    lemma_filter_splits, lemma_filter_twice, lemma_push_has,
};
use crate::tick::{
    aged, due_ticks, has_tick_at, has_tick_for, in_priority_order, is_priority_order_of,
    ticks_of_rank, waiting_ticks, ScheduledTick,
};
use vstd::prelude::*;

pub mod chunks;
pub mod fetching;
pub mod folders;
pub mod memory;
pub mod packets;
pub mod ticks;
pub mod watching;

verus! {

/// Unwatching the chunks that were newly watched brings every count back, as long as no count
/// went past the greatest number that it can hold.
pub proof fn law_unwatching_undoes_watching(
    watchers: Map<(i32, i32), usize>,
    chunks: Seq<Vector2>,
)
    requires
        forall|key: (i32, i32)| #[trigger] watchers.contains_key(key) ==> watchers[key] > 0,
        forall|key: (i32, i32)|
            watcher_count(watchers, key) + #[trigger] times_listed(chunks, key) <= usize::MAX,
    ensures
        without_watchers(with_watchers(watchers, chunks), chunks) == watchers,
{
    let more = with_watchers(watchers, chunks);
    assert forall|key: (i32, i32)| #[trigger]
        without_watchers(more, chunks).contains_key(key) <==> watchers.contains_key(key) by {
        assert(watcher_count(watchers, key) + times_listed(chunks, key) <= usize::MAX);
    }
    assert forall|key: (i32, i32)| #[trigger] watchers.contains_key(key) implies without_watchers(
        more,
        chunks,
    )[key] == watchers[key] by {
        assert(watcher_count(watchers, key) + times_listed(chunks, key) <= usize::MAX);
    }
    assert(without_watchers(more, chunks) =~= watchers);
}

/// How often a chunk stands in two lists put together.
proof fn lemma_times_listed_add(a: Seq<Vector2>, b: Seq<Vector2>, key: (i32, i32))
    ensures
        times_listed(a + b, key) == times_listed(a, key) + times_listed(b, key),
{
    Seq::filter_distributes_over_add(a, b, |chunk: Vector2| chunk.key() == key);
}

/// It makes no difference whether chunks are marked as watched in one go or in two.
pub proof fn law_watching_in_two_goes(
    watchers: Map<(i32, i32), usize>,
    first: Seq<Vector2>,
    second: Seq<Vector2>,
)
    ensures
        with_watchers(with_watchers(watchers, first), second) == with_watchers(
            watchers,
            first + second,
        ),
{
    assert forall|key: (i32, i32)| #[trigger]
        times_listed(first + second, key) == times_listed(first, key) + times_listed(second, key) by {
        lemma_times_listed_add(first, second, key);
    }
    assert(with_watchers(with_watchers(watchers, first), second) =~= with_watchers(
        watchers,
        first + second,
    ));
}

/// It makes no difference whether watchers leave in one go or in two.
pub proof fn law_unwatching_in_two_goes(
    watchers: Map<(i32, i32), usize>,
    first: Seq<Vector2>,
    second: Seq<Vector2>,
)
    ensures
        without_watchers(without_watchers(watchers, first), second) == without_watchers(
            watchers,
            first + second,
        ),
{
    assert forall|key: (i32, i32)| #[trigger]
        times_listed(first + second, key) == times_listed(first, key) + times_listed(second, key) by {
        lemma_times_listed_add(first, second, key);
    }
    assert(without_watchers(without_watchers(watchers, first), second) =~= without_watchers(
        watchers,
        first + second,
    ));
}

/// The chunks that are returned to be cleaned are those that were watched before and are not
/// watched after, each once.
pub proof fn law_left_unwatched(watchers: Map<(i32, i32), usize>, chunks: Seq<Vector2>)
    ensures
        left_unwatched(watchers, chunks).no_duplicates(),
        forall|chunk: Vector2| #[trigger]
            left_unwatched(watchers, chunks).contains(chunk) <==> watchers.contains_key(chunk.key())
                && !without_watchers(watchers, chunks).contains_key(chunk.key()),
    decreases chunks.len(),
{
    if chunks.len() == 0 {
        reveal(Seq::filter);
    } else {
        let front = chunks.drop_last();
        let last = chunks.last();
        law_left_unwatched(watchers, front);
        assert(chunks =~= front.push(last));
        let left = left_unwatched(watchers, front);
        lemma_times_listed_push(front, last, last.key());
        assert forall|chunk: Vector2| #[trigger]
            left_unwatched(watchers, chunks).contains(chunk) <==> watchers.contains_key(chunk.key())
                && !without_watchers(watchers, chunks).contains_key(chunk.key()) by {
            lemma_times_listed_push(front, last, chunk.key());
            lemma_push_has(left, last, chunk);
            assert(left.contains(chunk) <==> watchers.contains_key(chunk.key())
                && !without_watchers(watchers, front).contains_key(chunk.key()));
        }
        if loses_last_watcher(watchers, chunks) {
            assert(!left.contains(last));
            assert(left.push(last).no_duplicates());
        }
    }
}

/// After a cleaning those of its chunks that nobody watches are no longer loaded, and all others
/// are loaded as before: also if the chunks are written, and watchers come and go, between the
/// start and the end of the cleaning.
pub proof fn law_cleaning(
    level: LevelView,
    chunks: Seq<Vector2>,
    later: Map<(i32, i32), usize>,
    chunk: Vector2,
)
    ensures
        ({
            let listed = level.chunks_to_clean(chunks);
            let end = (LevelView {
                chunk_watchers: later,
                ..level.holding(listed).written(listed)
            }).cleaned(listed).released(listed);
            let unwatched = level.is_unwatched(chunk.key()) && watcher_count(later, chunk.key())
                == 0;
            &&& chunks.contains(chunk) && unwatched ==> !end.loaded_chunks.contains_key(chunk.key())
            &&& !(chunks.contains(chunk) && unwatched) ==> end.loaded_chunks.get(chunk.key())
                == level.loaded_chunks.get(chunk.key())
        }),
{
    lemma_clean_list(level, chunks, chunk);
    assert(Vector2::of_key(chunk.key()) == chunk);
}

/// Which chunks are listed to be cleaned.
proof fn lemma_clean_list(level: LevelView, chunks: Seq<Vector2>, chunk: Vector2)
    ensures
        is_listed(level.chunks_to_clean(chunks), chunk) <==> {
            &&& chunks.contains(chunk)
            &&& level.is_unwatched(chunk.key())
            &&& level.loaded_chunks.contains_key(chunk.key())
        },
    decreases chunks.len(),
{
    reveal(Seq::filter_map);
    if chunks.len() > 0 {
        let front = chunks.drop_last();
        let last = chunks.last();
        lemma_clean_list(level, front, chunk);
        assert(chunks =~= front.push(last));
        lemma_push_has(front, last, chunk);
        let list = level.chunks_to_clean(front);
        let longer = level.chunks_to_clean(chunks);
        if level.is_unwatched(last.key()) && level.loaded_chunks.contains_key(last.key()) {
            assert(longer =~= list.push((last, level.loaded_chunks[last.key()])));
            if is_listed(list, chunk) {
                let j = choose|j: int| 0 <= j < list.len() && (#[trigger] list[j]).0 == chunk;
                assert(longer[j].0 == chunk);
            }
            if last == chunk {
                assert(longer[list.len() as int].0 == chunk);
            }
            if is_listed(longer, chunk) && last != chunk {
                let j = choose|j: int| 0 <= j < longer.len() && (#[trigger] longer[j]).0 == chunk;
                assert(list[j].0 == chunk);
            }
        } else {
            assert(longer == list);
        }
    }
}

/// After a cleaning of memory a chunk is loaded exactly if it was loaded and is watched, and
/// nothing else has changed. Cleaning memory again changes nothing.
pub proof fn law_clean_memory(level: LevelView)
    requires
        level.wf(),
    ensures
        forall|key: (i32, i32)| #[trigger]
            level.memory_cleaned().loaded_chunks.contains_key(key) <==> level.loaded_chunks.contains_key(
                key,
            ) && level.chunk_watchers.contains_key(key),
        level.memory_cleaned() == (LevelView {
            loaded_chunks: level.memory_cleaned().loaded_chunks,
            ..level
        }),
        level.memory_cleaned().memory_cleaned() == level.memory_cleaned(),
{
    assert(level.memory_cleaned().chunk_watchers =~= level.chunk_watchers);
    assert(level.memory_cleaned().memory_cleaned().loaded_chunks
        =~= level.memory_cleaned().loaded_chunks);
    assert(level.memory_cleaned().memory_cleaned().chunk_watchers
        =~= level.memory_cleaned().chunk_watchers);
}

/// A chunk that nobody watches is out of memory once it has been cleaned and what is no longer
/// referred to has been freed, unless it is a spawn chunk, is loaded at another coordinate or
/// is held otherwise.
pub proof fn law_unwatched_chunks_leave_memory(
    level: LevelView,
    chunks: Seq<Vector2>,
    chunk: Vector2,
)
    requires
        level.wf(),
        chunks.contains(chunk),
        level.is_unwatched(chunk.key()),
        level.loaded_chunks.contains_key(chunk.key()),
        !level.spawn_chunks.contains_value(level.loaded_chunks[chunk.key()]),
        !level.held_chunks.contains(level.loaded_chunks[chunk.key()]),
        forall|key: (i32, i32)| #[trigger]
            level.loaded_chunks.contains_key(key) && level.loaded_chunks[key]
                == level.loaded_chunks[chunk.key()] ==> key == chunk.key(),
    ensures
        ({
            let listed = level.chunks_to_clean(chunks);
            let end = level.holding(listed).written(listed).cleaned(listed).released(listed);
            !end.chunks.restrict(end.referenced()).contains_key(level.loaded_chunks[chunk.key()])
        }),
{
    let listed = level.chunks_to_clean(chunks);
    let end = level.holding(listed).written(listed).cleaned(listed).released(listed);
    let name = level.loaded_chunks[chunk.key()];
    lemma_clean_list(level, chunks, chunk);
    assert(Vector2::of_key(chunk.key()) == chunk);
    if end.loaded_chunks.contains_value(name) {
        let key = choose|key: (i32, i32)| #[trigger]
            end.loaded_chunks.dom().contains(key) && end.loaded_chunks[key] == name;
        assert(level.loaded_chunks.contains_key(key));
    }
}

/// A chunk that is held stays in memory, whatever is watched, fetched, loaded, written, cleaned,
/// emptied or freed, until it is released: one that was handed out to be written, and one that
/// was sent.
pub proof fn law_held_chunks_stay(
    level: LevelView,
    names: Seq<SyncChunk>,
    asked: Seq<Vector2>,
    others: Seq<(Vector2, SyncChunk)>,
    chunk: ChunkView,
    fresh: SyncChunk,
    name: SyncChunk,
)
    requires
        level.wf(),
        forall|i: int|
            0 <= i < names.len() ==> level.chunks.contains_key(#[trigger] names[i]),
        names.contains(name) || level.held_chunks.contains(name),
    ensures
        ({
            let start = level.with_held(names);
            let busy = start.served(asked).with_loaded_chunk(chunk, fresh).memory_cleaned().cleaned(
                others,
            ).written(others);
            let later = (LevelView { loaded_chunks: Map::empty(), ..busy });
            later.chunks.restrict(later.referenced()).contains_key(name)
        }),
{
    broadcast use vstd::seq_lib::group_to_multiset_ensures;

    if names.contains(name) {
        let i = choose|i: int| 0 <= i < names.len() && names[i] == name;
        assert(level.chunks.contains_key(names[i]));
        assert(names.to_multiset().contains(name));
    }
    assert(level.chunks.contains_key(name));
    assert(level.with_held(names).held_chunks.contains(name));
}

/// Spawn chunks are always at hand: whatever is cleaned, written or emptied, they are answered
/// for from memory, so that they are never loaded or generated anew.
pub proof fn law_spawn_chunks_stay(
    level: LevelView,
    written: Seq<(Vector2, SyncChunk)>,
    chunks: Seq<Vector2>,
    chunk: Vector2,
)
    requires
        level.spawn_chunks.contains_key(chunk.key()),
    ensures
        level.cleaned(written).cached(chunk) is Some,
        level.memory_cleaned().cached(chunk) is Some,
        level.written(written).cached(chunk) is Some,
        (LevelView { loaded_chunks: Map::empty(), ..level }).cached(chunk) is Some,
        !level.uncached(chunks).contains(chunk),
{
    lemma_filter_has(chunks, |chunk: Vector2| level.cached(chunk) is None, chunk);
}

/// A fetch accounts for every chunk that is asked for, once: a chunk in memory is sent, any
/// other is to be loaded.
pub proof fn law_fetch_accounts_for_all(level: LevelView, chunks: Seq<Vector2>, chunk: Vector2)
    ensures
        chunks.len() == level.cached_messages(chunks).len() + level.uncached(chunks).len(),
        chunks.contains(chunk) && level.cached(chunk) is Some ==> level.cached_messages(
            chunks,
        ).contains((level.cached(chunk)->Some_0, false)),
        level.uncached(chunks).contains(chunk) <==> chunks.contains(chunk) && level.cached(chunk)
            is None,
    decreases chunks.len(),
{
    reveal(Seq::filter);
    reveal(Seq::filter_map);
    lemma_filter_has(chunks, |chunk: Vector2| level.cached(chunk) is None, chunk);
    if chunks.len() > 0 {
        let front = chunks.drop_last();
        let last = chunks.last();
        law_fetch_accounts_for_all(level, front, chunk);
        assert(chunks =~= front.push(last));
        lemma_push_has(front, last, chunk);
        let sent = level.cached_messages(front);
        if level.cached(last) is Some {
            let message = (level.cached(last)->Some_0, false);
            assert(level.cached_messages(chunks) =~= sent.push(message));
            if level.cached(chunk) is Some {
                lemma_push_has(sent, message, (level.cached(chunk)->Some_0, false));
            }
        } else {
            assert(level.cached_messages(chunks) =~= sent);
        }
    }
}

/// Received chunks are among the spawn chunks afterwards, each under its own position, and no
/// spawn chunk at another position changes.
pub proof fn law_spawn_chunks_are_filed(
    spawn_chunks: Map<(i32, i32), SyncChunk>,
    chunks: Map<SyncChunk, ChunkView>,
    received: Seq<SyncChunk>,
    key: (i32, i32),
)
    ensures
        ({
            let after = with_spawn_chunks(spawn_chunks, chunks, received);
            let is_there = exists|i: int|
                0 <= i < received.len() && chunks[#[trigger] received[i]].position.key() == key;
            &&& is_there ==> {
                &&& after.contains_key(key)
                &&& received.contains(after[key])
                &&& chunks[after[key]].position.key() == key
            }
            &&& !is_there ==> after.get(key) == spawn_chunks.get(key)
        }),
    decreases received.len(),
{
    if received.len() > 0 {
        let front = received.drop_last();
        let last = received.last();
        law_spawn_chunks_are_filed(spawn_chunks, chunks, front, key);
        assert(received =~= front.push(last));
        assert(received[received.len() - 1] == last);
        if exists|i: int|
            0 <= i < front.len() && chunks[#[trigger] front[i]].position.key() == key {
            let i = choose|i: int|
                0 <= i < front.len() && chunks[#[trigger] front[i]].position.key() == key;
            assert(received[i] == front[i]);
            lemma_push_has(front, last, with_spawn_chunks(spawn_chunks, chunks, front)[key]);
        }
        assert forall|i: int|
            0 <= i < received.len() && chunks[#[trigger] received[i]].position.key() == key
                && chunks[last].position.key() != key implies front[i] == received[i] && i
            < front.len() by {}
    }
}

/// An answer of the storage to a fetch, with the chunk that is generated if the storage has
/// none, and the name under which a new chunk is taken up.
pub struct Answer {
    pub data: LoadedData<ChunkView, ChunkReadingError>,
    pub generated: ChunkView,
    pub name: SyncChunk,
}

impl Answer {
    /// The chunk that the answer is about.
    pub open spec fn position(self) -> Vector2 {
        match self.data {
            LoadedData::Loaded(chunk) => chunk.position,
            LoadedData::Missing(pos) => pos,
            LoadedData::Error((pos, _)) => pos,
        }
    }
}

impl LevelView {
    /// The level with the chunk that an answer gives it: the one from storage, or the one that
    /// is generated.
    pub open spec fn with_answer(self, answer: Answer) -> LevelView {
        match answer.data {
            LoadedData::Loaded(chunk) => self.with_loaded_chunk(chunk, answer.name),
            _ => self.with_chunk(answer.position(), answer.generated, answer.name),
        }
    }

    /// What is sent on account of an answer: the chunk that is loaded at its position then, and
    /// whether it had to be generated.
    pub open spec fn answer_message(self, answer: Answer) -> (SyncChunk, bool) {
        (
            self.with_answer(answer).loaded_chunks[answer.position().key()],
            !(answer.data is Loaded),
        )
    }

    /// The level once a fetch has been answered, one answer after the other. The chunks that
    /// were sent are held.
    pub open spec fn fetched(self, chunks: Seq<Vector2>, answers: Seq<Answer>) -> LevelView
        decreases answers.len(),
    {
        if answers.len() == 0 {
            self.served(chunks).with_held(message_names(self.cached_messages(chunks)))
        } else {
            let before = self.fetched(chunks, answers.drop_last());
            before.with_answer(answers.last()).with_held(
                seq![before.answer_message(answers.last()).0],
            )
        }
    }

    /// All that a fetch sends: the chunks in memory, and then one for each answer.
    pub open spec fn fetch_messages(
        self,
        chunks: Seq<Vector2>,
        answers: Seq<Answer>,
    ) -> Seq<(SyncChunk, bool)>
        decreases answers.len(),
    {
        if answers.len() == 0 {
            self.cached_messages(chunks)
        } else {
            self.fetch_messages(chunks, answers.drop_last()).push(
                self.fetched(chunks, answers.drop_last()).answer_message(answers.last()),
            )
        }
    }

    /// The chunks for which a fetch sends something, in the order in which it does.
    pub open spec fn delivered(self, chunks: Seq<Vector2>, answers: Seq<Answer>) -> Seq<Vector2> {
        chunks.filter(|chunk: Vector2| self.cached(chunk) is Some) + answers.map_values(
            |answer: Answer| answer.position(),
        )
    }
}

/// What is sent from memory, chunk by chunk.
proof fn lemma_cached_messages(level: LevelView, chunks: Seq<Vector2>)
    ensures
        ({
            let cached = chunks.filter(|chunk: Vector2| level.cached(chunk) is Some);
            &&& level.cached_messages(chunks).len() == cached.len()
            &&& forall|i: int|
                0 <= i < cached.len() ==> {
                    &&& level.cached(#[trigger] cached[i]) is Some
                    &&& chunks.contains(cached[i])
                    &&& level.cached_messages(chunks)[i] == (
                        level.cached(cached[i])->Some_0,
                        false,
                    )
                }
        }),
    decreases chunks.len(),
{
    reveal(Seq::filter);
    reveal(Seq::filter_map);
    if chunks.len() > 0 {
        let front = chunks.drop_last();
        lemma_cached_messages(level, front);
        let pred = |chunk: Vector2| level.cached(chunk) is Some;
        let cached = chunks.filter(pred);
        assert forall|i: int| 0 <= i < cached.len() implies {
            &&& level.cached(#[trigger] cached[i]) is Some
            &&& chunks.contains(cached[i])
            &&& level.cached_messages(chunks)[i] == (level.cached(cached[i])->Some_0, false)
        } by {
            assert(cached.contains(cached[i]));
            lemma_filter_has(chunks, pred, cached[i]);
            if i < front.filter(pred).len() {
                assert(cached[i] == front.filter(pred)[i]);
            }
        }
    }
}

/// What holds of a fetch after each of its answers.
proof fn lemma_fetched(level: LevelView, chunks: Seq<Vector2>, answers: Seq<Answer>)
    requires
        level.wf(),
    ensures
        level.fetched(chunks, answers).wf(),
        ({
            let end = level.fetched(chunks, answers);
            let messages = level.fetch_messages(chunks, answers);
            let delivered = level.delivered(chunks, answers);
            let from_memory = level.cached_messages(chunks).len();
            &&& messages.len() == delivered.len() == from_memory + answers.len()
            &&& forall|i: int|
                0 <= i < messages.len() ==> {
                    &&& end.loaded_chunks.get((#[trigger] delivered[i]).key()) == Some(
                        messages[i].0,
                    )
                    &&& messages[i].1 <==> i >= from_memory && !(answers[i - from_memory].data is Loaded)
                }
        }),
    decreases answers.len(),
{
    lemma_cached_messages(level, chunks);
    let pred = |chunk: Vector2| level.cached(chunk) is Some;
    let cached = chunks.filter(pred);
    let end = level.fetched(chunks, answers);
    let messages = level.fetch_messages(chunks, answers);
    let delivered = level.delivered(chunks, answers);
    let from_memory = level.cached_messages(chunks).len();
    if answers.len() == 0 {
        assert(delivered =~= cached);
        assert forall|i: int| 0 <= i < messages.len() implies end.loaded_chunks.get(
            (#[trigger] delivered[i]).key(),
        ) == Some(messages[i].0) by {
            assert(level.cached(cached[i]) is Some);
            assert(Vector2::of_key(cached[i].key()) == cached[i]);
        }
        lemma_sent_in_memory(level, chunks);
        lemma_held_wf(level.served(chunks), message_names(level.cached_messages(chunks)));
    } else {
        let front = answers.drop_last();
        let last = answers.last();
        lemma_fetched(level, chunks, front);
        let before = level.fetched(chunks, front);
        let after = before.with_answer(last);
        let earlier = level.delivered(chunks, front);
        assert(after.loaded_chunks.contains_key(last.position().key()));
        assert(after.wf());
        assert forall|i: int| 0 <= i < messages.len() implies {
            &&& end.loaded_chunks.get((#[trigger] delivered[i]).key()) == Some(messages[i].0)
            &&& messages[i].1 <==> i >= from_memory && !(answers[i - from_memory].data is Loaded)
        } by {
            if i < messages.len() - 1 {
                assert(delivered[i] == earlier[i]);
                assert(before.loaded_chunks.contains_key(earlier[i].key()));
                if i >= from_memory {
                    assert(answers[i - from_memory] == front[i - from_memory]);
                }
            } else {
                assert(delivered[i] == last.position());
            }
        }
        let name = before.answer_message(last).0;
        assert(after.chunks.contains_key(name));
        assert(seq![name].len() == 1);
        lemma_held_wf(after, seq![name]);
    }
}

/// Holding chunks that are in memory.
proof fn lemma_held_wf(level: LevelView, names: Seq<SyncChunk>)
    requires
        level.wf(),
        forall|i: int| 0 <= i < names.len() ==> level.chunks.contains_key(#[trigger] names[i]),
    ensures
        level.with_held(names).wf(),
{
    broadcast use vstd::seq_lib::group_to_multiset_ensures;

    let held = level.with_held(names);
    assert forall|name: SyncChunk| #[trigger] held.held_chunks.contains(name) implies
        held.chunks.contains_key(name) by {
        if !level.held_chunks.contains(name) {
            assert(names.to_multiset().contains(name));
            assert(names.contains(name));
            let i = choose|i: int| 0 <= i < names.len() && names[i] == name;
            assert(level.chunks.contains_key(names[i]));
        }
    }
}

/// What is sent from memory is in memory.
proof fn lemma_sent_in_memory(level: LevelView, chunks: Seq<Vector2>)
    requires
        level.wf(),
    ensures
        level.served(chunks).wf(),
        forall|i: int|
            0 <= i < message_names(level.cached_messages(chunks)).len()
                ==> level.chunks.contains_key(
                #[trigger] message_names(level.cached_messages(chunks))[i],
            ),
{
    lemma_cached_messages(level, chunks);
    let cached = chunks.filter(|chunk: Vector2| level.cached(chunk) is Some);
    let names = message_names(level.cached_messages(chunks));
    assert forall|i: int| 0 <= i < names.len() implies level.chunks.contains_key(
        #[trigger] names[i],
    ) by {
        let chunk = cached[i];
        assert(level.cached(chunk) is Some);
        assert(level.loaded_chunks.contains_key(chunk.key())
            || level.spawn_chunks.contains_key(chunk.key()));
    }
    let served = level.served(chunks);
    assert forall|key: (i32, i32)| #[trigger] served.loaded_chunks.contains_key(key) implies
        served.chunks.contains_key(served.loaded_chunks[key]) by {
        assert(level.loaded_chunks.contains_key(key) || level.spawn_chunks.contains_key(key));
    }
}

/// If the storage answers once, in whatever order, for each chunk of a fetch that is not in
/// memory, the fetch sends every chunk that was asked for, once: from memory, from storage or
/// generated. What it sends is the chunk that is loaded at the coordinate in the end, and it is
/// said to be new exactly if the storage has no such chunk or cannot read it. (This is as long
/// as the channel takes what is sent, and nothing else is done to the level meanwhile.)
pub proof fn law_fetch_sends_all(level: LevelView, chunks: Seq<Vector2>, answers: Seq<Answer>)
    requires
        level.wf(),
        chunks.no_duplicates(),
        answers.map_values(|answer: Answer| answer.position()).to_multiset() == level.uncached(
            chunks,
        ).to_multiset(),
    ensures
        level.fetched(chunks, answers).wf(),
        level.delivered(chunks, answers).to_multiset() == chunks.to_multiset(),
        level.fetch_messages(chunks, answers).len() == chunks.len(),
        forall|i: int|
            0 <= i < chunks.len() ==> {
                let chunk = #[trigger] level.delivered(chunks, answers)[i];
                let message = level.fetch_messages(chunks, answers)[i];
                &&& level.fetched(chunks, answers).loaded_chunks.get(chunk.key()) == Some(message.0)
                &&& message.1 <==> exists|j: int|
                    0 <= j < answers.len() && (#[trigger] answers[j]).position() == chunk && !(
                    answers[j].data is Loaded)
            },
{
    broadcast use vstd::seq_lib::group_to_multiset_ensures;

    let is_cached = |chunk: Vector2| level.cached(chunk) is Some;
    let is_uncached = |chunk: Vector2| level.cached(chunk) is None;
    let cached = chunks.filter(is_cached);
    let positions = answers.map_values(|answer: Answer| answer.position());
    let uncached = level.uncached(chunks);
    let delivered = level.delivered(chunks, answers);
    let messages = level.fetch_messages(chunks, answers);
    lemma_fetched(level, chunks, answers);
    lemma_cached_messages(level, chunks);
    lemma_filter_splits(chunks, is_cached, is_uncached);
    vstd::seq_lib::lemma_multiset_commutative(cached, positions);
    assert(delivered.to_multiset() =~= chunks.to_multiset());
    positions.to_multiset_ensures();
    uncached.to_multiset_ensures();
    assert(positions.len() == uncached.len());
    chunks.lemma_multiset_has_no_duplicates();
    assert forall|i: int, j: int| 0 <= i < j < delivered.len() implies delivered[i]
        != delivered[j] by {
        lemma_counted_once(delivered, i, j);
        if delivered[i] == delivered[j] {
            assert(chunks.to_multiset().contains(delivered[i]));
            assert(chunks.to_multiset().count(delivered[i]) == 1);
        }
    }
    assert forall|i: int| 0 <= i < chunks.len() implies {
        let chunk = #[trigger] delivered[i];
        let message = messages[i];
        &&& level.fetched(chunks, answers).loaded_chunks.get(chunk.key()) == Some(message.0)
        &&& message.1 <==> exists|j: int|
            0 <= j < answers.len() && (#[trigger] answers[j]).position() == chunk && !(
            answers[j].data is Loaded)
    } by {
        let chunk = delivered[i];
        let k = i - cached.len();
        if messages[i].1 {
            assert(answers[k].position() == chunk);
        }
        if exists|j: int|
            0 <= j < answers.len() && (#[trigger] answers[j]).position() == chunk && !(
            answers[j].data is Loaded) {
            let j = choose|j: int|
                0 <= j < answers.len() && (#[trigger] answers[j]).position() == chunk && !(
                answers[j].data is Loaded);
            assert(delivered[cached.len() + j] == positions[j]);
            assert(cached.len() + j == i);
        }
    }
}

/// An element that stands at two places is counted twice.
proof fn lemma_counted_once(s: Seq<Vector2>, i: int, j: int)
    requires
        0 <= i < j < s.len(),
    ensures
        s[i] == s[j] ==> s.to_multiset().count(s[i]) >= 2,
{
    broadcast use vstd::seq_lib::group_to_multiset_ensures;

    let front = s.take(j);
    assert(front[i] == s[i]);
    assert(front.contains(s[i]));
    assert(s =~= front + s.skip(j));
    assert(s.skip(j)[0] == s[j]);
    assert(s.skip(j).contains(s[j]));
    vstd::seq_lib::lemma_multiset_commutative(front, s.skip(j));
}

/// No coordinate is handed out for generation again before the generation has ended: whatever
/// else is done to the level, another fetch has to wait, or gets the chunk that is loaded there
/// by then. Once it is finished, another fetch gets its chunk.
pub proof fn law_chunks_are_generated_once(
    level: LevelView,
    pos: Vector2,
    other: Vector2,
    continues: bool,
    asked: Seq<Vector2>,
    list: Seq<(Vector2, SyncChunk)>,
    names: Seq<SyncChunk>,
    chunk: ChunkView,
    name: SyncChunk,
    position: BlockPos,
    id: BlockStateId,
    tick: ScheduledTick,
)
    requires
        level.generating.contains(pos.key()),
    ensures
        !(level.generate_step(pos, continues) is Generate),
        level.with_generating(other).generating.contains(pos.key()),
        other != pos ==> level.without_generating(other).generating.contains(pos.key()),
        level.served(asked).generating == level.generating,
        level.with_chunk(other, chunk, name).generating == level.generating,
        level.with_loaded_chunk(chunk, name).generating == level.generating,
        level.with_held(names).generating == level.generating,
        level.without_held(names).generating == level.generating,
        level.written(list).generating == level.generating,
        level.cleaned(list).generating == level.generating,
        level.memory_cleaned().generating == level.generating,
        level.with_block(position, id).generating == level.generating,
        level.with_block_tick(tick).generating == level.generating,
        level.with_fluid_tick(tick).generating == level.generating,
        ({
            let finished = level.with_chunk(pos, chunk, name).without_generating(pos);
            &&& finished.generate_step(pos, true) is Delivered
            &&& !finished.generating.contains(pos.key())
        }),
{
    if other != pos {
        assert(Vector2::of_key(other.key()) == other && Vector2::of_key(pos.key()) == pos);
    }
}

/// A chunk that is handed out for generation is under generation from then on.
pub proof fn law_generation_is_noted(level: LevelView, pos: Vector2, continues: bool)
    ensures
        level.with_generating(pos).generating.contains(pos.key()),
        !(level.with_generating(pos).generate_step(pos, continues) is Generate),
{
}

/// A fetch does not change what later fetches are sent.
pub proof fn law_fetch_is_repeatable(level: LevelView, chunks: Seq<Vector2>, later: Seq<Vector2>)
    ensures
        level.served(chunks).cached_messages(later) == level.cached_messages(later),
        level.served(chunks).uncached(later) == level.uncached(later),
    decreases later.len(),
{
    reveal(Seq::filter);
    reveal(Seq::filter_map);
    if later.len() > 0 {
        law_fetch_is_repeatable(level, chunks, later.drop_last());
    }
}

/// What is loaded is never replaced, by a fetch, a chunk from storage or a generated chunk.
pub proof fn law_loaded_chunks_stay(
    level: LevelView,
    chunks: Seq<Vector2>,
    coord: Vector2,
    chunk: ChunkView,
    name: SyncChunk,
    key: (i32, i32),
)
    requires
        level.wf(),
        level.loaded_chunks.contains_key(key),
        !level.chunks.contains_key(name),
    ensures
        level.served(chunks).loaded_chunks.get(key) == level.loaded_chunks.get(key),
        level.with_chunk(coord, chunk, name).loaded_chunks.get(key) == level.loaded_chunks.get(key),
        level.with_loaded_chunk(chunk, name).loaded_chunks.get(key) == level.loaded_chunks.get(key),
        level.with_chunk(coord, chunk, name).chunks[level.loaded_chunks[key]]
            == level.chunks[level.loaded_chunks[key]],
        level.with_loaded_chunk(chunk, name).chunks[level.loaded_chunks[key]]
            == level.chunks[level.loaded_chunks[key]],
{
    assert(level.chunks.contains_key(level.loaded_chunks[key]));
}

/// A block that is put in the world is read back there, and no other block changes. (Where one
/// and the same chunk is loaded at two coordinates, a block that changes at the one changes at
/// the other.)
pub proof fn law_block_is_read_back(
    level: LevelView,
    position: BlockPos,
    id: BlockStateId,
    other: BlockPos,
)
    requires
        level.wf(),
        level.block_at(position) is Some,
        level.chunk_of(other) == level.chunk_of(position) && level.block_at(position) != Some(id)
            && place_of(other.relative()) == place_of(position.relative()) ==> other.chunk()
            == position.chunk(),
    ensures
        level.with_block(position, id).wf(),
        level.with_block(position, id).block_at(position) == Some(id),
        other != position ==> level.with_block(position, id).block_at(other) == level.block_at(other),
{
    let at = place_of(position.relative());
    let name = level.chunk_of(position)->Some_0;
    if level.chunks[name].section[at] == id {
        assert(level.chunks.insert(name, level.chunks[name]) =~= level.chunks);
    }
    if other != position && other.chunk() == position.chunk() {
        assert(place_of(other.relative()) != at) by {
            assert(position.0.x == 16 * (position.0.x as int / 16) + position.0.x as int % 16);
            assert(other.0.x == 16 * (other.0.x as int / 16) + other.0.x as int % 16);
            assert(position.0.z == 16 * (position.0.z as int / 16) + position.0.z as int % 16);
            assert(other.0.z == 16 * (other.0.z as int / 16) + other.0.z as int % 16);
        }
    }
}

/// A chunk becomes dirty when a block of it becomes another, and not otherwise.
pub proof fn law_dirty_when_changed(level: LevelView, position: BlockPos, id: BlockStateId)
    requires
        level.wf(),
        level.block_at(position) is Some,
    ensures
        ({
            let name = level.chunk_of(position)->Some_0;
            let after = level.with_block(position, id);
            &&& level.block_at(position) == Some(id) ==> after == level
            &&& level.block_at(position) != Some(id) ==> after.chunks[name].dirty
        }),
{
    let name = level.chunk_of(position)->Some_0;
    if level.block_at(position) == Some(id) {
        assert(level.chunks.insert(name, level.chunks[name]) =~= level.chunks);
    }
}

/// All ticks that the chunks of a list take along.
pub open spec fn all_taken(
    ticks: Seq<ScheduledTick>,
    chunks: Seq<(Vector2, SyncChunk)>,
) -> Seq<ScheduledTick>
    decreases chunks.len(),
{
    if chunks.len() == 0 {
        Seq::empty()
    } else {
        all_taken(ticks, chunks.drop_last()) + ticks_taken(ticks, chunks, chunks.len() - 1)
    }
}

/// No tick is lost or doubled when chunks are written: each stays in the level or goes along
/// with a chunk.
pub proof fn law_writing_conserves_ticks(
    ticks: Seq<ScheduledTick>,
    chunks: Seq<(Vector2, SyncChunk)>,
)
    ensures
        ticks.to_multiset() == ticks_kept(ticks, chunks).to_multiset().add(
            all_taken(ticks, chunks).to_multiset(),
        ),
    decreases chunks.len(),
{
    if chunks.len() == 0 {
        let never = |tick: ScheduledTick| false;
        lemma_filter_splits(
            ticks,
            |tick: ScheduledTick| !is_listed(chunks, tick.block_pos.chunk()),
            never,
        );
        lemma_filter_none(ticks, never);
    } else {
        let front = chunks.drop_last();
        let last = chunks.last();
        assert(chunks =~= front.push(last));
        law_writing_conserves_ticks(ticks, front);
        lemma_ticks_next(ticks, front, last);
        lemma_filter_splits(
            ticks_kept(ticks, front),
            |tick: ScheduledTick| tick.block_pos.chunk() != last.0,
            |tick: ScheduledTick| tick.block_pos.chunk() == last.0,
        );
        vstd::seq_lib::lemma_multiset_commutative(
            all_taken(ticks, front),
            ticks_taken(ticks, chunks, chunks.len() - 1),
        );
        assert(ticks.to_multiset() =~= ticks_kept(ticks, chunks).to_multiset().add(
            all_taken(ticks, chunks).to_multiset(),
        ));
    }
}

/// A chunk that stands once in the list of chunks to write holds the ticks that it took along.
/// (A chunk that stands there twice forgets what it took along the first time.)
pub proof fn law_written_chunks_hold_their_ticks(
    level: LevelView,
    chunks: Seq<(Vector2, SyncChunk)>,
    place: int,
)
    requires
        level.wf(),
        level.holds_all(chunks),
        0 <= place < chunks.len(),
        forall|i: int|
            0 <= i < chunks.len() && (#[trigger] chunks[i]).1 == chunks[place].1 ==> i == place,
    ensures
        level.written(chunks).chunks[chunks[place].1] == (ChunkView {
            block_ticks: ticks_taken(level.block_ticks, chunks, place),
            fluid_ticks: ticks_taken(level.fluid_ticks, chunks, place),
            ..level.chunks[chunks[place].1]
        }),
{
    lemma_last_place(chunks, chunks[place].1);
    assert(last_place(chunks, chunks[place].1) == place) by {
        if last_place(chunks, chunks[place].1) < place {
            assert(chunks[place].1 != chunks[place].1);
        }
    }
}

/// A chunk that is written, leaves memory and is loaded again brings all its ticks back, so
/// that the level waits for the same ticks as before.
pub proof fn law_ticks_survive_storage(
    level: LevelView,
    coord: Vector2,
    name: SyncChunk,
    new_name: SyncChunk,
)
    requires
        level.wf(),
        level.chunks.contains_key(name),
    ensures
        ({
            let stored = level.written(seq![(coord, name)]);
            let again = stored.cleaned(seq![(coord, name)]).with_loaded_chunk(
                stored.chunks[name],
                new_name,
            );
            &&& again.block_ticks.to_multiset() == level.block_ticks.to_multiset()
            &&& again.fluid_ticks.to_multiset() == level.fluid_ticks.to_multiset()
        }),
{
    let list = seq![(coord, name)];
    let stored = level.written(list);
    assert(list.drop_last() =~= Seq::<(Vector2, SyncChunk)>::empty());
    assert(level.holds_all(list));
    law_written_chunks_hold_their_ticks(level, list, 0);
    law_writing_conserves_ticks(level.block_ticks, list);
    law_writing_conserves_ticks(level.fluid_ticks, list);
    reveal_with_fuel(all_taken, 2);
    assert(all_taken(level.block_ticks, list) =~= stored.chunks[name].block_ticks);
    assert(all_taken(level.fluid_ticks, list) =~= stored.chunks[name].fluid_ticks);
    vstd::seq_lib::lemma_multiset_commutative(stored.block_ticks, stored.chunks[name].block_ticks);
    vstd::seq_lib::lemma_multiset_commutative(stored.fluid_ticks, stored.chunks[name].fluid_ticks);
}

/// After how many game ticks a tick comes due: after as many as its delay, but at least one.
pub open spec fn due_after(tick: ScheduledTick) -> nat {
    if tick.delay == 0 {
        1
    } else {
        tick.delay as nat
    }
}

/// The ticks that still wait after `n` game ticks.
pub open spec fn waiting_after(ticks: Seq<ScheduledTick>, n: nat) -> Seq<ScheduledTick>
    decreases n,
{
    if n == 0 {
        ticks
    } else {
        waiting_ticks(waiting_after(ticks, (n - 1) as nat))
    }
}

/// A tick that has waited for `n` game ticks.
pub open spec fn older(tick: ScheduledTick, n: nat) -> ScheduledTick {
    ScheduledTick { delay: if tick.delay <= n { 0 } else { (tick.delay - n) as u16 }, ..tick }
}

/// Changing the elements first and picking among them afterwards.
proof fn lemma_map_filter(
    ticks: Seq<ScheduledTick>,
    f: spec_fn(ScheduledTick) -> ScheduledTick,
    pred: spec_fn(ScheduledTick) -> bool,
)
    ensures
        ticks.map_values(f).filter(pred) == ticks.filter(
            |tick: ScheduledTick| pred(f(tick)),
        ).map_values(f),
    decreases ticks.len(),
{
    reveal(Seq::filter);
    if ticks.len() > 0 {
        let front = ticks.drop_last();
        let picked = |tick: ScheduledTick| pred(f(tick));
        lemma_map_filter(front, f, pred);
        assert(ticks.map_values(f) =~= front.map_values(f).push(f(ticks.last())));
        lemma_filter_push(front.map_values(f), f(ticks.last()), pred);
        assert(ticks.filter(picked).map_values(f) =~= if picked(ticks.last()) {
            front.filter(picked).map_values(f).push(f(ticks.last()))
        } else {
            front.filter(picked).map_values(f)
        });
    } else {
        assert(ticks.map_values(f) =~= ticks);
        assert(ticks.map_values(f).filter(pred) =~= Seq::empty());
        assert(ticks.filter(|tick: ScheduledTick| pred(f(tick))).map_values(f) =~= Seq::empty());
    }
}

/// A tick waits until its delay has passed, and comes due then: once, and not before.
pub proof fn law_ticks_come_due_in_time(ticks: Seq<ScheduledTick>, n: nat)
    ensures
        waiting_after(ticks, n) == ticks.filter(
            |tick: ScheduledTick| due_after(tick) > n,
        ).map_values(|tick: ScheduledTick| older(tick, n)),
        due_ticks(waiting_after(ticks, n)) == ticks.filter(
            |tick: ScheduledTick| due_after(tick) == n + 1,
        ).map_values(|tick: ScheduledTick| older(tick, n + 1)),
    decreases n,
{
    let waits = |tick: ScheduledTick| due_after(tick) > n;
    if n == 0 {
        lemma_filter_all(ticks, waits);
        assert(ticks.map_values(|tick: ScheduledTick| older(tick, n)) =~= ticks);
    } else {
        lemma_one_more_tick(ticks, (n - 1) as nat);
        law_ticks_come_due_in_time(ticks, (n - 1) as nat);
    }
    lemma_one_more_tick(ticks, n);
}

/// What one game tick more makes of the ticks that have waited for `n`.
proof fn lemma_one_more_tick(ticks: Seq<ScheduledTick>, n: nat)
    ensures
        ({
            let waiting = ticks.filter(
                |tick: ScheduledTick| due_after(tick) > n,
            ).map_values(|tick: ScheduledTick| older(tick, n));
            &&& waiting_ticks(waiting) == ticks.filter(
                |tick: ScheduledTick| due_after(tick) > n + 1,
            ).map_values(|tick: ScheduledTick| older(tick, n + 1))
            &&& due_ticks(waiting) == ticks.filter(
                |tick: ScheduledTick| due_after(tick) == n + 1,
            ).map_values(|tick: ScheduledTick| older(tick, n + 1))
        }),
{
    let waits = |tick: ScheduledTick| due_after(tick) > n;
    let next = |tick: ScheduledTick| older(tick, n + 1);
    let chosen = ticks.filter(waits);
    let waiting = chosen.map_values(|tick: ScheduledTick| older(tick, n));
    assert(aged(waiting) =~= chosen.map_values(next));
    let later = |tick: ScheduledTick| tick.delay != 0;
    let now = |tick: ScheduledTick| tick.delay == 0;
    lemma_map_filter(chosen, next, later);
    lemma_map_filter(chosen, next, now);
    let next_later = |tick: ScheduledTick| later(next(tick));
    let next_now = |tick: ScheduledTick| now(next(tick));
    lemma_filter_twice(ticks, waits, next_later);
    lemma_filter_twice(ticks, waits, next_now);
    lemma_filter_agree(
        ticks,
        |tick: ScheduledTick| waits(tick) && next_later(tick),
        |tick: ScheduledTick| due_after(tick) > n + 1,
    );
    lemma_filter_agree(
        ticks,
        |tick: ScheduledTick| waits(tick) && next_now(tick),
        |tick: ScheduledTick| due_after(tick) == n + 1,
    );
}

/// When a game tick passes, each tick comes due or waits on; none is lost or doubled.
pub proof fn law_passing_conserves_ticks(ticks: Seq<ScheduledTick>)
    ensures
        aged(ticks).to_multiset() == due_ticks(ticks).to_multiset().add(
            waiting_ticks(ticks).to_multiset(),
        ),
        ticks.len() == due_ticks(ticks).len() + waiting_ticks(ticks).len(),
{
    lemma_filter_splits(
        aged(ticks),
        |tick: ScheduledTick| tick.delay == 0,
        |tick: ScheduledTick| tick.delay != 0,
    );
}

/// The ticks of the ranks below `rank`, rank by rank.
#[verifier::opaque]
spec fn ranks_below(ticks: Seq<ScheduledTick>, rank: nat) -> Seq<ScheduledTick>
    decreases rank,
{
    if rank == 0 {
        Seq::empty()
    } else {
        ranks_below(ticks, (rank - 1) as nat) + ticks_of_rank(ticks, (rank - 1) as u8)
    }
}

/// A tick more, at least as low in priority as all before.
proof fn lemma_ranks_push(ticks: Seq<ScheduledTick>, last: ScheduledTick, rank: nat)
    requires
        rank <= 7,
        forall|i: int|
            0 <= i < ticks.len() ==> (#[trigger] ticks[i]).priority.spec_rank()
                <= last.priority.spec_rank(),
    ensures
        ranks_below(ticks.push(last), rank) == if last.priority.spec_rank() < rank {
            ranks_below(ticks, rank).push(last)
        } else {
            ranks_below(ticks, rank)
        },
    decreases rank,
{
    reveal(ranks_below);
    if rank > 0 {
        let r = (rank - 1) as u8;
        lemma_ranks_push(ticks, last, (rank - 1) as nat);
        lemma_filter_push(ticks, last, |tick: ScheduledTick| tick.priority.spec_rank() == r);
        if last.priority.spec_rank() < r {
            lemma_filter_none(ticks, |tick: ScheduledTick| tick.priority.spec_rank() == r);
        }
        assert(ranks_below(ticks.push(last), rank) =~= if last.priority.spec_rank() < rank {
            ranks_below(ticks, rank).push(last)
        } else {
            ranks_below(ticks, rank)
        });
    }
}

/// Where there are no ticks, there are none of any rank.
proof fn lemma_ranks_of_nothing(ticks: Seq<ScheduledTick>, rank: nat)
    requires
        ticks.len() == 0,
    ensures
        ranks_below(ticks, rank) == ticks,
    decreases rank,
{
    reveal(ranks_below);
    reveal(Seq::filter);
    if rank > 0 {
        lemma_ranks_of_nothing(ticks, (rank - 1) as nat);
    }
    assert(ranks_below(ticks, rank) =~= ticks);
}

/// The first of the ticks that stand in priority order are no less urgent than the next.
proof fn lemma_next_in_order(ticks: Seq<ScheduledTick>, n: int)
    requires
        in_priority_order(ticks),
        0 <= n < ticks.len(),
    ensures
        forall|i: int|
            0 <= i < ticks.take(n).len() ==> (#[trigger] ticks.take(n)[i]).priority.spec_rank()
                <= ticks[n].priority.spec_rank(),
{
    assert forall|i: int| 0 <= i < ticks.take(n).len() implies (
    #[trigger] ticks.take(n)[i]).priority.spec_rank() <= ticks[n].priority.spec_rank() by {
        assert(ticks.take(n)[i] == ticks[i]);
    }
}

/// The first of the ticks that stand in priority order stand rank by rank.
proof fn lemma_ordered_by_ranks(ticks: Seq<ScheduledTick>, n: int)
    requires
        in_priority_order(ticks),
        0 <= n <= ticks.len(),
    ensures
        ranks_below(ticks.take(n), 7) == ticks.take(n),
    decreases n,
{
    if n == 0 {
        lemma_ranks_of_nothing(ticks.take(0), 7);
    } else {
        let front = ticks.take(n - 1);
        let next = ticks[n - 1];
        lemma_ordered_by_ranks(ticks, n - 1);
        lemma_next_in_order(ticks, n - 1);
        lemma_ranks_push(front, next, 7);
        assert(next.priority.spec_rank() < 7);
        assert(ticks.take(n) =~= front.push(next));
    }
}

/// The same ticks of each rank make the same ticks rank by rank.
proof fn lemma_same_ranks(a: Seq<ScheduledTick>, b: Seq<ScheduledTick>, rank: nat)
    requires
        rank <= 7,
        forall|r: u8| #[trigger] ticks_of_rank(a, r) == ticks_of_rank(b, r),
    ensures
        ranks_below(a, rank) == ranks_below(b, rank),
    decreases rank,
{
    reveal(ranks_below);
    if rank > 0 {
        lemma_same_ranks(a, b, (rank - 1) as nat);
        assert(ticks_of_rank(a, (rank - 1) as u8) == ticks_of_rank(b, (rank - 1) as u8));
    }
}

/// The ranks below `rank` and the others make up the whole.
proof fn lemma_ranks_are_all(ticks: Seq<ScheduledTick>, rank: nat)
    requires
        rank <= 7,
    ensures
        ticks.to_multiset() == ranks_below(ticks, rank).to_multiset().add(
            ticks.filter(|tick: ScheduledTick| tick.priority.spec_rank() >= rank).to_multiset(),
        ),
    decreases rank,
{
    broadcast use vstd::seq_lib::group_to_multiset_ensures;

    reveal(ranks_below);
    let rest = ticks.filter(|tick: ScheduledTick| tick.priority.spec_rank() >= rank);
    if rank == 0 {
        lemma_filter_all(ticks, |tick: ScheduledTick| tick.priority.spec_rank() >= rank);
        assert(ticks.to_multiset() =~= ranks_below(ticks, rank).to_multiset().add(
            rest.to_multiset(),
        ));
    } else {
        let r = (rank - 1) as u8;
        let before = |tick: ScheduledTick| tick.priority.spec_rank() >= rank - 1;
        let here = |tick: ScheduledTick| tick.priority.spec_rank() == r;
        let after = |tick: ScheduledTick| tick.priority.spec_rank() >= rank;
        lemma_ranks_are_all(ticks, (rank - 1) as nat);
        lemma_filter_agree(
            ticks,
            |tick: ScheduledTick| tick.priority.spec_rank() >= (rank - 1) as nat,
            before,
        );
        assert forall|i: int| 0 <= i < ticks.filter(before).len() implies here(
            #[trigger] ticks.filter(before)[i],
        ) != after(ticks.filter(before)[i]) by {
            ticks.lemma_filter_pred(before, i);
        }
        lemma_filter_splits(ticks.filter(before), here, after);
        lemma_filter_twice(ticks, before, here);
        lemma_filter_twice(ticks, before, after);
        lemma_filter_agree(ticks, |tick: ScheduledTick| before(tick) && here(tick), here);
        lemma_filter_agree(ticks, |tick: ScheduledTick| before(tick) && after(tick), after);
        vstd::seq_lib::lemma_multiset_commutative(
            ranks_below(ticks, (rank - 1) as nat),
            ticks_of_rank(ticks, r),
        );
        assert(ticks.to_multiset() =~= ranks_below(ticks, rank).to_multiset().add(
            rest.to_multiset(),
        ));
    }
}

/// There are seven ranks.
proof fn lemma_seven_ranks_are_all(ticks: Seq<ScheduledTick>)
    ensures
        ranks_below(ticks, 7).to_multiset() == ticks.to_multiset(),
{
    let rank: nat = 7;
    let rest = ticks.filter(|tick: ScheduledTick| tick.priority.spec_rank() >= rank);
    lemma_ranks_are_all(ticks, rank);
    lemma_filter_none(ticks, |tick: ScheduledTick| tick.priority.spec_rank() >= rank);
    rest.to_multiset_ensures();
    assert(ranks_below(ticks, rank).to_multiset() =~= ticks.to_multiset());
}

/// There is one way to put ticks in priority order, and it neither loses nor doubles a tick.
pub proof fn law_priority_order(
    ordered: Seq<ScheduledTick>,
    also_ordered: Seq<ScheduledTick>,
    ticks: Seq<ScheduledTick>,
)
    requires
        is_priority_order_of(ordered, ticks),
        is_priority_order_of(also_ordered, ticks),
    ensures
        ordered == also_ordered,
        ordered.to_multiset() == ticks.to_multiset(),
{
    lemma_ordered_by_ranks(ordered, ordered.len() as int);
    lemma_ordered_by_ranks(also_ordered, also_ordered.len() as int);
    assert(ordered.take(ordered.len() as int) =~= ordered);
    assert(also_ordered.take(also_ordered.len() as int) =~= also_ordered);
    lemma_same_ranks(ordered, ticks, 7);
    lemma_same_ranks(also_ordered, ticks, 7);
    lemma_seven_ranks_are_all(ticks);
}

/// A block tick is scheduled once it has been asked for.
pub proof fn law_block_tick_is_scheduled(level: LevelView, tick: ScheduledTick)
    ensures
        level.with_block_tick(tick).has_block_tick(tick.block_pos, tick.target_block_id),
{
    let ticks = level.with_block_tick(tick).block_ticks;
    assert(ticks[ticks.len() - 1].is_for(tick.block_pos, tick.target_block_id));
}

/// A fluid tick is scheduled once it has been asked for, and asking again, with whatever
/// delay, changes nothing.
pub proof fn law_fluid_tick_is_scheduled(level: LevelView, tick: ScheduledTick, delay: u16)
    ensures
        has_tick_for(level.with_fluid_tick(tick).fluid_ticks, tick.block_pos, tick.target_block_id),
        has_tick_at(level.with_fluid_tick(tick).fluid_ticks, tick.block_pos),
        level.with_fluid_tick(tick).with_fluid_tick(ScheduledTick { delay, ..tick })
            == level.with_fluid_tick(tick),
{
    let before = level.fluid_ticks;
    let ticks = level.with_fluid_tick(tick).fluid_ticks;
    if has_tick_for(before, tick.block_pos, tick.target_block_id) {
        let i = choose|i: int|
            0 <= i < before.len() && (#[trigger] before[i]).is_for(
                tick.block_pos,
                tick.target_block_id,
            );
        assert(ticks[i].block_pos == tick.block_pos);
    } else {
        assert(ticks[ticks.len() - 1].is_for(tick.block_pos, tick.target_block_id));
        assert(ticks[ticks.len() - 1].block_pos == tick.block_pos);
    }
}

/// Whether no two ticks are scheduled for the same position and block or fluid.
pub open spec fn all_apart(ticks: Seq<ScheduledTick>) -> bool {
    forall|i: int, j: int|
        0 <= i < j < ticks.len() ==> !(#[trigger] ticks[i]).is_for(
            (#[trigger] ticks[j]).block_pos,
            ticks[j].target_block_id,
        )
}

/// Picking among ticks that are apart leaves them apart.
proof fn lemma_picked_apart(ticks: Seq<ScheduledTick>, pred: spec_fn(ScheduledTick) -> bool)
    requires
        all_apart(ticks),
    ensures
        all_apart(ticks.filter(pred)),
    decreases ticks.len(),
{
    reveal(Seq::filter);
    if ticks.len() > 0 {
        let front = ticks.drop_last();
        let last = ticks.last();
        assert forall|i: int, j: int| 0 <= i < j < front.len() implies !(#[trigger] front[i]).is_for(
            (#[trigger] front[j]).block_pos,
            front[j].target_block_id,
        ) by {
            assert(!ticks[i].is_for(ticks[j].block_pos, ticks[j].target_block_id));
        }
        lemma_picked_apart(front, pred);
        let picked = front.filter(pred);
        assert forall|i: int| 0 <= i < picked.len() implies !(#[trigger] picked[i]).is_for(
            last.block_pos,
            last.target_block_id,
        ) by {
            lemma_filter_has(front, pred, picked[i]);
            assert(picked.contains(picked[i]));
            let k = choose|k: int| 0 <= k < front.len() && front[k] == picked[i];
            assert(!ticks[k].is_for(
                ticks[ticks.len() - 1].block_pos,
                ticks[ticks.len() - 1].target_block_id,
            ));
        }
    }
}

/// No two fluid ticks are scheduled for the same position and fluid, as long as ticks are
/// scheduled, time passes and chunks are written. (A chunk from storage brings its own ticks
/// along, whatever is scheduled already.)
pub proof fn law_fluid_ticks_stay_apart(
    level: LevelView,
    tick: ScheduledTick,
    chunks: Seq<(Vector2, SyncChunk)>,
)
    requires
        all_apart(level.fluid_ticks),
    ensures
        all_apart(level.with_fluid_tick(tick).fluid_ticks),
        all_apart(waiting_ticks(level.fluid_ticks)),
        all_apart(level.written(chunks).fluid_ticks),
{
    let ticks = level.fluid_ticks;
    lemma_picked_apart(
        ticks,
        |tick: ScheduledTick| !is_listed(chunks, tick.block_pos.chunk()),
    );
    let older_ticks = aged(ticks);
    assert forall|i: int, j: int| 0 <= i < j < older_ticks.len() implies !(
    #[trigger] older_ticks[i]).is_for(
        (#[trigger] older_ticks[j]).block_pos,
        older_ticks[j].target_block_id,
    ) by {
        assert(!ticks[i].is_for(ticks[j].block_pos, ticks[j].target_block_id));
    }
    lemma_picked_apart(older_ticks, |tick: ScheduledTick| tick.delay != 0);
    let more = level.with_fluid_tick(tick).fluid_ticks;
    assert forall|i: int, j: int| 0 <= i < j < more.len() implies !(#[trigger] more[i]).is_for(
        (#[trigger] more[j]).block_pos,
        more[j].target_block_id,
    ) by {
        if j < ticks.len() {
            assert(!ticks[i].is_for(ticks[j].block_pos, ticks[j].target_block_id));
        } else {
            assert(more[i] == ticks[i]);
        }
    }
}

/// No more bytes are counted than the limit says.
proof fn lemma_continued_limit(bytes: Seq<u8>, at: int, limit: nat)
    ensures
        continued(bytes, at, limit) <= limit,
    decreases limit,
{
    if limit > 0 {
        lemma_continued_limit(bytes, at + 1, (limit - 1) as nat);
    }
}

/// More bytes behind a number.
proof fn lemma_more_bytes(bytes: Seq<u8>, more: Seq<u8>, at: int, limit: nat)
    requires
        0 <= at <= bytes.len(),
        at + continued(bytes, at, limit) < bytes.len() || continued(bytes, at, limit) == limit,
    ensures
        continued(bytes + more, at, limit) == continued(bytes, at, limit),
        at + continued(bytes, at, limit) <= bytes.len(),
    decreases limit,
{
    if limit > 0 && at < bytes.len() && bytes[at] >= 128 {
        lemma_more_bytes(bytes, more, at + 1, (limit - 1) as nat);
    }
}

/// A number is read from its own bytes.
proof fn lemma_number_from_its_bytes(bytes: Seq<u8>, more: Seq<u8>, at: int)
    requires
        0 <= at <= bytes.len(),
        var_int_at(bytes, at) != Err::<(VarInt, int), ReadingError>(ReadingError::Incomplete),
    ensures
        var_int_at(bytes + more, at) == var_int_at(bytes, at),
        var_int_at(bytes, at) matches Ok((_, end)) ==> at < end <= bytes.len(),
{
    lemma_continued_limit(bytes, at, 5);
    lemma_more_bytes(bytes, more, at, 5);
    let groups = continued(bytes, at, 5);
    if groups < 5 {
        let own = bytes.subrange(at, at + groups + 1);
        assert((bytes + more).subrange(at, at + groups + 1) =~= own);
        assert(var_int_at(bytes + more, at) == Ok::<(VarInt, int), ReadingError>(
            (VarInt(signed(groups_value(own))), at + groups + 1),
        ));
    }
}

/// A command is read from its own bytes: once it could be read, or was found too large, bytes
/// behind it make no difference.
pub proof fn law_command_from_its_bytes(bytes: Seq<u8>, more: Seq<u8>)
    requires
        player_command_in(bytes) != Err::<SPlayerCommand, ReadingError>(ReadingError::Incomplete),
    ensures
        player_command_in(bytes + more) == player_command_in(bytes),
{
    lemma_number_from_its_bytes(bytes, more, 0);
    if let Ok((_, at)) = var_int_at(bytes, 0) {
        lemma_number_from_its_bytes(bytes, more, at);
        if let Ok((_, at)) = var_int_at(bytes, at) {
            lemma_number_from_its_bytes(bytes, more, at);
        }
    }
}

/// Each action has one number, and each number from 0 to 6 has one action.
pub proof fn law_actions_are_numbered(number: int, other: int)
    ensures
        Action::of_number(number) is Some <==> 0 <= number <= 6,
        Action::of_number(number) is Some && Action::of_number(number) == Action::of_number(other)
            ==> number == other,
        forall|action: Action| #[trigger] Action::all().contains(action),
{
    assert forall|action: Action| #[trigger] Action::all().contains(action) by {
        let all = Action::all();
        match action {
            Action::LeaveBed => assert(all[0] == action),
            Action::StartSprinting => assert(all[1] == action),
            Action::StopSprinting => assert(all[2] == action),
            Action::StartHorseJump => assert(all[3] == action),
            Action::StopHorseJump => assert(all[4] == action),
            Action::OpenVehicleInventory => assert(all[5] == action),
            Action::StartFlyingElytra => assert(all[6] == action),
        }
    }
}

} // verus!
