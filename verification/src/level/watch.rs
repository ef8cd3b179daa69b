//! Who watches which chunk.

use super::{Level, LevelView};
use crate::cells::{get_cell, or_insert_cell, remove_occupied, set_occupied};
use crate::math::Vector2;
use crate::seqs::lemma_filter_push;
use vstd::prelude::*;

verus! {

/// How many times the chunk filed under `key` stands in a list.
pub open spec fn times_listed(chunks: Seq<Vector2>, key: (i32, i32)) -> nat {
    chunks.filter(|chunk: Vector2| chunk.key() == key).len()
}

/// How many watch the chunk filed under `key`.
pub open spec fn watcher_count(watchers: Map<(i32, i32), usize>, key: (i32, i32)) -> nat {
    if watchers.contains_key(key) {
        watchers[key] as nat
    } else {
        0
    }
}

/// The watchers once each chunk of a list has got a watcher more for each time it stands in
/// the list. A count stops at the greatest number that it can hold.
pub open spec fn with_watchers(
    watchers: Map<(i32, i32), usize>,
    chunks: Seq<Vector2>,
) -> Map<(i32, i32), usize> {
    Map::new(
        |key: (i32, i32)| watchers.contains_key(key) || times_listed(chunks, key) > 0,
        |key: (i32, i32)|
            {
                let count = watcher_count(watchers, key) + times_listed(chunks, key);
                if count <= usize::MAX {
                    count as usize
                } else {
                    usize::MAX
                }
            },
    )
}

/// The watchers once each chunk of a list has lost a watcher for each time it stands in the
/// list. A chunk that loses its last watcher has no entry any more; a chunk without an entry
/// stays without one.
pub open spec fn without_watchers(
    watchers: Map<(i32, i32), usize>,
    chunks: Seq<Vector2>,
) -> Map<(i32, i32), usize> {
    Map::new(
        |key: (i32, i32)|
            watchers.contains_key(key) && (times_listed(chunks, key) == 0 || times_listed(
                chunks,
                key,
            ) < watchers[key]),
        |key: (i32, i32)| (watchers[key] - times_listed(chunks, key)) as usize,
    )
}

/// Whether the last place of a list is where its chunk loses its last watcher.
pub open spec fn loses_last_watcher(
    watchers: Map<(i32, i32), usize>,
    chunks: Seq<Vector2>,
) -> bool {
    let key = chunks.last().key();
    &&& watchers.contains_key(key)
    &&& times_listed(chunks, key) == if watchers[key] == 0 {
        1
    } else {
        watchers[key] as nat
    }
}

/// The chunks of a list that lose their last watcher, in the order in which they lose it.
pub open spec fn left_unwatched(
    watchers: Map<(i32, i32), usize>,
    chunks: Seq<Vector2>,
) -> Seq<Vector2>
    decreases chunks.len(),
{
    if chunks.len() == 0 {
        Seq::empty()
    } else if loses_last_watcher(watchers, chunks) {
        left_unwatched(watchers, chunks.drop_last()).push(chunks.last())
    } else {
        left_unwatched(watchers, chunks.drop_last())
    }
}

/// The chunks of a list that get a watcher more than can be counted, in their order.
pub open spec fn uncounted(watchers: Map<(i32, i32), usize>, chunks: Seq<Vector2>) -> Seq<Vector2>
    decreases chunks.len(),
{
    if chunks.len() == 0 {
        Seq::empty()
    } else {
        let key = chunks.last().key();
        let earlier = uncounted(watchers, chunks.drop_last());
        if watcher_count(watchers, key) + times_listed(chunks, key) > usize::MAX {
            earlier.push(chunks.last())
        } else {
            earlier
        }
    }
}

/// A chunk more in a list.
pub(crate) proof fn lemma_times_listed_push(chunks: Seq<Vector2>, chunk: Vector2, key: (i32, i32))
    ensures
        times_listed(chunks.push(chunk), key) == times_listed(chunks, key) + if chunk.key() == key {
            1nat
        } else {
            0
        },
{
    lemma_filter_push(chunks, chunk, |chunk: Vector2| chunk.key() == key);
}

impl Level {
    /// Marks chunks as watched by one more watcher. While a chunk is watched, it stays in
    /// memory. Should only be called on chunks that the watcher did not watch before. Returns
    /// the chunks whose count could not grow any more.
    pub fn mark_chunks_as_newly_watched(&mut self, chunks: &[Vector2]) -> (overflowed: Vec<Vector2>)
        requires
            old(self)@.wf(),
        ensures
            final(self)@.wf(),
            final(self)@ == (LevelView {
                chunk_watchers: with_watchers(old(self)@.chunk_watchers, chunks@),
                ..old(self)@
            }),
            overflowed@ == uncounted(old(self)@.chunk_watchers, chunks@),
    {
        let mut overflowed: Vec<Vector2> = Vec::new();
        let ghost before = self@.chunk_watchers;
        let mut i: usize = 0;
        proof {
            reveal(Seq::filter);
            assert(with_watchers(before, chunks@.take(0)) =~= before);
        }
        while i < chunks.len()
            invariant
                i <= chunks@.len(),
                before == old(self)@.chunk_watchers,
                self@ == (LevelView {
                    chunk_watchers: with_watchers(before, chunks@.take(i as int)),
                    ..old(self)@
                }),
                overflowed@ == uncounted(before, chunks@.take(i as int)),
            decreases chunks@.len() - i,
        {
            let key = chunks[i].key();
            let ghost done = chunks@.take(i as int);
            proof {
                assert(chunks@.take(i + 1) =~= done.push(chunks@[i as int]));
                assert(chunks@.take(i + 1).drop_last() =~= done);
                assert forall|k: (i32, i32)| #[trigger]
                    times_listed(chunks@.take(i + 1), k) == times_listed(done, k) + if k == key {
                        1nat
                    } else {
                        0
                    } by {
                    lemma_times_listed_push(done, chunks@[i as int], k);
                }
            }
            match get_cell(&self.state.chunk_watchers, key) {
                Some(count) => {
                    if let Some(more) = count.checked_add(1) {
                        set_occupied(&mut self.state.chunk_watchers, key, more);
                    } else {
                        overflowed.push(chunks[i]);
                    }
                },
                None => {
                    or_insert_cell(&mut self.state.chunk_watchers, key, 1);
                },
            }
            assert(self@.chunk_watchers =~= with_watchers(before, chunks@.take(i + 1)));
            i = i + 1;
        }
        assert(chunks@.take(i as int) =~= chunks@);
        overflowed
    }

    /// Marks a chunk as watched by one more watcher, and returns whether its count could not
    /// grow any more.
    pub fn mark_chunk_as_newly_watched(&mut self, chunk: Vector2) -> (overflowed: bool)
        requires
            old(self)@.wf(),
        ensures
            final(self)@.wf(),
            final(self)@ == (LevelView {
                chunk_watchers: with_watchers(old(self)@.chunk_watchers, seq![chunk]),
                ..old(self)@
            }),
            overflowed <==> old(self)@.chunk_watchers.get(chunk.key()) == Some(usize::MAX),
    {
        let chunks = [chunk];
        proof {
            let list = seq![chunk];
            assert(chunks@ =~= list);
            assert(list =~= Seq::empty().push(chunk));
            assert(list.drop_last() =~= Seq::<Vector2>::empty());
            reveal_with_fuel(uncounted, 2);
            reveal_with_fuel(Seq::filter, 2);
            lemma_times_listed_push(Seq::empty(), chunk, chunk.key());
        }
        !self.mark_chunks_as_newly_watched(&chunks).is_empty()
    }

    /// Marks chunks as no longer watched by one of their watchers, and returns those that
    /// nobody watches any more. Should only be called on chunks that the watcher watched
    /// before; a chunk that nobody watches is passed over.
    pub fn mark_chunks_as_not_watched(&mut self, chunks: &[Vector2]) -> (chunks_to_clean: Vec<
        Vector2,
    >)
        requires
            old(self)@.wf(),
        ensures
            final(self)@.wf(),
            final(self)@ == (LevelView {
                chunk_watchers: without_watchers(old(self)@.chunk_watchers, chunks@),
                ..old(self)@
            }),
            chunks_to_clean@ == left_unwatched(old(self)@.chunk_watchers, chunks@),
    {
        let ghost before = self@.chunk_watchers;
        let mut chunks_to_clean: Vec<Vector2> = Vec::new();
        let mut i: usize = 0;
        proof {
            reveal(Seq::filter);
            assert(without_watchers(before, chunks@.take(0)) =~= before);
        }
        while i < chunks.len()
            invariant
                i <= chunks@.len(),
                before == old(self)@.chunk_watchers,
                self@ == (LevelView {
                    chunk_watchers: without_watchers(before, chunks@.take(i as int)),
                    ..old(self)@
                }),
                chunks_to_clean@ == left_unwatched(before, chunks@.take(i as int)),
            decreases chunks@.len() - i,
        {
            let key = chunks[i].key();
            let ghost done = chunks@.take(i as int);
            proof {
                assert(chunks@.take(i + 1) =~= done.push(chunks@[i as int]));
                assert(chunks@.take(i + 1).drop_last() =~= done);
                assert forall|k: (i32, i32)| #[trigger]
                    times_listed(chunks@.take(i + 1), k) == times_listed(done, k) + if k == key {
                        1nat
                    } else {
                        0
                    } by {
                    lemma_times_listed_push(done, chunks@[i as int], k);
                }
            }
            match get_cell(&self.state.chunk_watchers, key) {
                Some(count) => {
                    let fewer = count.saturating_sub(1);
                    if fewer == 0 {
                        remove_occupied(&mut self.state.chunk_watchers, key);
                        chunks_to_clean.push(chunks[i]);
                    } else {
                        set_occupied(&mut self.state.chunk_watchers, key, fewer);
                    }
                },
                None => {},
            }
            assert(self@.chunk_watchers =~= without_watchers(before, chunks@.take(i + 1)));
            i = i + 1;
        }
        assert(chunks@.take(i as int) =~= chunks@);
        chunks_to_clean
    }

    /// Marks a chunk as no longer watched by one of its watchers, and returns whether nobody
    /// watches it any more, so that it should leave memory.
    pub fn mark_chunk_as_not_watched(&mut self, chunk: Vector2) -> (unwatched: bool)
        requires
            old(self)@.wf(),
        ensures
            final(self)@.wf(),
            final(self)@ == (LevelView {
                chunk_watchers: without_watchers(old(self)@.chunk_watchers, seq![chunk]),
                ..old(self)@
            }),
            unwatched <==> old(self)@.chunk_watchers.get(chunk.key()) == Some(1usize),
    {
        let chunks = [chunk];
        proof {
            let list = seq![chunk];
            assert(chunks@ =~= list);
            assert(list =~= Seq::empty().push(chunk));
            assert(list.drop_last() =~= Seq::<Vector2>::empty());
            reveal_with_fuel(left_unwatched, 2);
            reveal_with_fuel(Seq::filter, 2);
            lemma_times_listed_push(Seq::empty(), chunk, chunk.key());
        }
        !self.mark_chunks_as_not_watched(&chunks).is_empty()
    }

    /// Whether somebody watches the chunk.
    pub fn is_chunk_watched(&self, chunk: &Vector2) -> (watched: bool)
        ensures
            watched == self@.chunk_watchers.contains_key(chunk.key()),
    {
        get_cell(&self.state.chunk_watchers, chunk.key()).is_some()
    }
}

} // verus!
