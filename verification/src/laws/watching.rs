//! What is counted of those who watch a chunk.

use crate::level::watch::{
    left_unwatched, lemma_times_listed_push, times_listed, uncounted, watcher_count, with_watchers,
    without_watchers,
};
use crate::math::Vector2;
use vstd::prelude::*;

verus! {

/// A chunk is listed as often as it stands in the list.
pub proof fn law_times_listed(chunks: Seq<Vector2>, chunk: Vector2)
    ensures
        times_listed(chunks, (chunk.x, chunk.z)) == chunks.to_multiset().count(chunk),
    decreases chunks.len(),
{
    broadcast use vstd::seq_lib::group_to_multiset_ensures;

    if chunks.len() == 0 {
        reveal(Seq::filter);
        assert(chunks =~= Seq::empty());
    } else {
        let front = chunks.drop_last();
        let last = chunks.last();
        law_times_listed(front, chunk);
        assert(chunks =~= front.push(last));
        lemma_times_listed_push(front, last, (chunk.x, chunk.z));
        assert(chunks.to_multiset() =~= front.to_multiset().insert(last));
    }
}

/// Once chunks are newly watched, each is watched by as many more as it stands in the list, up
/// to the greatest number, and a chunk that nobody watches and that is not listed has no entry.
pub proof fn law_watchers_are_counted(
    watchers: Map<(i32, i32), usize>,
    chunks: Seq<Vector2>,
    chunk: Vector2,
)
    ensures
        ({
            let key = (chunk.x, chunk.z);
            let before = if watchers.contains_key(key) {
                watchers[key] as int
            } else {
                0
            };
            let after = before + chunks.to_multiset().count(chunk);
            &&& watcher_count(watchers, key) == before
            &&& with_watchers(watchers, chunks).contains_key(key) <==> watchers.contains_key(key)
                || chunks.contains(chunk)
            &&& with_watchers(watchers, chunks).contains_key(key) ==> with_watchers(
                watchers,
                chunks,
            )[key] == if after <= usize::MAX {
                after
            } else {
                usize::MAX as int
            }
        }),
{
    broadcast use vstd::seq_lib::group_to_multiset_ensures;

    law_times_listed(chunks, chunk);
    assert(chunks.contains(chunk) <==> chunks.to_multiset().count(chunk) > 0);
}

/// Once chunks are no longer watched, each has lost as many watchers as it stands in the list,
/// and has no entry any more if it had no more than that.
pub proof fn law_leavers_are_counted(
    watchers: Map<(i32, i32), usize>,
    chunks: Seq<Vector2>,
    chunk: Vector2,
)
    ensures
        ({
            let key = (chunk.x, chunk.z);
            let leave = chunks.to_multiset().count(chunk);
            let after = without_watchers(watchers, chunks);
            &&& !watchers.contains_key(key) ==> !after.contains_key(key)
            &&& watchers.contains_key(key) && leave == 0 ==> after.contains_key(key) && after[key]
                == watchers[key]
            &&& watchers.contains_key(key) && 0 < leave < watchers[key] ==> after.contains_key(key)
                && after[key] == watchers[key] - leave
            &&& watchers.contains_key(key) && 0 < leave && leave >= watchers[key]
                ==> !after.contains_key(key)
        }),
{
    law_times_listed(chunks, chunk);
}

/// A chunk behind others is left unwatched, behind those before it, exactly if it is there that
/// it has been listed as often as it is watched.
pub proof fn law_left_unwatched_next(
    watchers: Map<(i32, i32), usize>,
    chunks: Seq<Vector2>,
    chunk: Vector2,
)
    requires
        forall|key: (i32, i32)| #[trigger] watchers.contains_key(key) ==> watchers[key] > 0,
    ensures
        left_unwatched(watchers, Seq::empty()) == Seq::<Vector2>::empty(),
        left_unwatched(watchers, chunks.push(chunk)) == if watchers.contains_key(
            (chunk.x, chunk.z),
        ) && watchers[(chunk.x, chunk.z)] == chunks.to_multiset().count(chunk) + 1 {
            left_unwatched(watchers, chunks).push(chunk)
        } else {
            left_unwatched(watchers, chunks)
        },
{
    assert(chunks.push(chunk).drop_last() =~= chunks);
    law_times_listed(chunks, chunk);
    lemma_times_listed_push(chunks, chunk, (chunk.x, chunk.z));
}

/// A chunk behind others is said to overflow, behind those before it, exactly if its watchers
/// and the times that it has been listed before fill the count.
pub proof fn law_uncounted_next(
    watchers: Map<(i32, i32), usize>,
    chunks: Seq<Vector2>,
    chunk: Vector2,
)
    ensures
        uncounted(watchers, Seq::empty()) == Seq::<Vector2>::empty(),
        ({
            let before = if watchers.contains_key((chunk.x, chunk.z)) {
                watchers[(chunk.x, chunk.z)] as int
            } else {
                0
            };
            uncounted(watchers, chunks.push(chunk)) == if before + chunks.to_multiset().count(chunk)
                >= usize::MAX {
                uncounted(watchers, chunks).push(chunk)
            } else {
                uncounted(watchers, chunks)
            }
        }),
{
    assert(chunks.push(chunk).drop_last() =~= chunks);
    law_times_listed(chunks, chunk);
    lemma_times_listed_push(chunks, chunk, (chunk.x, chunk.z));
}

} // verus!
