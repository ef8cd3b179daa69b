//! The chunks that are in memory, by name.

use crate::chunk::{ChunkData, ChunkView};
use crate::level::SyncChunk;
use std::collections::HashMap;
use vstd::prelude::*;

verus! {

/// Chunks, each under a name of its own.
pub(crate) struct ChunkStore {
    chunks: HashMap<SyncChunk, Box<ChunkData>>,
    // Where the search for a free name begins.
    next_name: SyncChunk,
}

impl View for ChunkStore {
    type V = Map<SyncChunk, ChunkView>;

    /// The chunks by name. Where the search for a free name begins is left out: any name that
    /// is free will do.
    closed spec fn view(&self) -> Map<SyncChunk, ChunkView> {
        Map::new(
            |name: SyncChunk| self.chunks@.contains_key(name),
            |name: SyncChunk| (*self.chunks@[name])@,
        )
    }
}

/// The name that comes `n` places behind another; behind the greatest name comes 0.
spec fn name_behind(name: SyncChunk, n: int) -> SyncChunk {
    if name + n <= usize::MAX {
        (name + n) as usize
    } else {
        (name + n - usize::MAX - 1) as usize
    }
}

/// A map of a length that can be counted leaves a name free.
proof fn lemma_some_name_is_free(chunks: Map<SyncChunk, Box<ChunkData>>)
    requires
        chunks.dom().finite(),
        chunks.len() <= usize::MAX,
    ensures
        exists|name: SyncChunk| !#[trigger] chunks.contains_key(name),
{
    if forall|name: SyncChunk| #[trigger] chunks.contains_key(name) {
        let as_int = |name: SyncChunk| name as int;
        let all = vstd::set_lib::set_int_range(0, usize::MAX + 1);
        vstd::set_lib::lemma_int_range(0, usize::MAX + 1);
        assert forall|i: int| #[trigger] all.contains(i) implies chunks.dom().map(
            as_int,
        ).contains(i) by {
            let name = i as SyncChunk;
            assert(chunks.contains_key(name));
            assert(chunks.dom().contains(name) && as_int(name) == i);
        }
        assert(chunks.dom().map(as_int) =~= all);
        vstd::set_lib::lemma_map_size_bound(chunks.dom(), all, as_int);
    }
}

impl ChunkStore {
    /// No chunks at all.
    pub(crate) fn new() -> (store: ChunkStore)
        ensures
            store@ == Map::<SyncChunk, ChunkView>::empty(),
    {
        broadcast use vstd::std_specs::hash::group_hash_axioms;

        let store = ChunkStore { chunks: HashMap::new(), next_name: 0 };
        assert(store@ =~= Map::<SyncChunk, ChunkView>::empty());
        store
    }

    /// The chunk that goes by a name, if there is one.
    pub(crate) fn get(&self, name: SyncChunk) -> (chunk: Option<&ChunkData>)
        ensures
            chunk is Some <==> self@.contains_key(name),
            chunk matches Some(data) ==> data@ == self@[name],
    {
        broadcast use vstd::std_specs::hash::group_hash_axioms;

        match self.chunks.get(&name) {
            Some(chunk) => Some(&**chunk),
            None => None,
        }
    }

    /// Takes out the chunk that goes by a name, if there is one.
    pub(crate) fn take(&mut self, name: SyncChunk) -> (chunk: Option<Box<ChunkData>>)
        ensures
            chunk is Some <==> old(self)@.contains_key(name),
            chunk matches Some(data) ==> (*data)@ == old(self)@[name],
            final(self)@ == old(self)@.remove(name),
    {
        broadcast use vstd::std_specs::hash::group_hash_axioms;

        let chunk = self.chunks.remove(&name);
        assert(self@ =~= old(self)@.remove(name));
        chunk
    }

    /// Puts a chunk under a name, in place of what went by it.
    pub(crate) fn put(&mut self, name: SyncChunk, chunk: Box<ChunkData>)
        ensures
            final(self)@ == old(self)@.insert(name, (*chunk)@),
    {
        broadcast use vstd::std_specs::hash::group_hash_axioms;

        self.chunks.insert(name, chunk);
        assert(self@ =~= old(self)@.insert(name, (*chunk)@));
    }

    /// A name that no chunk goes by.
    fn free_name(&self) -> (name: SyncChunk)
        ensures
            !self@.contains_key(name),
    {
        broadcast use vstd::std_specs::hash::group_hash_axioms;

        let _count = self.chunks.len();
        proof {
            lemma_some_name_is_free(self.chunks@);
        }
        let ghost free = choose|name: SyncChunk| !#[trigger] self.chunks@.contains_key(name);
        let ghost start = self.next_name;
        let ghost away = if free >= start {
            free - start
        } else {
            free - start + usize::MAX + 1
        };
        let ghost mut tried: int = 0;
        let mut name = self.next_name;
        while self.chunks.contains_key(&name)
            invariant
                0 <= tried <= away <= usize::MAX,
                name == name_behind(start, tried),
                free == name_behind(start, away),
                !self.chunks@.contains_key(free),
            decreases away - tried,
        {
            broadcast use vstd::std_specs::hash::group_hash_axioms;

            assert(tried != away);
            name = if name == usize::MAX {
                0
            } else {
                name + 1
            };
            proof {
                tried = tried + 1;
            }
        }
        name
    }

    /// Takes up a chunk, under a name that no other goes by.
    pub(crate) fn add(&mut self, chunk: ChunkData) -> (name: SyncChunk)
        ensures
            !old(self)@.contains_key(name),
            final(self)@ == old(self)@.insert(name, chunk@),
    {
        let name = self.free_name();
        self.next_name = if name == usize::MAX {
            0
        } else {
            name + 1
        };
        self.put(name, Box::new(chunk));
        name
    }

    /// Frees the chunks whose names do not stand in a list.
    pub(crate) fn keep_only(&mut self, names: &Vec<SyncChunk>)
        ensures
            final(self)@ == old(self)@.restrict(Set::new(|name: SyncChunk| names@.contains(name))),
    {
        broadcast use vstd::std_specs::hash::group_hash_axioms;

        let ghost before = self@;
        let mut kept = ChunkStore { chunks: HashMap::new(), next_name: self.next_name };
        let mut i: usize = 0;
        while i < names.len()
            invariant
                i <= names@.len(),
                forall|name: SyncChunk| #[trigger]
                    kept@.contains_key(name) <==> before.contains_key(name) && names@.take(
                        i as int,
                    ).contains(name),
                forall|name: SyncChunk| #[trigger]
                    self@.contains_key(name) <==> before.contains_key(name) && !kept@.contains_key(
                        name,
                    ),
                forall|name: SyncChunk| #[trigger]
                    kept@.contains_key(name) ==> kept@[name] == before[name],
                forall|name: SyncChunk| #[trigger]
                    self@.contains_key(name) ==> self@[name] == before[name],
            decreases names@.len() - i,
        {
            let name = names[i];
            proof {
                assert(names@.take(i + 1) =~= names@.take(i as int).push(name));
                assert forall|n: SyncChunk| #[trigger]
                    names@.take(i + 1).contains(n) <==> names@.take(i as int).contains(n) || n
                        == name by {
                    crate::seqs::lemma_push_has(names@.take(i as int), name, n);
                }
            }
            if let Some(chunk) = self.take(name) {
                kept.put(name, chunk);
            }
            i = i + 1;
        }
        assert(names@.take(i as int) =~= names@);
        *self = kept;
        assert(self@ =~= before.restrict(Set::new(|name: SyncChunk| names@.contains(name))));
    }
}

} // verus!
