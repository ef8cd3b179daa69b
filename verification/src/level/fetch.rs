//! How chunks are fetched: from memory, from storage, or generated.

use super::memory::lemma_held_push;
use super::{Level, LevelView, SyncChunk};
use crate::cells::{get_cell, insert_cell, or_insert_cell};
use crate::channel::ChunkSender;
use crate::chunk::{ChunkData, ChunkReadingError, ChunkView, LoadedData};
use crate::math::Vector2;
use crate::seqs::{lemma_filter_take, lemma_push_has};
use crate::tick::ScheduledTick;
use vstd::prelude::*;

verus! {

/// How a fetch goes on once it has sent the chunks that are in memory.
pub enum FetchStep {
    /// The channel is closed: the fetch is over.
    Closed,
    /// Every chunk was in memory: the fetch is over.
    Complete,
    /// These chunks are still to be loaded.
    Load(Vec<Vector2>),
}

/// How a fetch goes on after an answer of the storage.
pub enum LoadStep {
    /// The chunk was sent: wait for the next answer.
    Continue,
    /// The channel is closed, which cannot be mended: stop listening.
    Stop,
    /// The chunk is to be generated. A failure that was not expected is to be reported.
    Generate { pos: Vector2, failure: Option<ChunkReadingError> },
}

/// How the generation of a chunk goes on.
pub enum GenerateStep {
    /// Nobody waits for chunks any more.
    Stop,
    /// The chunk has been loaded meanwhile, and has been handed to the channel.
    Delivered,
    /// The chunk is being generated for another fetch: begin again when that has ended.
    Wait,
    /// The chunk is to be generated.
    Generate,
}

/// Whether chunks are still to be generated for a fetch.
pub struct Generation {
    continue_to_generate: bool,
}

impl View for Generation {
    type V = bool;

    closed spec fn view(&self) -> bool {
        self.continue_to_generate
    }
}

/// The chunks that messages are about.
pub open spec fn message_names(messages: Seq<(SyncChunk, bool)>) -> Seq<SyncChunk> {
    messages.map_values(|message: (SyncChunk, bool)| message.0)
}

/// The spawn chunks once the named chunks are put among them, each under its own position.
pub open spec fn with_spawn_chunks(
    spawn_chunks: Map<(i32, i32), SyncChunk>,
    chunks: Map<SyncChunk, ChunkView>,
    received: Seq<SyncChunk>,
) -> Map<(i32, i32), SyncChunk>
    decreases received.len(),
{
    if received.len() == 0 {
        spawn_chunks
    } else {
        with_spawn_chunks(spawn_chunks, chunks, received.drop_last()).insert(
            chunks[received.last()].position.key(),
            received.last(),
        )
    }
}

impl LevelView {
    /// The chunk at a coordinate, if it is in memory: among the loaded chunks, or else among
    /// the spawn chunks.
    pub open spec fn cached(self, chunk: Vector2) -> Option<SyncChunk> {
        if self.loaded_chunks.contains_key(chunk.key()) {
            Some(self.loaded_chunks[chunk.key()])
        } else {
            self.spawn_chunks.get(chunk.key())
        }
    }

    /// What is sent for the chunks of a list that are in memory: the chunk, and that it is not
    /// new.
    pub open spec fn cached_messages(self, chunks: Seq<Vector2>) -> Seq<(SyncChunk, bool)> {
        chunks.filter_map(
            |chunk: Vector2|
                match self.cached(chunk) {
                    Some(name) => Some((name, false)),
                    None => None,
                },
        )
    }

    /// The chunks of a list that are not in memory.
    pub open spec fn uncached(self, chunks: Seq<Vector2>) -> Seq<Vector2> {
        chunks.filter(|chunk: Vector2| self.cached(chunk) is None)
    }

    /// The level once the chunks of a list that are among the spawn chunks are loaded.
    pub open spec fn served(self, chunks: Seq<Vector2>) -> LevelView {
        LevelView {
            loaded_chunks: Map::new(
                |key: (i32, i32)|
                    self.loaded_chunks.contains_key(key) || (self.spawn_chunks.contains_key(key)
                        && chunks.contains(Vector2::of_key(key))),
                |key: (i32, i32)|
                    if self.loaded_chunks.contains_key(key) {
                        self.loaded_chunks[key]
                    } else {
                        self.spawn_chunks[key]
                    },
            ),
            ..self
        }
    }

    /// How the generation of the chunk at a coordinate begins, for a fetch that is still to
    /// generate chunks or is not.
    pub open spec fn generate_step(self, pos: Vector2, continues: bool) -> GenerateStep {
        if !continues {
            GenerateStep::Stop
        } else if self.loaded_chunks.contains_key(pos.key()) {
            GenerateStep::Delivered
        } else if self.generating.contains(pos.key()) {
            GenerateStep::Wait
        } else {
            GenerateStep::Generate
        }
    }

    /// The level while the chunk at a coordinate is being generated.
    pub open spec fn with_generating(self, pos: Vector2) -> LevelView {
        LevelView { generating: self.generating.insert(pos.key()), ..self }
    }

    /// The level once the chunk at a coordinate is no longer being generated.
    pub open spec fn without_generating(self, pos: Vector2) -> LevelView {
        LevelView { generating: self.generating.remove(pos.key()), ..self }
    }

    /// Whether the chunk at a coordinate goes by a name once one is loaded there: it is the
    /// chunk that is loaded there already, or else a new one, under a name that is free.
    pub open spec fn may_go_by(self, coord: Vector2, name: SyncChunk) -> bool {
        if self.loaded_chunks.contains_key(coord.key()) {
            self.loaded_chunks[coord.key()] == name
        } else {
            !self.chunks.contains_key(name)
        }
    }

    /// The level with a chunk loaded at a coordinate, under a name, unless one is loaded there
    /// already.
    pub open spec fn with_chunk(
        self,
        coord: Vector2,
        chunk: ChunkView,
        name: SyncChunk,
    ) -> LevelView {
        if self.loaded_chunks.contains_key(coord.key()) {
            self
        } else {
            LevelView {
                loaded_chunks: self.loaded_chunks.insert(coord.key(), name),
                chunks: self.chunks.insert(name, chunk),
                ..self
            }
        }
    }

    /// The level with a chunk from storage, and with the ticks that are stored in it.
    pub open spec fn with_loaded_chunk(self, chunk: ChunkView, name: SyncChunk) -> LevelView {
        LevelView {
            block_ticks: self.block_ticks + chunk.block_ticks,
            fluid_ticks: self.fluid_ticks + chunk.fluid_ticks,
            ..self.with_chunk(chunk.position, chunk, name)
        }
    }
}

/// Puts ticks behind others.
fn extend_ticks(ticks: &mut Vec<ScheduledTick>, more: &Vec<ScheduledTick>)
    ensures
        final(ticks)@ == old(ticks)@ + more@,
{
    let mut i: usize = 0;
    while i < more.len()
        invariant
            i <= more@.len(),
            ticks@ == old(ticks)@ + more@.take(i as int),
        decreases more@.len() - i,
    {
        ticks.push(more[i]);
        i = i + 1;
        assert(more@.take(i as int) =~= more@.take(i - 1).push(more@[i - 1]));
    }
    assert(more@.take(i as int) =~= more@);
}

/// Whether a key stands in a list.
fn is_among(keys: &Vec<(i32, i32)>, key: (i32, i32)) -> (found: bool)
    ensures
        found == keys@.contains(key),
{
    let mut i: usize = 0;
    while i < keys.len()
        invariant
            i <= keys@.len(),
            forall|j: int| 0 <= j < i ==> #[trigger] keys@[j] != key,
        decreases keys@.len() - i,
    {
        if keys[i].0 == key.0 && keys[i].1 == key.1 {
            assert(keys@[i as int] == key);
            return true;
        }
        i = i + 1;
    }
    false
}

/// Takes a key out of a list, wherever it stands there.
fn take_out(keys: &mut Vec<(i32, i32)>, key: (i32, i32))
    ensures
        forall|k: (i32, i32)| #[trigger]
            final(keys)@.contains(k) <==> old(keys)@.contains(k) && k != key,
{
    let mut kept: Vec<(i32, i32)> = Vec::new();
    let mut i: usize = 0;
    while i < keys.len()
        invariant
            i <= keys@.len(),
            keys@ == old(keys)@,
            forall|k: (i32, i32)| #[trigger]
                kept@.contains(k) <==> keys@.take(i as int).contains(k) && k != key,
        decreases keys@.len() - i,
    {
        let next = keys[i];
        let ghost before = kept@;
        if !(next.0 == key.0 && next.1 == key.1) {
            kept.push(next);
        }
        proof {
            assert(keys@.take(i + 1) =~= keys@.take(i as int).push(next));
            assert forall|k: (i32, i32)| #[trigger]
                kept@.contains(k) <==> keys@.take(i + 1).contains(k) && k != key by {
                lemma_push_has(keys@.take(i as int), next, k);
                lemma_push_has(before, next, k);
                assert(before.contains(k) <==> keys@.take(i as int).contains(k) && k != key);
            }
        }
        i = i + 1;
    }
    assert(keys@.take(i as int) =~= keys@);
    *keys = kept;
}

impl Level {
    /// Answers for one chunk from memory, if the level has it. A spawn chunk is loaded from
    /// then on.
    fn serve_cached(&mut self, chunk: &Vector2) -> (cached: Option<SyncChunk>)
        requires
            old(self)@.wf(),
        ensures
            final(self)@.wf(),
            cached == old(self)@.cached(*chunk),
            final(self)@ == old(self)@.served(seq![*chunk]),
    {
        let ghost list = seq![*chunk];
        proof {
            assert(list[0] == *chunk);
            assert forall|key: (i32, i32)| #[trigger] list.contains(Vector2::of_key(key)) implies key
                == chunk.key() by {}
        }
        match get_cell(&self.state.loaded_chunks, chunk.key()) {
            Some(name) => {
                assert(self@.loaded_chunks =~= old(self)@.served(list).loaded_chunks);
                Some(name)
            },
            None => match get_cell(&self.state.spawn_chunks, chunk.key()) {
                Some(name) => {
                    insert_cell(&mut self.state.loaded_chunks, chunk.key(), name);
                    assert(list.contains(Vector2::of_key(chunk.key())));
                    assert(self@.loaded_chunks =~= old(self)@.served(list).loaded_chunks);
                    Some(name)
                },
                None => {
                    assert(self@.loaded_chunks =~= old(self)@.served(list).loaded_chunks);
                    None
                },
            },
        }
    }

    /// Sends a chunk, and returns whether the channel took it. A chunk that it took is held
    /// until it is released.
    fn send_chunk(
        &mut self,
        is_new: bool,
        chunk: SyncChunk,
        channel: &mut ChunkSender,
    ) -> (is_ok: bool)
        requires
            old(self)@.wf(),
            old(self)@.chunks.contains_key(chunk),
        ensures
            final(self)@.wf(),
            final(self)@ == if is_ok {
                old(self)@.with_held(seq![chunk])
            } else {
                old(self)@
            },
            final(channel).offered() == old(channel).offered().push((chunk, is_new)),
            final(channel)@ == if is_ok {
                old(channel)@.push((chunk, is_new))
            } else {
                old(channel)@
            },
    {
        let is_ok = channel.send(chunk, is_new);
        if is_ok {
            self.hold_one(chunk);
        }
        is_ok
    }

    /// Starts to fetch chunks: sends those that are in memory, in the order in which they are
    /// asked for, and returns which of the others are to be loaded. If the channel gives a
    /// chunk back because it is closed, nothing more is done. The chunks that were sent are
    /// held until they are released.
    pub fn fetch_chunks(&mut self, chunks: &[Vector2], channel: &mut ChunkSender) -> (step: FetchStep)
        requires
            old(self)@.wf(),
        ensures
            final(self)@.wf(),
            step is Closed ==> exists|n: int|
                {
                    &&& 0 <= n < chunks@.len()
                    &&& old(self)@.cached(#[trigger] chunks@[n]) is Some
                    &&& final(self)@ == old(self)@.served(chunks@.take(n + 1)).with_held(
                        message_names(old(self)@.cached_messages(chunks@.take(n))),
                    )
                    &&& final(channel)@ == old(channel)@ + old(self)@.cached_messages(
                        chunks@.take(n),
                    )
                    &&& final(channel).offered() == old(channel).offered()
                        + old(self)@.cached_messages(chunks@.take(n + 1))
                },
            !(step is Closed) ==> {
                &&& final(self)@ == old(self)@.served(chunks@).with_held(
                    message_names(old(self)@.cached_messages(chunks@)),
                )
                &&& final(channel)@ == old(channel)@ + old(self)@.cached_messages(chunks@)
                &&& final(channel).offered() == old(channel).offered()
                    + old(self)@.cached_messages(chunks@)
            },
            step is Complete ==> old(self)@.uncached(chunks@).len() == 0,
            step matches FetchStep::Load(remaining_chunks) ==> {
                &&& remaining_chunks@ == old(self)@.uncached(chunks@)
                &&& remaining_chunks@.len() > 0
            },
    {
        let ghost before = self@;
        let ghost sent = channel@;
        let ghost offered = channel.offered();
        let mut remaining_chunks: Vec<Vector2> = Vec::new();
        let mut i: usize = 0;
        proof {
            reveal(Seq::filter);
            reveal(Seq::filter_map);
            assert(chunks@.take(0) =~= Seq::empty());
            assert(message_names(before.cached_messages(chunks@.take(0))) =~= Seq::empty());
            lemma_served_nothing(before, chunks@.take(0));
        }
        while i < chunks.len()
            invariant
                i <= chunks@.len(),
                self@.wf(),
                before == old(self)@,
                sent == old(channel)@,
                offered == old(channel).offered(),
                self@ == before.served(chunks@.take(i as int)).with_held(
                    message_names(before.cached_messages(chunks@.take(i as int))),
                ),
                channel@ == sent + before.cached_messages(chunks@.take(i as int)),
                channel.offered() == offered + before.cached_messages(chunks@.take(i as int)),
                remaining_chunks@ == before.uncached(chunks@.take(i as int)),
            decreases chunks@.len() - i,
        {
            let chunk = chunks[i];
            let ghost done = chunks@.take(i as int);
            proof {
                lemma_filter_take(chunks@, i as int, |chunk: Vector2| before.cached(chunk) is None);
                reveal(Seq::filter_map);
                assert(chunks@.take(i + 1).drop_last() =~= done);
                lemma_served_next(before, done, chunk);
            }
            let ghost sent_names = message_names(before.cached_messages(done));
            match self.serve_cached(&chunk) {
                Some(name) => {
                    proof {
                        assert(self@ == before.served(chunks@.take(i + 1)).with_held(sent_names));
                        assert(before.cached_messages(chunks@.take(i + 1))
                            =~= before.cached_messages(done).push((name, false)));
                        assert(message_names(before.cached_messages(chunks@.take(i + 1)))
                            =~= sent_names.push(name));
                        lemma_held_push(before.served(chunks@.take(i + 1)), sent_names, name);
                        assert(self@.loaded_chunks.contains_key(chunk.key()));
                    }
                    if !self.send_chunk(false, name, channel) {
                        assert(before.cached(chunks@[i as int]) is Some);
                        return FetchStep::Closed;
                    }
                },
                None => {
                    assert(self@ == before.served(chunks@.take(i + 1)).with_held(sent_names));
                    remaining_chunks.push(chunk);
                },
            }
            i = i + 1;
        }
        assert(chunks@.take(i as int) =~= chunks@);
        if remaining_chunks.is_empty() {
            FetchStep::Complete
        } else {
            FetchStep::Load(remaining_chunks)
        }
    }

    /// Takes up a chunk, under a name of its own.
    fn add_chunk(&mut self, coord: Vector2, chunk: ChunkData) -> (name: SyncChunk)
        requires
            old(self)@.wf(),
        ensures
            final(self)@.wf(),
            old(self)@.may_go_by(coord, name),
            final(self)@ == old(self)@.with_chunk(coord, chunk@, name),
            final(self)@.loaded_chunks.get(coord.key()) == Some(name),
    {
        match get_cell(&self.state.loaded_chunks, coord.key()) {
            Some(name) => name,
            None => {
                let name = self.state.chunks.add(chunk);
                let kept = or_insert_cell(&mut self.state.loaded_chunks, coord.key(), name);
                assert(self@ =~= old(self)@.with_chunk(coord, chunk@, name));
                kept
            },
        }
    }

    /// Takes up a chunk from storage with the ticks that are stored in it, and returns the
    /// chunk that is loaded at its position. If one was loaded there already, it stays.
    fn load_chunk(&mut self, chunk: ChunkData) -> (name: SyncChunk)
        requires
            old(self)@.wf(),
        ensures
            final(self)@.wf(),
            old(self)@.may_go_by(chunk.position, name),
            final(self)@ == old(self)@.with_loaded_chunk(chunk@, name),
            final(self)@.loaded_chunks.get(chunk.position.key()) == Some(name),
    {
        extend_ticks(&mut self.state.block_ticks, &chunk.block_ticks);
        extend_ticks(&mut self.state.fluid_ticks, &chunk.fluid_ticks);
        assert(self@ == (LevelView {
            block_ticks: self.state.block_ticks@,
            fluid_ticks: self.state.fluid_ticks@,
            ..old(self)@
        }));
        let coord = chunk.position;
        self.add_chunk(coord, chunk)
    }

    /// Handles an answer of the storage: a chunk that was read is taken up and sent; one that
    /// is not there, or cannot be read, is to be generated. A chunk that was sent is held until
    /// it is released.
    pub fn handle_load(
        &mut self,
        data: LoadedData<ChunkData, ChunkReadingError>,
        channel: &mut ChunkSender,
    ) -> (step: LoadStep)
        requires
            old(self)@.wf(),
        ensures
            final(self)@.wf(),
            data matches LoadedData::Loaded(chunk) ==> {
                let name = final(self)@.loaded_chunks[chunk.position.key()];
                let taken_up = old(self)@.with_loaded_chunk(chunk@, name);
                &&& step is Continue || step is Stop
                &&& old(self)@.may_go_by(chunk.position, name)
                &&& final(self)@.loaded_chunks.contains_key((chunk.position.x, chunk.position.z))
                &&& !old(self)@.loaded_chunks.contains_key((chunk.position.x, chunk.position.z))
                    ==> final(self)@.chunks[name] == chunk@
                &&& final(self)@ == if step is Continue {
                    taken_up.with_held(seq![name])
                } else {
                    taken_up
                }
                &&& final(channel)@ == if step is Continue {
                    old(channel)@.push((name, false))
                } else {
                    old(channel)@
                }
                &&& final(channel).offered() == old(channel).offered().push((name, false))
            },
            !(data is Loaded) ==> final(self)@ == old(self)@ && *final(channel) == *old(channel),
            data matches LoadedData::Missing(pos) ==> step == (LoadStep::Generate {
                pos,
                failure: None,
            }),
            data matches LoadedData::Error((pos, error)) ==> step == (LoadStep::Generate {
                pos,
                failure: if error.spec_is_expected() {
                    None
                } else {
                    Some(error)
                },
            }),
    {
        match data {
            LoadedData::Loaded(chunk) => {
                let name = self.load_chunk(chunk);
                assert(self@.loaded_chunks.contains_key(chunk.position.key()));
                if self.send_chunk(false, name, channel) {
                    LoadStep::Continue
                } else {
                    LoadStep::Stop
                }
            },
            LoadedData::Missing(pos) => LoadStep::Generate { pos, failure: None },
            LoadedData::Error((pos, error)) => {
                if error.is_expected() {
                    LoadStep::Generate { pos, failure: None }
                } else {
                    LoadStep::Generate { pos, failure: Some(error) }
                }
            },
        }
    }

    /// Sends a chunk that was to be generated, and returns whether the channel took it. If it
    /// did not, nobody waits for chunks, and no more are to be generated.
    fn deliver(
        &mut self,
        chunk: SyncChunk,
        generation: &mut Generation,
        channel: &mut ChunkSender,
    ) -> (is_ok: bool)
        requires
            old(self)@.wf(),
            old(self)@.chunks.contains_key(chunk),
        ensures
            final(self)@.wf(),
            final(self)@ == if is_ok {
                old(self)@.with_held(seq![chunk])
            } else {
                old(self)@
            },
            final(generation)@ == (old(generation)@ && is_ok),
            final(channel).offered() == old(channel).offered().push((chunk, true)),
            final(channel)@ == if is_ok {
                old(channel)@.push((chunk, true))
            } else {
                old(channel)@
            },
    {
        let is_ok = self.send_chunk(true, chunk, channel);
        if !is_ok {
            generation.stop();
        }
        is_ok
    }

    /// Begins with a chunk that is to be generated, once its turn has come. If it has been
    /// loaded meanwhile, it is sent as a new one, and held until it is released. If the channel
    /// does not take it, no more chunks are to be generated. A chunk is generated for one fetch
    /// at a time: until the generation has been finished or abandoned, others have to wait.
    pub fn start_generate(
        &mut self,
        pos: &Vector2,
        generation: &mut Generation,
        channel: &mut ChunkSender,
    ) -> (step: GenerateStep)
        requires
            old(self)@.wf(),
        ensures
            final(self)@.wf(),
            step == old(self)@.generate_step(*pos, old(generation)@),
            step is Delivered ==> {
                let name = old(self)@.loaded_chunks[pos.key()];
                let is_ok = final(generation)@;
                &&& final(self)@ == if is_ok {
                    old(self)@.with_held(seq![name])
                } else {
                    old(self)@
                }
                &&& final(channel).offered() == old(channel).offered().push((name, true))
                &&& final(channel)@ == if is_ok {
                    old(channel)@.push((name, true))
                } else {
                    old(channel)@
                }
            },
            !(step is Delivered) ==> {
                &&& final(self)@ == if step is Generate {
                    old(self)@.with_generating(*pos)
                } else {
                    old(self)@
                }
                &&& final(generation)@ == old(generation)@
                &&& *final(channel) == *old(channel)
            },
    {
        if !generation.may_continue() {
            return GenerateStep::Stop;
        }
        match get_cell(&self.state.loaded_chunks, pos.key()) {
            Some(name) => {
                assert(self@.loaded_chunks.contains_key(pos.key()));
                self.deliver(name, generation, channel);
                GenerateStep::Delivered
            },
            None => {
                if is_among(&self.state.generating, pos.key()) {
                    return GenerateStep::Wait;
                }
                let ghost before = self.state.generating@;
                self.state.generating.push(pos.key());
                proof {
                    assert forall|key: (i32, i32)| #[trigger]
                        self.state.generating@.contains(key) <==> before.contains(key) || pos.key()
                            == key by {
                        lemma_push_has(before, pos.key(), key);
                    }
                    assert(self@.generating =~= old(self)@.generating.insert(pos.key()));
                    assert(self@ == old(self)@.with_generating(*pos));
                }
                GenerateStep::Generate
            },
        }
    }

    /// Gives up the generation of a chunk, so that others need not wait for it.
    pub fn abandon_generate(&mut self, pos: &Vector2)
        requires
            old(self)@.wf(),
        ensures
            final(self)@.wf(),
            final(self)@ == old(self)@.without_generating(*pos),
    {
        take_out(&mut self.state.generating, pos.key());
        proof {
            assert(self@.generating =~= old(self)@.generating.remove(pos.key()));
            assert(self@ == old(self)@.without_generating(*pos));
        }
    }

    /// Ends with a chunk that was generated for a coordinate: it is taken up, unless one is
    /// loaded there already, and the chunk that is loaded there is sent as a new one. Returns
    /// whether the channel took it; it is held until it is released then. If the channel did
    /// not, no more chunks are to be generated. Nobody has to wait for the chunk any more.
    pub fn finish_generate(
        &mut self,
        pos: &Vector2,
        generated_chunk: ChunkData,
        generation: &mut Generation,
        channel: &mut ChunkSender,
    ) -> (is_ok: bool)
        requires
            old(self)@.wf(),
        ensures
            final(self)@.wf(),
            final(self)@.loaded_chunks.contains_key(pos.key()),
            ({
                let name = final(self)@.loaded_chunks[pos.key()];
                let taken_up = old(self)@.with_chunk(
                    *pos,
                    generated_chunk@,
                    name,
                ).without_generating(*pos);
                &&& old(self)@.may_go_by(*pos, name)
                &&& !old(self)@.loaded_chunks.contains_key((pos.x, pos.z))
                    ==> final(self)@.chunks[name] == generated_chunk@
                &&& final(self)@ == if is_ok {
                    taken_up.with_held(seq![name])
                } else {
                    taken_up
                }
                &&& final(generation)@ == (old(generation)@ && is_ok)
                &&& final(channel).offered() == old(channel).offered().push((name, true))
                &&& final(channel)@ == if is_ok {
                    old(channel)@.push((name, true))
                } else {
                    old(channel)@
                }
            }),
    {
        let name = self.add_chunk(*pos, generated_chunk);
        self.abandon_generate(pos);
        assert(self@.loaded_chunks.contains_key(pos.key()));
        self.deliver(name, generation, channel)
    }

    /// Puts received chunks among the spawn chunks, each under its own position.
    pub fn read_spawn_chunks(&mut self, received: &[SyncChunk])
        requires
            old(self)@.wf(),
            forall|i: int|
                0 <= i < received@.len() ==> old(self)@.chunks.contains_key(#[trigger] received@[i]),
        ensures
            final(self)@.wf(),
            final(self)@ == (LevelView {
                spawn_chunks: with_spawn_chunks(
                    old(self)@.spawn_chunks,
                    old(self)@.chunks,
                    received@,
                ),
                ..old(self)@
            }),
    {
        let ghost before = self@;
        let mut i: usize = 0;
        assert(received@.take(0) =~= Seq::empty());
        while i < received.len()
            invariant
                i <= received@.len(),
                before.wf(),
                self@.wf(),
                forall|j: int|
                    0 <= j < received@.len() ==> before.chunks.contains_key(#[trigger] received@[j]),
                self@ == (LevelView {
                    spawn_chunks: with_spawn_chunks(
                        before.spawn_chunks,
                        before.chunks,
                        received@.take(i as int),
                    ),
                    ..before
                }),
            decreases received@.len() - i,
        {
            let name = received[i];
            let ghost held = self@;
            assert(received@.take(i + 1).drop_last() =~= received@.take(i as int));
            if let Some(chunk) = self.chunk(name) {
                let key = chunk.position.key();
                insert_cell(&mut self.state.spawn_chunks, key, name);
                assert(self@ == (LevelView {
                    spawn_chunks: held.spawn_chunks.insert(key, name),
                    ..held
                }));
            }
            i = i + 1;
            assert(self@.spawn_chunks =~= with_spawn_chunks(
                before.spawn_chunks,
                before.chunks,
                received@.take(i as int),
            ));
        }
        assert(received@.take(i as int) =~= received@);
    }
}

impl Generation {
    /// Chunks are to be generated until nobody waits for them.
    pub fn new() -> (generation: Generation)
        ensures
            generation@,
    {
        Generation { continue_to_generate: true }
    }

    /// Whether chunks are still to be generated.
    pub fn may_continue(&self) -> (may: bool)
        ensures
            may == self@,
    {
        self.continue_to_generate
    }

    /// No more chunks are to be generated.
    fn stop(&mut self)
        ensures
            !final(self)@,
    {
        self.continue_to_generate = false;
    }
}

/// Nothing is served.
proof fn lemma_served_nothing(level: LevelView, none: Seq<Vector2>)
    requires
        none.len() == 0,
    ensures
        level.served(none).with_held(Seq::empty()) == level,
{
    broadcast use vstd::seq_lib::group_to_multiset_ensures;

    assert(level.served(none).loaded_chunks =~= level.loaded_chunks);
    assert(level.served(none).with_held(Seq::empty()).held_chunks =~= level.held_chunks);
}

/// One chunk more is served.
proof fn lemma_served_next(level: LevelView, done: Seq<Vector2>, chunk: Vector2)
    ensures
        level.served(done).served(seq![chunk]) == level.served(done.push(chunk)),
        level.served(done).cached(chunk) == level.cached(chunk),
{
    assert forall|key: (i32, i32)| #[trigger]
        done.push(chunk).contains(Vector2::of_key(key)) <==> done.contains(Vector2::of_key(key))
            || seq![chunk].contains(Vector2::of_key(key)) by {
        lemma_push_has(done, chunk, Vector2::of_key(key));
        lemma_push_has(Seq::empty(), chunk, Vector2::of_key(key));
        assert(seq![chunk] =~= Seq::empty().push(chunk));
    }
    assert(level.served(done).served(seq![chunk]).loaded_chunks =~= level.served(
        done.push(chunk),
    ).loaded_chunks);
}

} // verus!
