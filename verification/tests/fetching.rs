use pumpkin_level::channel::ChunkSender;
use pumpkin_level::chunk::{
    ChunkData, ChunkParsingError, ChunkReadingError, ChunkSections, LoadedData,
};
use pumpkin_level::level::fetch::{FetchStep, GenerateStep, Generation, LoadStep};
use pumpkin_level::level::{Level, SyncChunk};
use pumpkin_level::math::{BlockPos, Vector2, Vector3};
use pumpkin_level::tick::{ScheduledTick, TickPriority};
use std::path::PathBuf;
use tokio::sync::mpsc::{unbounded_channel, UnboundedReceiver};

fn empty_level() -> Level {
    Level::from_root_folder(PathBuf::from("world"), 0)
}

fn at(x: i32, z: i32) -> Vector2 {
    Vector2 { x, z }
}

fn chunk_of(position: Vector2, fill: u16) -> ChunkData {
    ChunkData {
        section: ChunkSections::new(0, vec![fill; 256]),
        position,
        block_ticks: Vec::new(),
        fluid_ticks: Vec::new(),
        block_entities: Vec::new(),
        dirty: false,
    }
}

fn received(receiver: &mut UnboundedReceiver<(SyncChunk, bool)>) -> Vec<(SyncChunk, bool)> {
    let mut messages = Vec::new();
    while let Ok(message) = receiver.try_recv() {
        messages.push(message);
    }
    messages
}

/// Takes up a chunk as if it came from storage. It is loaded, and not held.
fn load(level: &mut Level, chunk: ChunkData) -> SyncChunk {
    let (sender, mut receiver) = unbounded_channel();
    level.handle_load(LoadedData::Loaded(chunk), &mut ChunkSender::new(sender));
    let (name, _) = receiver.try_recv().unwrap();
    level.release_chunk(name);
    name
}

/// Asks for one chunk, and gives it back at once. Answers only if it is in memory.
fn fetch_one(level: &mut Level, chunk: Vector2) -> Option<SyncChunk> {
    let (sender, mut receiver) = unbounded_channel();
    level.fetch_chunks(&[chunk], &mut ChunkSender::new(sender));
    let (name, _) = receiver.try_recv().ok()?;
    level.release_chunk(name);
    Some(name)
}

#[test]
fn chunks_in_memory_are_sent_and_the_others_remain() {
    let mut level = empty_level();
    let a = load(&mut level, chunk_of(at(0, 0), 1));
    let b = load(&mut level, chunk_of(at(1, 0), 2));
    let (sender, mut receiver) = unbounded_channel();
    let mut channel = ChunkSender::new(sender);
    let step = level.fetch_chunks(&[at(1, 0), at(9, 9), at(0, 0), at(8, 8)], &mut channel);
    match step {
        FetchStep::Load(remaining) => assert_eq!(remaining, vec![at(9, 9), at(8, 8)]),
        _ => panic!("two chunks are to be loaded"),
    }
    assert_eq!(received(&mut receiver), vec![(b, false), (a, false)]);
}

#[test]
fn a_fetch_from_memory_alone_is_complete() {
    let mut level = empty_level();
    let a = load(&mut level, chunk_of(at(0, 0), 1));
    let (sender, mut receiver) = unbounded_channel();
    let mut channel = ChunkSender::new(sender);
    assert!(matches!(
        level.fetch_chunks(&[at(0, 0), at(0, 0)], &mut channel),
        FetchStep::Complete
    ));
    assert_eq!(received(&mut receiver), vec![(a, false), (a, false)]);
    assert!(matches!(
        level.fetch_chunks(&[], &mut channel),
        FetchStep::Complete
    ));
    assert_eq!(received(&mut receiver), vec![]);
}

#[test]
fn a_fetch_ends_when_the_channel_is_closed() {
    let mut level = empty_level();
    load(&mut level, chunk_of(at(0, 0), 1));
    let (sender, receiver) = unbounded_channel();
    drop(receiver);
    let mut channel = ChunkSender::new(sender);
    assert!(matches!(
        level.fetch_chunks(&[at(9, 9), at(0, 0)], &mut channel),
        FetchStep::Closed
    ));
    assert!(matches!(
        level.fetch_chunks(&[at(9, 9)], &mut channel),
        FetchStep::Load(_)
    ));
}

#[test]
fn a_spawn_chunk_is_loaded_when_it_is_fetched() {
    let mut level = empty_level();
    let a = load(&mut level, chunk_of(at(0, 0), 1));
    level.read_spawn_chunks(&[a]);
    level.clean_memory();
    assert_eq!(level.try_get_chunk(at(0, 0)), None);
    let (sender, mut receiver) = unbounded_channel();
    let mut channel = ChunkSender::new(sender);
    assert!(matches!(
        level.fetch_chunks(&[at(0, 0)], &mut channel),
        FetchStep::Complete
    ));
    assert_eq!(received(&mut receiver), vec![(a, false)]);
    assert_eq!(level.try_get_chunk(at(0, 0)), Some(a));
}

#[test]
fn a_second_fetch_gets_the_same_chunks() {
    let mut level = empty_level();
    let a = load(&mut level, chunk_of(at(0, 0), 1));
    level.read_spawn_chunks(&[a]);
    level.clean_memory();
    let (sender, mut receiver) = unbounded_channel();
    let mut channel = ChunkSender::new(sender);
    level.fetch_chunks(&[at(0, 0), at(3, 3)], &mut channel);
    let first = received(&mut receiver);
    level.fetch_chunks(&[at(0, 0), at(3, 3)], &mut channel);
    assert_eq!(received(&mut receiver), first);
    assert_eq!(first.len(), 1);
}

#[test]
fn a_chunk_from_storage_is_taken_up_and_sent() {
    let mut level = empty_level();
    let (sender, mut receiver) = unbounded_channel();
    let mut channel = ChunkSender::new(sender);
    let pos = BlockPos(Vector3 { x: 32, y: 0, z: 48 });
    let stored = ScheduledTick {
        block_pos: pos,
        delay: 4,
        priority: TickPriority::Low,
        target_block_id: 5,
    };
    let mut chunk = chunk_of(at(2, 3), 6);
    chunk.block_ticks.push(stored);
    chunk.fluid_ticks.push(stored);
    let step = level.handle_load(LoadedData::Loaded(chunk), &mut channel);
    assert!(matches!(step, LoadStep::Continue));
    let name = level.try_get_chunk(at(2, 3)).unwrap();
    assert_eq!(received(&mut receiver), vec![(name, false)]);
    assert!(level.is_block_tick_scheduled(&pos, 5));
    assert!(level.is_fluid_tick_scheduled(&pos));
    assert_eq!(level.chunk(name).unwrap().block_ticks, vec![stored]);
    assert_eq!(level.get_block_state(&pos).unwrap().state_id, 6);
}

#[test]
fn a_chunk_that_is_loaded_is_not_replaced() {
    let mut level = empty_level();
    let (sender, mut receiver) = unbounded_channel();
    let mut channel = ChunkSender::new(sender);
    let a = load(&mut level, chunk_of(at(0, 0), 1));
    level.handle_load(LoadedData::Loaded(chunk_of(at(0, 0), 2)), &mut channel);
    assert_eq!(received(&mut receiver), vec![(a, false)]);
    let mut generation = Generation::new();
    assert!(level.finish_generate(
        &at(0, 0),
        chunk_of(at(0, 0), 3),
        &mut generation,
        &mut channel
    ));
    assert_eq!(received(&mut receiver), vec![(a, true)]);
    let pos = BlockPos(Vector3 { x: 0, y: 0, z: 0 });
    assert_eq!(level.get_block_state(&pos).unwrap().state_id, 1);
    assert_eq!(level.loaded_chunk_count(), 1);
}

#[test]
fn loading_stops_when_the_channel_is_closed() {
    let mut level = empty_level();
    let (sender, receiver) = unbounded_channel();
    drop(receiver);
    let mut channel = ChunkSender::new(sender);
    let step = level.handle_load(LoadedData::Loaded(chunk_of(at(0, 0), 2)), &mut channel);
    assert!(matches!(step, LoadStep::Stop));
    assert!(level.try_get_chunk(at(0, 0)).is_some());
}

#[test]
fn a_chunk_that_is_not_stored_is_generated() {
    let mut level = empty_level();
    let (sender, mut receiver) = unbounded_channel();
    let mut channel = ChunkSender::new(sender);
    let quiet = [
        LoadedData::Missing(at(4, 5)),
        LoadedData::Error((at(4, 5), ChunkReadingError::ChunkNotExist)),
        LoadedData::Error((
            at(4, 5),
            ChunkReadingError::ParsingError(ChunkParsingError::ChunkNotGenerated),
        )),
    ];
    for data in quiet {
        match level.handle_load(data, &mut channel) {
            LoadStep::Generate { pos, failure } => {
                assert_eq!(pos, at(4, 5));
                assert!(failure.is_none());
            }
            _ => panic!("the chunk is to be generated"),
        }
    }
    assert_eq!(received(&mut receiver), vec![]);
    assert_eq!(level.loaded_chunk_count(), 0);
}

#[test]
fn a_chunk_that_cannot_be_read_is_reported_and_generated() {
    let mut level = empty_level();
    let (sender, _receiver) = unbounded_channel();
    let mut channel = ChunkSender::new(sender);
    let broken = LoadedData::Error((
        at(4, 5),
        ChunkReadingError::ParsingError(ChunkParsingError::Other("bad tag".to_string())),
    ));
    match level.handle_load(broken, &mut channel) {
        LoadStep::Generate { pos, failure } => {
            assert_eq!(pos, at(4, 5));
            assert!(matches!(
                failure,
                Some(ChunkReadingError::ParsingError(ChunkParsingError::Other(_)))
            ));
        }
        _ => panic!("the chunk is to be generated"),
    }
    assert!(!ChunkReadingError::Other("disk".to_string()).is_expected());
}

#[test]
fn a_chunk_is_generated_unless_it_is_loaded() {
    let mut level = empty_level();
    let mut generation = Generation::new();
    let (sender, mut receiver) = unbounded_channel();
    let mut channel = ChunkSender::new(sender);
    assert!(matches!(
        level.start_generate(&at(1, 1), &mut generation, &mut channel),
        GenerateStep::Generate
    ));
    assert_eq!(received(&mut receiver), vec![]);
    let a = load(&mut level, chunk_of(at(1, 1), 7));
    assert!(matches!(
        level.start_generate(&at(1, 1), &mut generation, &mut channel),
        GenerateStep::Delivered
    ));
    assert_eq!(received(&mut receiver), vec![(a, true)]);
    assert!(generation.may_continue());
}

#[test]
fn a_chunk_is_generated_for_one_fetch_at_a_time() {
    let mut level = empty_level();
    let mut first = Generation::new();
    let mut second = Generation::new();
    let (sender, mut receiver) = unbounded_channel();
    let mut channel = ChunkSender::new(sender);
    assert!(matches!(
        level.start_generate(&at(1, 1), &mut first, &mut channel),
        GenerateStep::Generate
    ));
    assert!(matches!(
        level.start_generate(&at(1, 1), &mut second, &mut channel),
        GenerateStep::Wait
    ));
    assert!(matches!(
        level.start_generate(&at(2, 1), &mut second, &mut channel),
        GenerateStep::Generate
    ));
    assert_eq!(received(&mut receiver), vec![]);
    assert!(level.finish_generate(&at(1, 1), chunk_of(at(1, 1), 7), &mut first, &mut channel));
    assert!(matches!(
        level.start_generate(&at(1, 1), &mut second, &mut channel),
        GenerateStep::Delivered
    ));
    let name = level.try_get_chunk(at(1, 1)).unwrap();
    assert_eq!(received(&mut receiver), vec![(name, true), (name, true)]);
    assert!(matches!(
        level.start_generate(&at(2, 1), &mut first, &mut channel),
        GenerateStep::Wait
    ));
}

#[test]
fn an_abandoned_chunk_is_generated_for_another_fetch() {
    let mut level = empty_level();
    let mut generation = Generation::new();
    let (sender, _receiver) = unbounded_channel();
    let mut channel = ChunkSender::new(sender);
    level.start_generate(&at(1, 1), &mut generation, &mut channel);
    level.abandon_generate(&at(1, 1));
    assert!(matches!(
        level.start_generate(&at(1, 1), &mut generation, &mut channel),
        GenerateStep::Generate
    ));
}

#[test]
fn generated_chunks_are_new() {
    let mut level = empty_level();
    let mut generation = Generation::new();
    let (sender, mut receiver) = unbounded_channel();
    let mut channel = ChunkSender::new(sender);
    assert!(level.finish_generate(
        &at(1, 1),
        chunk_of(at(1, 1), 7),
        &mut generation,
        &mut channel
    ));
    assert!(generation.may_continue());
    let name = level.try_get_chunk(at(1, 1)).unwrap();
    assert_eq!(received(&mut receiver), vec![(name, true)]);
    level.clean_memory();
    level.drop_unreferenced_chunks();
    assert!(level.chunk(name).is_some());
    level.release_chunk(name);
    level.drop_unreferenced_chunks();
    assert!(level.chunk(name).is_none());
}

#[test]
fn generation_stops_when_the_channel_is_closed() {
    let mut level = empty_level();
    let mut generation = Generation::new();
    let (sender, receiver) = unbounded_channel();
    drop(receiver);
    let mut channel = ChunkSender::new(sender);
    assert!(!level.finish_generate(
        &at(1, 1),
        chunk_of(at(1, 1), 7),
        &mut generation,
        &mut channel
    ));
    assert!(!generation.may_continue());
    assert!(level.try_get_chunk(at(1, 1)).is_some());
    assert!(matches!(
        level.start_generate(&at(2, 2), &mut generation, &mut channel),
        GenerateStep::Stop
    ));
    assert!(matches!(
        level.start_generate(&at(1, 1), &mut generation, &mut channel),
        GenerateStep::Stop
    ));
}

#[test]
fn a_closed_channel_is_noticed_for_a_loaded_chunk_too() {
    let mut level = empty_level();
    let mut generation = Generation::new();
    load(&mut level, chunk_of(at(1, 1), 7));
    let (sender, receiver) = unbounded_channel();
    drop(receiver);
    let mut channel = ChunkSender::new(sender);
    assert!(matches!(
        level.start_generate(&at(1, 1), &mut generation, &mut channel),
        GenerateStep::Delivered
    ));
    assert!(!generation.may_continue());
}

#[test]
fn a_fetch_sends_all_chunks_once() {
    let mut level = empty_level();
    let mut generation = Generation::new();
    let a = load(&mut level, chunk_of(at(0, 0), 1));
    let (sender, mut receiver) = unbounded_channel();
    let mut channel = ChunkSender::new(sender);
    let chunks = [at(3, 0), at(0, 0), at(1, 0), at(2, 0)];
    let remaining = match level.fetch_chunks(&chunks, &mut channel) {
        FetchStep::Load(remaining) => remaining,
        _ => panic!("three chunks are to be loaded"),
    };
    assert_eq!(remaining, vec![at(3, 0), at(1, 0), at(2, 0)]);
    let answers = [
        LoadedData::Missing(at(2, 0)),
        LoadedData::Loaded(chunk_of(at(3, 0), 3)),
        LoadedData::Error((at(1, 0), ChunkReadingError::Other("disk".to_string()))),
    ];
    for data in answers {
        if let LoadStep::Generate { pos, .. } = level.handle_load(data, &mut channel) {
            level.finish_generate(&pos, chunk_of(pos, 9), &mut generation, &mut channel);
        }
    }
    let loaded = |x: i32| level.try_get_chunk(at(x, 0)).unwrap();
    assert_eq!(
        received(&mut receiver),
        vec![(a, false), (loaded(2), true), (loaded(3), false), (loaded(1), true)]
    );
    assert_eq!(loaded(0), a);
}

#[test]
fn spawn_chunks_are_filed_under_their_own_position() {
    let mut level = empty_level();
    let a = load(&mut level, chunk_of(at(0, 0), 1));
    let b = load(&mut level, chunk_of(at(1, 0), 2));
    level.read_spawn_chunks(&[b, a]);
    level.clean_memory();
    assert_eq!(level.loaded_chunk_count(), 0);
    assert_eq!(fetch_one(&mut level, at(1, 0)), Some(b));
    assert_eq!(fetch_one(&mut level, at(0, 0)), Some(a));
    assert_eq!(fetch_one(&mut level, at(2, 0)), None);
    assert_eq!(level.loaded_chunk_count(), 2);
}
