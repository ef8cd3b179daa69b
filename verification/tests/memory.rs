use pumpkin_level::channel::ChunkSender;
use pumpkin_level::chunk::{ChunkData, ChunkSections, LoadedData};
use pumpkin_level::level::memory::is_too_idle;
use pumpkin_level::level::{Level, SyncChunk};
use pumpkin_level::math::{BlockPos, Vector2, Vector3};
use pumpkin_level::tick::{ScheduledTick, TickPriority};
use std::path::PathBuf;
use tokio::sync::mpsc::unbounded_channel;

fn new_level() -> Level {
    Level::from_root_folder(PathBuf::from("world"), 0)
}

fn at(x: i32, z: i32) -> Vector2 {
    Vector2 { x, z }
}

fn block(x: i32, y: i32, z: i32) -> BlockPos {
    BlockPos(Vector3 { x, y, z })
}

fn chunk_at(position: Vector2) -> ChunkData {
    ChunkData {
        section: ChunkSections::new(0, vec![1; 512]),
        position,
        block_ticks: Vec::new(),
        fluid_ticks: Vec::new(),
        block_entities: Vec::new(),
        dirty: false,
    }
}

fn tick(pos: BlockPos, id: u16, delay: u16) -> ScheduledTick {
    ScheduledTick {
        block_pos: pos,
        delay,
        priority: TickPriority::Normal,
        target_block_id: id,
    }
}

/// Takes up a chunk as if it came from storage. It is loaded, and not held.
fn load(level: &mut Level, chunk: ChunkData) -> SyncChunk {
    let (sender, mut receiver) = unbounded_channel();
    level.handle_load(LoadedData::Loaded(chunk), &mut ChunkSender::new(sender));
    let (name, _) = receiver.try_recv().unwrap();
    level.release_chunk(name);
    name
}

/// Asks for one chunk, and gives it back at once. Answers only if it is in memory.
fn fetch_one(level: &mut Level, chunk: Vector2) -> Option<SyncChunk> {
    let (sender, mut receiver) = unbounded_channel();
    level.fetch_chunks(&[chunk], &mut ChunkSender::new(sender));
    let (name, _) = receiver.try_recv().ok()?;
    level.release_chunk(name);
    Some(name)
}

#[test]
fn loaded_chunks_are_counted_and_listed() {
    let mut level = new_level();
    let a = load(&mut level, chunk_at(at(0, 0)));
    let b = load(&mut level, chunk_at(at(1, -1)));
    assert_eq!(level.loaded_chunk_count(), 2);
    let mut cached = level.list_cached();
    cached.sort_by_key(|(_, name)| *name);
    assert_eq!(cached, vec![(at(0, 0), a), (at(1, -1), b)]);
}

#[test]
fn only_unwatched_chunks_are_cleaned() {
    let mut level = new_level();
    let a = load(&mut level, chunk_at(at(0, 0)));
    let b = load(&mut level, chunk_at(at(1, 0)));
    load(&mut level, chunk_at(at(2, 0)));
    level.mark_chunk_as_newly_watched(at(1, 0));
    let list = level.clean_chunks(&[at(1, 0), at(7, 7), at(0, 0)]);
    assert_eq!(list, vec![(at(0, 0), a)]);
    level.write_chunks(&list);
    level.remove_cleaned_chunks(&list);
    level.release_chunks(&list);
    level.drop_unreferenced_chunks();
    assert_eq!(level.try_get_chunk(at(0, 0)), None);
    assert!(level.chunk(a).is_none());
    assert_eq!(level.try_get_chunk(at(1, 0)), Some(b));
    assert!(level.try_get_chunk(at(2, 0)).is_some());
}

#[test]
fn a_chunk_that_is_watched_again_stays() {
    let mut level = new_level();
    let a = load(&mut level, chunk_at(at(0, 0)));
    let b = load(&mut level, chunk_at(at(0, 1)));
    let list = level.clean_chunks(&[at(0, 0), at(0, 1)]);
    assert_eq!(list, vec![(at(0, 0), a), (at(0, 1), b)]);
    level.write_chunks(&list);
    level.mark_chunk_as_newly_watched(at(0, 0));
    level.remove_cleaned_chunks(&list);
    assert_eq!(level.try_get_chunk(at(0, 0)), Some(a));
    assert_eq!(level.try_get_chunk(at(0, 1)), None);
}

#[test]
fn one_chunk_is_cleaned_alone() {
    let mut level = new_level();
    let a = load(&mut level, chunk_at(at(4, 4)));
    assert_eq!(level.clean_chunk(&at(4, 4)), vec![(at(4, 4), a)]);
    assert_eq!(level.clean_chunk(&at(4, 5)), vec![]);
    level.mark_chunk_as_newly_watched(at(4, 4));
    assert_eq!(level.clean_chunk(&at(4, 4)), vec![]);
}

#[test]
fn cleaning_memory_keeps_what_is_watched() {
    let mut level = new_level();
    load(&mut level, chunk_at(at(0, 0)));
    let b = load(&mut level, chunk_at(at(1, 0)));
    level.mark_chunk_as_newly_watched(at(1, 0));
    level.mark_chunk_as_newly_watched(at(2, 0));
    level.clean_memory();
    assert_eq!(level.loaded_chunk_count(), 1);
    assert_eq!(level.try_get_chunk(at(1, 0)), Some(b));
    assert!(level.is_chunk_watched(&at(1, 0)));
    assert!(level.is_chunk_watched(&at(2, 0)));
    level.clean_memory();
    assert_eq!(level.loaded_chunk_count(), 1);
}

#[test]
fn cleaning_memory_gives_idle_room_back() {
    let mut level = new_level();
    let many: Vec<Vector2> = (0..9000).map(|x| at(x, -x)).collect();
    level.mark_chunks_as_newly_watched(&many);
    level.mark_chunks_as_not_watched(&many[1..]);
    load(&mut level, chunk_at(at(0, 0)));
    level.clean_memory();
    assert!(level.is_chunk_watched(&at(0, 0)));
    assert!(!level.is_chunk_watched(&at(1, -1)));
    assert_eq!(level.loaded_chunk_count(), 1);
}

#[test]
fn room_is_idle_from_4096_entries_on() {
    assert!(!is_too_idle(0, 0));
    assert!(!is_too_idle(4095, 0));
    assert!(is_too_idle(4096, 0));
    assert!(!is_too_idle(5000, 905));
    assert!(is_too_idle(5000, 904));
}

#[test]
fn written_chunks_take_their_ticks_along() {
    let mut level = new_level();
    let a = load(&mut level, chunk_at(at(0, 0)));
    let b = load(&mut level, chunk_at(at(-1, 0)));
    level.schedule_block_tick(1, block(3, 0, 3), 10, TickPriority::Normal);
    level.schedule_block_tick(2, block(-1, 0, 0), 10, TickPriority::Normal);
    level.schedule_block_tick(3, block(0, 9, 15), 20, TickPriority::Normal);
    level.schedule_block_tick(4, block(16, 0, 0), 10, TickPriority::Normal);
    level.schedule_fluid_tick(5, &block(-16, 0, 0), 7);
    level.write_chunks(&[(at(0, 0), a), (at(-1, 0), b)]);
    assert_eq!(
        level.chunk(a).unwrap().block_ticks,
        vec![tick(block(3, 0, 3), 1, 10), tick(block(0, 9, 15), 3, 20)]
    );
    assert_eq!(
        level.chunk(b).unwrap().block_ticks,
        vec![tick(block(-1, 0, 0), 2, 10)]
    );
    assert_eq!(
        level.chunk(b).unwrap().fluid_ticks,
        vec![tick(block(-16, 0, 0), 5, 7)]
    );
    assert!(level.chunk(a).unwrap().fluid_ticks.is_empty());
    assert!(!level.is_block_tick_scheduled(&block(3, 0, 3), 1));
    assert!(level.is_block_tick_scheduled(&block(16, 0, 0), 4));
    assert!(!level.is_fluid_tick_scheduled(&block(-16, 0, 0)));
}

#[test]
fn a_chunk_listed_twice_forgets_its_ticks() {
    let mut level = new_level();
    let a = load(&mut level, chunk_at(at(0, 0)));
    level.schedule_block_tick(1, block(3, 0, 3), 10, TickPriority::Normal);
    level.write_chunks(&[(at(0, 0), a), (at(0, 0), a)]);
    assert!(level.chunk(a).unwrap().block_ticks.is_empty());
    assert!(!level.is_block_tick_scheduled(&block(3, 0, 3), 1));
}

#[test]
fn ticks_come_back_with_their_chunk() {
    let mut level = new_level();
    let a = load(&mut level, chunk_at(at(0, 0)));
    level.schedule_block_tick(1, block(3, 0, 3), 2, TickPriority::Normal);
    level.schedule_fluid_tick(2, &block(4, 0, 4), 2);
    let list = level.clean_chunks(&[at(0, 0)]);
    level.write_chunks(&list);
    let stored = ChunkData {
        block_ticks: level.chunk(a).unwrap().block_ticks.clone(),
        fluid_ticks: level.chunk(a).unwrap().fluid_ticks.clone(),
        ..chunk_at(at(0, 0))
    };
    level.remove_cleaned_chunks(&list);
    level.release_chunks(&list);
    level.drop_unreferenced_chunks();
    assert!(!level.is_block_tick_scheduled(&block(3, 0, 3), 1));
    let again = load(&mut level, stored);
    assert_ne!(again, a);
    assert!(level.is_block_tick_scheduled(&block(3, 0, 3), 1));
    assert!(level.is_fluid_tick_scheduled(&block(4, 0, 4)));
}

#[test]
fn writing_nothing_changes_nothing() {
    let mut level = new_level();
    level.schedule_block_tick(1, block(3, 0, 3), 2, TickPriority::Normal);
    level.write_chunks(&[]);
    assert!(level.is_block_tick_scheduled(&block(3, 0, 3), 1));
}

#[test]
fn shutdown_hands_out_every_loaded_chunk() {
    let mut level = new_level();
    let a = load(&mut level, chunk_at(at(0, 0)));
    let b = load(&mut level, chunk_at(at(5, 5)));
    level.schedule_block_tick(1, block(3, 0, 3), 2, TickPriority::Normal);
    level.schedule_block_tick(2, block(300, 0, 300), 2, TickPriority::Normal);
    let mut written: Vec<(Vector2, SyncChunk)> = level.shutdown();
    written.sort_by_key(|(_, name)| *name);
    assert_eq!(written, vec![(at(0, 0), a), (at(5, 5), b)]);
    assert_eq!(level.loaded_chunk_count(), 0);
    // What is scheduled before the chunks are written goes along with them.
    level.schedule_fluid_tick(4, &block(80, 0, 80), 5);
    assert!(level.is_block_tick_scheduled(&block(3, 0, 3), 1));
    level.write_chunks(&written);
    assert_eq!(
        level.chunk(b).unwrap().fluid_ticks,
        vec![tick(block(80, 0, 80), 4, 5)]
    );
    assert!(!level.is_block_tick_scheduled(&block(3, 0, 3), 1));
    assert_eq!(
        level.chunk(a).unwrap().block_ticks,
        vec![tick(block(3, 0, 3), 1, 2)]
    );
    assert!(level.is_block_tick_scheduled(&block(300, 0, 300), 2));
    level.drop_unreferenced_chunks();
    assert!(level.chunk(a).is_some());
    level.release_chunks(&written);
    level.drop_unreferenced_chunks();
    assert!(level.chunk(a).is_none());
    assert!(level.chunk(b).is_none());
}

#[test]
fn chunks_to_write_stay_in_memory() {
    let mut level = new_level();
    let a = load(&mut level, chunk_at(at(0, 0)));
    level.schedule_block_tick(1, block(3, 0, 3), 2, TickPriority::Normal);
    let list = level.clean_chunks(&[at(0, 0)]);
    let again = level.clean_chunks(&[at(0, 0)]);
    level.clean_memory();
    level.drop_unreferenced_chunks();
    assert_eq!(level.try_get_chunk(at(0, 0)), None);
    level.write_chunks(&list);
    assert_eq!(level.chunk(a).unwrap().block_ticks.len(), 1);
    level.release_chunks(&list);
    level.drop_unreferenced_chunks();
    assert!(level.chunk(a).is_some());
    level.release_chunks(&again);
    level.drop_unreferenced_chunks();
    assert!(level.chunk(a).is_none());
}

#[test]
fn spawn_chunks_are_not_freed() {
    let mut level = new_level();
    let a = load(&mut level, chunk_at(at(0, 0)));
    level.read_spawn_chunks(&[a]);
    let list = level.clean_chunks(&[at(0, 0)]);
    level.write_chunks(&list);
    level.remove_cleaned_chunks(&list);
    level.release_chunks(&list);
    level.drop_unreferenced_chunks();
    assert_eq!(level.try_get_chunk(at(0, 0)), None);
    assert!(level.chunk(a).is_some());
    assert_eq!(fetch_one(&mut level, at(0, 0)), Some(a));
    assert_eq!(level.try_get_chunk(at(0, 0)), Some(a));
}

#[test]
fn chunks_that_were_sent_stay_in_memory() {
    let mut level = new_level();
    let a = load(&mut level, chunk_at(at(0, 0)));
    let (sender, mut receiver) = unbounded_channel();
    level.fetch_chunks(&[at(0, 0)], &mut ChunkSender::new(sender));
    assert_eq!(receiver.try_recv(), Ok((a, false)));
    level.clean_memory();
    level.drop_unreferenced_chunks();
    assert_eq!(level.try_get_chunk(at(0, 0)), None);
    assert_eq!(level.chunk(a).unwrap().position, at(0, 0));
    level.release_chunk(a);
    level.drop_unreferenced_chunks();
    assert!(level.chunk(a).is_none());
}

#[test]
fn a_chunk_is_held_as_often_as_it_is_asked_for() {
    let mut level = new_level();
    let a = load(&mut level, chunk_at(at(0, 0)));
    assert!(level.hold_chunk(a));
    assert!(level.hold_chunk(a));
    level.clean_memory();
    level.release_chunk(a);
    level.drop_unreferenced_chunks();
    assert!(level.chunk(a).is_some());
    level.release_chunk(a);
    level.drop_unreferenced_chunks();
    assert!(level.chunk(a).is_none());
    assert!(!level.hold_chunk(a));
}

#[test]
fn chunks_in_memory_have_names_of_their_own() {
    let mut level = new_level();
    let mut names: Vec<SyncChunk> = (0..100)
        .map(|x| load(&mut level, chunk_at(at(x, 0))))
        .collect();
    for (x, name) in names.iter().enumerate() {
        assert_eq!(level.chunk(*name).unwrap().position, at(x as i32, 0));
    }
    names.sort();
    names.dedup();
    assert_eq!(names.len(), 100);
}
