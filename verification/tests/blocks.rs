use pumpkin_level::channel::ChunkSender;
use pumpkin_level::chunk::{ChunkData, ChunkSections, LoadedData, RawBlockState};
use pumpkin_level::level::fetch::Generation;
use pumpkin_level::level::Level;
use pumpkin_level::math::{BlockPos, Vector2, Vector3};
use std::path::PathBuf;
use tokio::sync::mpsc::unbounded_channel;

fn pos(x: i32, y: i32, z: i32) -> BlockPos {
    BlockPos(Vector3 { x, y, z })
}

/// A level with one chunk, two layers high, whose blocks are numbered from 0.
fn numbered() -> Level {
    let mut level = Level::from_root_folder(PathBuf::from("world"), 0);
    let chunk = ChunkData {
        section: ChunkSections::new(-64, (0..512).collect()),
        position: Vector2 { x: -1, z: 0 },
        block_ticks: Vec::new(),
        fluid_ticks: Vec::new(),
        block_entities: vec![(pos(-3, -64, 2), 8), (pos(-4, -63, 2), 9)],
        dirty: false,
    };
    let (sender, _receiver) = unbounded_channel();
    level.handle_load(LoadedData::Loaded(chunk), &mut ChunkSender::new(sender));
    level
}

#[test]
fn a_position_is_split_at_chunk_borders() {
    assert_eq!(
        pos(0, 70, 15).chunk_and_chunk_relative_position(),
        (Vector2 { x: 0, z: 0 }, Vector3 { x: 0, y: 70, z: 15 })
    );
    assert_eq!(
        pos(-1, -5, 16).chunk_and_chunk_relative_position(),
        (Vector2 { x: -1, z: 1 }, Vector3 { x: 15, y: -5, z: 0 })
    );
    assert_eq!(
        pos(i32::MIN, 0, i32::MAX).chunk_and_chunk_relative_position(),
        (
            Vector2 {
                x: -134217728,
                z: 134217727
            },
            Vector3 { x: 0, y: 0, z: 15 }
        )
    );
}

#[test]
fn sections_know_their_blocks() {
    let mut sections = ChunkSections::new(-64, (0..512).collect());
    assert_eq!(sections.get_block_absolute_y(0, -64, 0), Some(0));
    assert_eq!(sections.get_block_absolute_y(3, -64, 2), Some(35));
    assert_eq!(sections.get_block_absolute_y(15, -63, 15), Some(511));
    assert_eq!(sections.get_block_absolute_y(0, -65, 0), None);
    assert_eq!(sections.get_block_absolute_y(0, -62, 0), None);
    assert_eq!(sections.get_block_absolute_y(16, -64, 0), None);
    assert_eq!(sections.get_block_absolute_y(0, -64, 16), None);
    sections.set_block_absolute_y(3, -64, 2, 7);
    assert_eq!(sections.get_block_absolute_y(3, -64, 2), Some(7));
    assert_eq!(sections.get_block_absolute_y(2, -64, 3), Some(50));
}

#[test]
fn blocks_are_read_from_their_chunk() {
    let level = numbered();
    assert_eq!(
        level.get_block_state(&pos(-16, -64, 0)),
        Some(RawBlockState { state_id: 0 })
    );
    assert_eq!(
        level.get_block_state(&pos(-1, -63, 1)),
        Some(RawBlockState { state_id: 287 })
    );
}

#[test]
fn there_is_air_outside_the_layers() {
    let level = numbered();
    assert_eq!(
        level.get_block_state(&pos(-1, 100, 1)),
        Some(RawBlockState { state_id: 0 })
    );
    assert_eq!(
        level.get_block_state(&pos(-1, -65, 1)),
        Some(RawBlockState { state_id: 0 })
    );
}

#[test]
fn a_chunk_that_is_not_loaded_has_to_be_fetched() {
    let mut level = numbered();
    assert_eq!(level.get_block_state(&pos(0, -64, 0)), None);
    assert_eq!(level.set_block_state(&pos(0, -64, 0), 3), None);
    assert_eq!(level.try_get_chunk(Vector2 { x: 0, z: 0 }), None);
}

#[test]
fn a_block_is_read_back() {
    let mut level = numbered();
    assert_eq!(level.set_block_state(&pos(-1, -64, 0), 900), Some(15));
    assert_eq!(
        level.get_block_state(&pos(-1, -64, 0)),
        Some(RawBlockState { state_id: 900 })
    );
    assert_eq!(
        level.get_block_state(&pos(-2, -64, 0)),
        Some(RawBlockState { state_id: 14 })
    );
    assert_eq!(
        level.get_block_state(&pos(-1, -63, 0)),
        Some(RawBlockState { state_id: 271 })
    );
}

#[test]
fn only_a_changed_chunk_is_dirty() {
    let mut level = numbered();
    let name = level.try_get_chunk(Vector2 { x: -1, z: 0 }).unwrap();
    assert_eq!(level.set_block_state(&pos(-1, -64, 0), 15), Some(15));
    assert!(!level.chunk(name).unwrap().dirty);
    assert_eq!(level.set_block_state(&pos(-1, -64, 0), 16), Some(15));
    assert!(level.chunk(name).unwrap().dirty);
}

#[test]
fn all_block_entities_of_a_chunk_are_ticked() {
    let level = numbered();
    let name = level.try_get_chunk(Vector2 { x: -1, z: 0 }).unwrap();
    assert_eq!(
        level.tick_block_entities(name),
        vec![(pos(-3, -64, 2), 8), (pos(-4, -63, 2), 9)]
    );
    assert_eq!(level.tick_block_entities(name + 1), vec![]);
}

#[test]
fn a_chunk_at_two_coordinates_shows_the_same_blocks() {
    let mut level = numbered();
    let (sender, mut receiver) = unbounded_channel();
    let mut channel = ChunkSender::new(sender);
    let mut generation = Generation::new();
    // A generator may hand out a chunk whose own position is another one.
    let elsewhere = ChunkData {
        section: ChunkSections::new(-64, vec![5; 512]),
        position: Vector2 { x: 9, z: 9 },
        block_ticks: Vec::new(),
        fluid_ticks: Vec::new(),
        block_entities: Vec::new(),
        dirty: false,
    };
    level.finish_generate(
        &Vector2 { x: 3, z: 3 },
        elsewhere,
        &mut generation,
        &mut channel,
    );
    let (name, _) = receiver.try_recv().unwrap();
    level.read_spawn_chunks(&[name]);
    level.fetch_chunks(&[Vector2 { x: 9, z: 9 }], &mut channel);
    let here = pos(48, -64, 48);
    let there = pos(144, -64, 144);
    let beside = pos(145, -64, 144);
    assert_eq!(level.set_block_state(&here, 5), Some(5));
    assert_eq!(level.get_block_state(&there), Some(RawBlockState { state_id: 5 }));
    assert_eq!(level.set_block_state(&here, 6), Some(5));
    assert_eq!(level.get_block_state(&here), Some(RawBlockState { state_id: 6 }));
    assert_eq!(level.get_block_state(&there), Some(RawBlockState { state_id: 6 }));
    assert_eq!(level.get_block_state(&beside), Some(RawBlockState { state_id: 5 }));
}
