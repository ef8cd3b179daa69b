use pumpkin_level::level::Level;
use pumpkin_level::math::Vector2;
use std::path::PathBuf;

fn level() -> Level {
    Level::from_root_folder(PathBuf::from("world"), 0)
}

fn at(x: i32, z: i32) -> Vector2 {
    Vector2 { x, z }
}

#[test]
fn a_new_level_watches_nothing() {
    let level = level();
    assert!(!level.is_chunk_watched(&at(0, 0)));
    assert_eq!(level.loaded_chunk_count(), 0);
    assert!(level.list_cached().is_empty());
}

#[test]
fn the_seed_keeps_its_bits() {
    assert_eq!(Level::from_root_folder(PathBuf::from("w"), 5).seed.0, 5);
    assert_eq!(Level::from_root_folder(PathBuf::from("w"), -2).seed().0, u64::MAX - 1);
    assert_eq!(
        Level::from_root_folder(PathBuf::from("w"), -1).seed.0,
        u64::MAX
    );
    assert_eq!(
        Level::from_root_folder(PathBuf::from("w"), i64::MIN).seed.0,
        0x8000_0000_0000_0000
    );
}

#[test]
fn regions_lie_in_the_root_folder() {
    let level = Level::from_root_folder(PathBuf::from("worlds/first"), 0);
    let folder = level.level_folder().clone();
    assert_eq!(folder.root_folder, PathBuf::from("worlds/first"));
    assert_eq!(
        folder.region_folder,
        PathBuf::from("worlds").join("first").join("region")
    );
}

#[test]
fn a_chunk_is_watched_until_its_last_watcher_leaves() {
    let mut level = level();
    level.mark_chunk_as_newly_watched(at(1, -2));
    level.mark_chunk_as_newly_watched(at(1, -2));
    assert!(level.is_chunk_watched(&at(1, -2)));
    assert!(!level.is_chunk_watched(&at(-2, 1)));
    assert!(!level.mark_chunk_as_not_watched(at(1, -2)));
    assert!(level.is_chunk_watched(&at(1, -2)));
    assert!(level.mark_chunk_as_not_watched(at(1, -2)));
    assert!(!level.is_chunk_watched(&at(1, -2)));
}

#[test]
fn a_count_that_can_grow_does_not_overflow() {
    let mut level = level();
    let none: Vec<Vector2> = Vec::new();
    assert_eq!(level.mark_chunks_as_newly_watched(&[at(0, 0), at(0, 0), at(1, 0)]), none);
    assert!(!level.mark_chunk_as_newly_watched(at(0, 0)));
}

#[test]
fn a_chunk_that_nobody_watches_is_passed_over() {
    let mut level = level();
    assert!(!level.mark_chunk_as_not_watched(at(3, 3)));
    assert!(!level.is_chunk_watched(&at(3, 3)));
    level.mark_chunk_as_newly_watched(at(3, 3));
    assert!(level.mark_chunk_as_not_watched(at(3, 3)));
}

#[test]
fn chunks_are_returned_in_the_order_in_which_they_are_left() {
    let mut level = level();
    level.mark_chunks_as_newly_watched(&[at(0, 0), at(1, 0), at(2, 0), at(1, 0)]);
    let left = level.mark_chunks_as_not_watched(&[at(1, 0), at(2, 0), at(9, 9), at(1, 0), at(1, 0)]);
    assert_eq!(left, vec![at(2, 0), at(1, 0)]);
    assert!(level.is_chunk_watched(&at(0, 0)));
    assert!(!level.is_chunk_watched(&at(1, 0)));
    assert!(!level.is_chunk_watched(&at(2, 0)));
}

#[test]
fn unwatching_undoes_watching() {
    let mut level = level();
    level.mark_chunks_as_newly_watched(&[at(0, 0)]);
    let chunks = [at(0, 0), at(5, 5), at(0, 0), at(6, 6)];
    level.mark_chunks_as_newly_watched(&chunks);
    let left = level.mark_chunks_as_not_watched(&chunks);
    assert_eq!(left, vec![at(5, 5), at(6, 6)]);
    assert!(level.is_chunk_watched(&at(0, 0)));
    assert!(level.mark_chunk_as_not_watched(at(0, 0)));
}

#[test]
fn watching_in_two_goes_is_watching_in_one() {
    let mut once = level();
    let mut twice = level();
    once.mark_chunks_as_newly_watched(&[at(0, 0), at(1, 1), at(0, 0)]);
    twice.mark_chunks_as_newly_watched(&[at(0, 0), at(1, 1)]);
    twice.mark_chunks_as_newly_watched(&[at(0, 0)]);
    for mut level in [once, twice] {
        assert!(!level.mark_chunk_as_not_watched(at(0, 0)));
        assert!(level.mark_chunk_as_not_watched(at(0, 0)));
        assert!(level.mark_chunk_as_not_watched(at(1, 1)));
    }
}

#[test]
fn unwatching_in_two_goes_is_unwatching_in_one() {
    let mut level = level();
    level.mark_chunks_as_newly_watched(&[at(0, 0), at(0, 0), at(1, 1)]);
    assert_eq!(level.mark_chunks_as_not_watched(&[at(0, 0)]), vec![]);
    assert_eq!(
        level.mark_chunks_as_not_watched(&[at(1, 1), at(0, 0)]),
        vec![at(1, 1), at(0, 0)]
    );
}
