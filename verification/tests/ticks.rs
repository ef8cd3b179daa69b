use pumpkin_level::level::Level;
use pumpkin_level::math::{BlockPos, Vector3};
use pumpkin_level::tick::{ScheduledTick, TickPriority};
use std::path::PathBuf;

fn fresh() -> Level {
    Level::from_root_folder(PathBuf::from("world"), 0)
}

fn pos(x: i32) -> BlockPos {
    BlockPos(Vector3 { x, y: 0, z: 0 })
}

fn ids(ticks: &[ScheduledTick]) -> Vec<u16> {
    ticks.iter().map(|tick| tick.target_block_id).collect()
}

#[test]
fn a_tick_comes_due_when_its_delay_has_passed() {
    let mut level = fresh();
    level.schedule_block_tick(1, pos(1), 3, TickPriority::Normal);
    assert!(level.get_and_tick_block_ticks().is_empty());
    assert!(level.get_and_tick_block_ticks().is_empty());
    let due = level.get_and_tick_block_ticks();
    assert_eq!(
        due.pop_front(),
        Some(ScheduledTick {
            block_pos: pos(1),
            delay: 0,
            priority: TickPriority::Normal,
            target_block_id: 1,
        })
    );
    assert_eq!(due.pop_front(), None);
    assert!(level.get_and_tick_block_ticks().is_empty());
}

#[test]
fn a_delay_of_none_waits_for_one_game_tick() {
    let mut level = fresh();
    level.schedule_block_tick(1, pos(1), 0, TickPriority::Normal);
    level.schedule_block_tick(2, pos(1), 1, TickPriority::Normal);
    level.schedule_fluid_tick(3, &pos(1), 0);
    assert_eq!(level.get_and_tick_block_ticks().len(), 2);
    assert_eq!(ids(&level.get_and_tick_fluid_ticks()), vec![3]);
}

#[test]
fn block_ticks_come_in_priority_order() {
    let mut level = fresh();
    level.schedule_block_tick(1, pos(1), 1, TickPriority::ExtremelyLow);
    level.schedule_block_tick(2, pos(2), 1, TickPriority::Normal);
    level.schedule_block_tick(3, pos(3), 1, TickPriority::ExtremelyHigh);
    level.schedule_block_tick(4, pos(4), 1, TickPriority::Normal);
    level.schedule_block_tick(5, pos(5), 1, TickPriority::High);
    level.schedule_block_tick(6, pos(6), 1, TickPriority::VeryLow);
    level.schedule_block_tick(7, pos(7), 1, TickPriority::Low);
    level.schedule_block_tick(8, pos(8), 1, TickPriority::VeryHigh);
    level.schedule_block_tick(9, pos(9), 2, TickPriority::ExtremelyHigh);
    let due: Vec<ScheduledTick> = level.get_and_tick_block_ticks().drain(..).collect();
    assert_eq!(ids(&due), vec![3, 8, 5, 2, 4, 7, 6, 1]);
    let due: Vec<ScheduledTick> = level.get_and_tick_block_ticks().drain(..).collect();
    assert_eq!(ids(&due), vec![9]);
}

#[test]
fn ranks_follow_urgency() {
    assert_eq!(TickPriority::ExtremelyHigh.rank(), 0);
    assert_eq!(TickPriority::Normal.rank(), 3);
    assert_eq!(TickPriority::ExtremelyLow.rank(), 6);
}

#[test]
fn a_due_tick_is_scheduled_until_it_is_taken() {
    let mut level = fresh();
    level.schedule_block_tick(1, pos(1), 1, TickPriority::Normal);
    assert!(level.is_block_tick_scheduled(&pos(1), 1));
    assert!(!level.is_block_tick_scheduled(&pos(1), 2));
    assert!(!level.is_block_tick_scheduled(&pos(2), 1));
    level.get_and_tick_block_ticks();
    assert!(level.is_block_tick_scheduled(&pos(1), 1));
    assert_eq!(
        level
            .remaining_block_ticks_this_tick()
            .pop_front()
            .unwrap()
            .target_block_id,
        1
    );
    assert!(!level.is_block_tick_scheduled(&pos(1), 1));
}

#[test]
fn ticks_that_were_not_taken_are_dropped_at_the_next_game_tick() {
    let mut level = fresh();
    level.schedule_block_tick(1, pos(1), 1, TickPriority::Normal);
    assert_eq!(level.get_and_tick_block_ticks().len(), 1);
    assert_eq!(level.get_and_tick_block_ticks().len(), 0);
    assert!(!level.is_block_tick_scheduled(&pos(1), 1));
}

#[test]
fn a_block_may_have_several_ticks() {
    let mut level = fresh();
    level.schedule_block_tick(1, pos(1), 1, TickPriority::Normal);
    level.schedule_block_tick(1, pos(1), 1, TickPriority::Normal);
    assert_eq!(level.get_and_tick_block_ticks().len(), 2);
}

#[test]
fn a_fluid_has_one_tick() {
    let mut level = fresh();
    level.schedule_fluid_tick(1, &pos(1), 5);
    level.schedule_fluid_tick(1, &pos(1), 1);
    level.schedule_fluid_tick(2, &pos(1), 1);
    level.schedule_fluid_tick(1, &pos(2), 2);
    assert!(level.is_fluid_tick_scheduled(&pos(1)));
    assert!(!level.is_fluid_tick_scheduled(&pos(3)));
    let due = level.get_and_tick_fluid_ticks();
    assert_eq!(
        due,
        vec![ScheduledTick {
            block_pos: pos(1),
            delay: 0,
            priority: TickPriority::Normal,
            target_block_id: 2,
        }]
    );
    assert_eq!(ids(&level.get_and_tick_fluid_ticks()), vec![1]);
    assert!(level.is_fluid_tick_scheduled(&pos(1)));
    level.get_and_tick_fluid_ticks();
    level.get_and_tick_fluid_ticks();
    assert_eq!(ids(&level.get_and_tick_fluid_ticks()), vec![1]);
    assert!(!level.is_fluid_tick_scheduled(&pos(1)));
}
