//! Which ticks are scheduled, when they come due and in which order.

use crate::level::{Level, LevelView};
use crate::math::{BlockPos, Vector2};
use crate::seqs::{lemma_filter_agree, lemma_filter_push};
use crate::tick::{
    aged, due_ticks, has_tick_at, has_tick_for, is_priority_order_of, ticks_in, ticks_of_rank,
    ticks_outside, waiting_ticks, ScheduledTick, TickPriority,
};
use vstd::prelude::*;

verus! {

/// A tick is scheduled for a position and an id exactly if one of the ticks has its `x`, its `y`,
/// its `z` and the id; one is scheduled at a position exactly if one has its `x`, `y` and `z`.
pub proof fn law_scheduled_ticks_are_found(
    ticks: Seq<ScheduledTick>,
    block_pos: BlockPos,
    block_id: u16,
)
    ensures
        has_tick_for(ticks, block_pos, block_id) <==> exists|i: int|
            {
                &&& 0 <= i < ticks.len()
                &&& (#[trigger] ticks[i]).block_pos.0.x == block_pos.0.x
                &&& ticks[i].block_pos.0.y == block_pos.0.y
                &&& ticks[i].block_pos.0.z == block_pos.0.z
                &&& ticks[i].target_block_id == block_id
            },
        has_tick_at(ticks, block_pos) <==> exists|i: int|
            {
                &&& 0 <= i < ticks.len()
                &&& (#[trigger] ticks[i]).block_pos.0.x == block_pos.0.x
                &&& ticks[i].block_pos.0.y == block_pos.0.y
                &&& ticks[i].block_pos.0.z == block_pos.0.z
            },
{
    assert forall|i: int|
        0 <= i < ticks.len() && (#[trigger] ticks[i]).block_pos.0.x == block_pos.0.x
            && ticks[i].block_pos.0.y == block_pos.0.y && ticks[i].block_pos.0.z
            == block_pos.0.z implies has_tick_at(ticks, block_pos) && (ticks[i].target_block_id
        == block_id ==> has_tick_for(ticks, block_pos, block_id)) by {
        assert(ticks[i].block_pos == block_pos);
        assert(ticks[i].target_block_id == block_id ==> ticks[i].is_for(block_pos, block_id));
    }
    if has_tick_for(ticks, block_pos, block_id) {
        let i = choose|i: int|
            0 <= i < ticks.len() && (#[trigger] ticks[i]).is_for(block_pos, block_id);
        assert(ticks[i].block_pos.0.x == block_pos.0.x);
    }
    if has_tick_at(ticks, block_pos) {
        let i = choose|i: int| 0 <= i < ticks.len() && (#[trigger] ticks[i]).block_pos == block_pos;
        assert(ticks[i].block_pos.0.x == block_pos.0.x);
    }
}

/// A block tick counts as scheduled while it waits and while it is due and has not been taken.
pub proof fn law_block_ticks_waiting_or_due(level: LevelView, block_pos: BlockPos, block_id: u16)
    ensures
        level.has_block_tick(block_pos, block_id) <==> exists|tick: ScheduledTick|
            {
                &&& level.block_ticks.contains(tick)
                    || level.remaining_block_ticks_this_tick.contains(tick)
                &&& #[trigger] tick.block_pos.0.x == block_pos.0.x
                &&& tick.block_pos.0.y == block_pos.0.y
                &&& tick.block_pos.0.z == block_pos.0.z
                &&& tick.target_block_id == block_id
            },
{
    let waiting = level.block_ticks;
    let due = level.remaining_block_ticks_this_tick;
    law_scheduled_ticks_are_found(waiting, block_pos, block_id);
    law_scheduled_ticks_are_found(due, block_pos, block_id);
    if has_tick_for(waiting, block_pos, block_id) {
        let i = choose|i: int|
            0 <= i < waiting.len() && (#[trigger] waiting[i]).is_for(block_pos, block_id);
        assert(waiting.contains(waiting[i]));
        assert(waiting[i].block_pos.0.x == block_pos.0.x);
    }
    if has_tick_for(due, block_pos, block_id) {
        let i = choose|i: int| 0 <= i < due.len() && (#[trigger] due[i]).is_for(block_pos, block_id);
        assert(due.contains(due[i]));
        assert(due[i].block_pos.0.x == block_pos.0.x);
    }
}

/// The answer whether a block tick is scheduled is that a tick that waits, or is due and has not
/// been taken, has the position's `x`, `y` and `z` and the id.
pub proof fn law_block_tick_answer(level: &Level, block_pos: &BlockPos, block_id: u16, answer: bool)
    requires
        call_ensures(Level::is_block_tick_scheduled, (level, block_pos, block_id), answer),
    ensures
        answer <==> exists|tick: ScheduledTick|
            {
                &&& level@.block_ticks.contains(tick)
                    || level@.remaining_block_ticks_this_tick.contains(tick)
                &&& #[trigger] tick.block_pos.0.x == block_pos.0.x
                &&& tick.block_pos.0.y == block_pos.0.y
                &&& tick.block_pos.0.z == block_pos.0.z
                &&& tick.target_block_id == block_id
            },
{
    law_block_ticks_waiting_or_due(level@, *block_pos, block_id);
}

/// The answer whether a fluid tick is scheduled is that a tick that waits has the position's `x`,
/// `y` and `z`.
pub proof fn law_fluid_tick_answer(level: &Level, block_pos: &BlockPos, answer: bool)
    requires
        call_ensures(Level::is_fluid_tick_scheduled, (level, block_pos), answer),
    ensures
        answer <==> exists|i: int|
            {
                &&& 0 <= i < level@.fluid_ticks.len()
                &&& (#[trigger] level@.fluid_ticks[i]).block_pos.0.x == block_pos.0.x
                &&& level@.fluid_ticks[i].block_pos.0.y == block_pos.0.y
                &&& level@.fluid_ticks[i].block_pos.0.z == block_pos.0.z
            },
{
    law_scheduled_ticks_are_found(level@.fluid_ticks, *block_pos, 0);
}

/// Scheduling a block tick puts it behind those that wait and changes nothing else of the level.
/// The answer whether a tick is scheduled changes for its own position and id alone.
pub proof fn law_block_tick_is_added(
    level: LevelView,
    tick: ScheduledTick,
    block_pos: BlockPos,
    block_id: u16,
)
    ensures
        level.with_block_tick(tick) == (LevelView {
            block_ticks: level.block_ticks.push(tick),
            ..level
        }),
        level.with_block_tick(tick).has_block_tick(block_pos, block_id) <==> {
            ||| level.has_block_tick(block_pos, block_id)
            ||| {
                &&& tick.block_pos.0.x == block_pos.0.x
                &&& tick.block_pos.0.y == block_pos.0.y
                &&& tick.block_pos.0.z == block_pos.0.z
                &&& tick.target_block_id == block_id
            }
        },
{
    lemma_has_tick_push(level.block_ticks, tick, block_pos, block_id);
}

/// Scheduling a fluid tick puts it behind those that wait, unless one with the same `x`, `y`,
/// `z` and id waits already; then nothing changes. The answers change for its own position
/// alone.
pub proof fn law_fluid_tick_is_added(
    level: LevelView,
    tick: ScheduledTick,
    block_pos: BlockPos,
    block_id: u16,
)
    ensures
        ({
            let waits_already = exists|i: int|
                {
                    &&& 0 <= i < level.fluid_ticks.len()
                    &&& (#[trigger] level.fluid_ticks[i]).block_pos.0.x == tick.block_pos.0.x
                    &&& level.fluid_ticks[i].block_pos.0.y == tick.block_pos.0.y
                    &&& level.fluid_ticks[i].block_pos.0.z == tick.block_pos.0.z
                    &&& level.fluid_ticks[i].target_block_id == tick.target_block_id
                };
            &&& waits_already ==> level.with_fluid_tick(tick) == level
            &&& !waits_already ==> level.with_fluid_tick(tick) == (LevelView {
                fluid_ticks: level.fluid_ticks.push(tick),
                ..level
            })
        }),
        has_tick_at(level.with_fluid_tick(tick).fluid_ticks, block_pos) <==> {
            ||| has_tick_at(level.fluid_ticks, block_pos)
            ||| {
                &&& tick.block_pos.0.x == block_pos.0.x
                &&& tick.block_pos.0.y == block_pos.0.y
                &&& tick.block_pos.0.z == block_pos.0.z
            }
        },
{
    law_scheduled_ticks_are_found(level.fluid_ticks, tick.block_pos, tick.target_block_id);
    law_scheduled_ticks_are_found(level.fluid_ticks, block_pos, block_id);
    lemma_has_tick_push(level.fluid_ticks, tick, block_pos, block_id);
    if tick.block_pos == block_pos && has_tick_for(
        level.fluid_ticks,
        tick.block_pos,
        tick.target_block_id,
    ) {
        let ticks = level.fluid_ticks;
        let i = choose|i: int|
            0 <= i < ticks.len() && (#[trigger] ticks[i]).is_for(
                tick.block_pos,
                tick.target_block_id,
            );
        assert(ticks[i].block_pos == block_pos);
    }
}

/// A tick more.
proof fn lemma_has_tick_push(
    ticks: Seq<ScheduledTick>,
    tick: ScheduledTick,
    block_pos: BlockPos,
    block_id: u16,
)
    ensures
        has_tick_for(ticks.push(tick), block_pos, block_id) <==> has_tick_for(
            ticks,
            block_pos,
            block_id,
        ) || tick.block_pos == block_pos && tick.target_block_id == block_id,
        has_tick_at(ticks.push(tick), block_pos) <==> has_tick_at(ticks, block_pos)
            || tick.block_pos == block_pos,
{
    let more = ticks.push(tick);
    if has_tick_for(ticks, block_pos, block_id) {
        let i = choose|i: int|
            0 <= i < ticks.len() && (#[trigger] ticks[i]).is_for(block_pos, block_id);
        assert(more[i].is_for(block_pos, block_id));
    }
    if has_tick_at(ticks, block_pos) {
        let i = choose|i: int| 0 <= i < ticks.len() && (#[trigger] ticks[i]).block_pos == block_pos;
        assert(more[i].block_pos == block_pos);
    }
    if tick.block_pos == block_pos {
        assert(more[ticks.len() as int].block_pos == block_pos);
        if tick.target_block_id == block_id {
            assert(more[ticks.len() as int].is_for(block_pos, block_id));
        }
    }
    if has_tick_for(more, block_pos, block_id) {
        let i = choose|i: int|
            0 <= i < more.len() && (#[trigger] more[i]).is_for(block_pos, block_id);
        if i < ticks.len() {
            assert(ticks[i].is_for(block_pos, block_id));
        }
    }
    if has_tick_at(more, block_pos) {
        let i = choose|i: int| 0 <= i < more.len() && (#[trigger] more[i]).block_pos == block_pos;
        if i < ticks.len() {
            assert(ticks[i].block_pos == block_pos);
        }
    }
}

/// When a game tick passes, a tick behind others is handed out behind them if its delay is 0 or
/// 1, and otherwise waits behind them with a delay that is one less. Nothing else of a tick
/// changes, and what happens to it does not depend on the others.
pub proof fn law_time_passes(ticks: Seq<ScheduledTick>, tick: ScheduledTick)
    ensures
        due_ticks(Seq::empty()) == Seq::<ScheduledTick>::empty(),
        waiting_ticks(Seq::empty()) == Seq::<ScheduledTick>::empty(),
        tick.delay <= 1 ==> {
            &&& due_ticks(ticks.push(tick)) == due_ticks(ticks).push(
                ScheduledTick {
                    block_pos: tick.block_pos,
                    delay: 0,
                    priority: tick.priority,
                    target_block_id: tick.target_block_id,
                },
            )
            &&& waiting_ticks(ticks.push(tick)) == waiting_ticks(ticks)
        },
        tick.delay > 1 ==> {
            &&& due_ticks(ticks.push(tick)) == due_ticks(ticks)
            &&& waiting_ticks(ticks.push(tick)) == waiting_ticks(ticks).push(
                ScheduledTick {
                    block_pos: tick.block_pos,
                    delay: (tick.delay - 1) as u16,
                    priority: tick.priority,
                    target_block_id: tick.target_block_id,
                },
            )
        },
{
    reveal(Seq::filter);
    let none = Seq::<ScheduledTick>::empty();
    assert(aged(none) =~= none);
    assert(aged(ticks.push(tick)) =~= aged(ticks).push(tick.aged()));
    lemma_filter_push(aged(ticks), tick.aged(), |tick: ScheduledTick| tick.delay == 0);
    lemma_filter_push(aged(ticks), tick.aged(), |tick: ScheduledTick| tick.delay != 0);
}

/// A tick belongs to the chunk of the 16 by 16 columns in which it is scheduled, whatever its
/// height; it is among the ticks inside a chunk or among those outside, behind those before it.
pub proof fn law_ticks_belong_to_chunks(
    ticks: Seq<ScheduledTick>,
    tick: ScheduledTick,
    chunk: Vector2,
)
    ensures
        ticks_in(Seq::empty(), chunk) == Seq::<ScheduledTick>::empty(),
        ticks_outside(Seq::empty(), chunk) == Seq::<ScheduledTick>::empty(),
        ({
            let is_inside = 16 * chunk.x <= tick.block_pos.0.x < 16 * chunk.x + 16 && 16 * chunk.z
                <= tick.block_pos.0.z < 16 * chunk.z + 16;
            &&& is_inside ==> {
                &&& ticks_in(ticks.push(tick), chunk) == ticks_in(ticks, chunk).push(tick)
                &&& ticks_outside(ticks.push(tick), chunk) == ticks_outside(ticks, chunk)
            }
            &&& !is_inside ==> {
                &&& ticks_in(ticks.push(tick), chunk) == ticks_in(ticks, chunk)
                &&& ticks_outside(ticks.push(tick), chunk) == ticks_outside(ticks, chunk).push(tick)
            }
        }),
{
    reveal(Seq::filter);
    lemma_filter_push(ticks, tick, |tick: ScheduledTick| tick.block_pos.chunk() == chunk);
    lemma_filter_push(ticks, tick, |tick: ScheduledTick| tick.block_pos.chunk() != chunk);
    let own = tick.block_pos.chunk();
    assert(16 * own.x <= tick.block_pos.0.x < 16 * own.x + 16);
    assert(16 * own.z <= tick.block_pos.0.z < 16 * own.z + 16);
}

/// The priorities from the most to the least urgent have the ranks from 0 to 6.
pub proof fn law_ranks_follow_urgency(priority: TickPriority)
    ensures
        priority.spec_rank() == match priority {
            TickPriority::ExtremelyHigh => 0,
            TickPriority::VeryHigh => TickPriority::ExtremelyHigh.spec_rank() + 1,
            TickPriority::High => TickPriority::VeryHigh.spec_rank() + 1,
            TickPriority::Normal => TickPriority::High.spec_rank() + 1,
            TickPriority::Low => TickPriority::Normal.spec_rank() + 1,
            TickPriority::VeryLow => TickPriority::Low.spec_rank() + 1,
            TickPriority::ExtremelyLow => TickPriority::VeryLow.spec_rank() + 1,
        },
{
}

/// In priority order no tick comes behind a less urgent one, and the ticks of one priority are
/// the same ones, in the order that they had.
pub proof fn law_priority_order_is_stable(
    ordered: Seq<ScheduledTick>,
    ticks: Seq<ScheduledTick>,
    i: int,
    j: int,
    priority: TickPriority,
)
    requires
        is_priority_order_of(ordered, ticks),
    ensures
        0 <= i < j < ordered.len() ==> ordered[i].priority.spec_rank()
            <= ordered[j].priority.spec_rank(),
        ordered.filter(|tick: ScheduledTick| tick.priority == priority) == ticks.filter(
            |tick: ScheduledTick| tick.priority == priority,
        ),
{
    let rank = priority.spec_rank();
    let of_rank = |tick: ScheduledTick| tick.priority.spec_rank() == rank;
    let of_priority = |tick: ScheduledTick| tick.priority == priority;
    lemma_filter_agree(ordered, of_rank, of_priority);
    lemma_filter_agree(ticks, of_rank, of_priority);
    assert(ticks_of_rank(ordered, rank) == ticks_of_rank(ticks, rank));
}

} // verus!
