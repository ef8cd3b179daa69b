//! The ticks that are scheduled for blocks and fluids.

use super::{Level, LevelView};
use crate::math::BlockPos;
use crate::tick::{
    advance, any_at, any_for, any_queued_for, due_ticks, has_tick_at, has_tick_for,
    is_priority_order_of, order_by_priority, waiting_ticks, ScheduledTick, TickPriority,
};
use std::collections::VecDeque;
use vstd::prelude::*;

verus! {

impl LevelView {
    /// Whether a block tick is scheduled for a block: one whose time has not come, or one whose
    /// time has come and that has not been taken.
    pub open spec fn has_block_tick(self, block_pos: BlockPos, block_id: u16) -> bool {
        ||| has_tick_for(self.block_ticks, block_pos, block_id)
        ||| has_tick_for(self.remaining_block_ticks_this_tick, block_pos, block_id)
    }

    /// The level with one block tick more.
    pub open spec fn with_block_tick(self, tick: ScheduledTick) -> LevelView {
        LevelView { block_ticks: self.block_ticks.push(tick), ..self }
    }

    /// The level with one fluid tick more, unless one is scheduled already for the same
    /// position and fluid.
    pub open spec fn with_fluid_tick(self, tick: ScheduledTick) -> LevelView {
        if has_tick_for(self.fluid_ticks, tick.block_pos, tick.target_block_id) {
            self
        } else {
            LevelView { fluid_ticks: self.fluid_ticks.push(tick), ..self }
        }
    }
}

impl Level {
    /// Lets one game tick pass for the block ticks, and hands out those whose time has come, in
    /// priority order. They are taken from the queue one by one; whatever is left of the ticks
    /// of the game tick before is dropped.
    pub fn get_and_tick_block_ticks(&mut self) -> (ticks: &mut VecDeque<ScheduledTick>)
        requires
            old(self)@.wf(),
        ensures
            is_priority_order_of(ticks@, due_ticks(old(self)@.block_ticks)),
            final(self)@.wf(),
            final(self)@ == (LevelView {
                block_ticks: waiting_ticks(old(self)@.block_ticks),
                remaining_block_ticks_this_tick: final(ticks)@,
                ..old(self)@
            }),
    {
        let due = advance(&mut self.state.block_ticks);
        self.state.remaining_block_ticks_this_tick = order_by_priority(&due);
        &mut self.state.remaining_block_ticks_this_tick
    }

    /// The block ticks whose time has come and that have not been taken.
    pub fn remaining_block_ticks_this_tick(&mut self) -> (ticks: &mut VecDeque<ScheduledTick>)
        requires
            old(self)@.wf(),
        ensures
            ticks@ == old(self)@.remaining_block_ticks_this_tick,
            final(self)@.wf(),
            final(self)@ == (LevelView {
                remaining_block_ticks_this_tick: final(ticks)@,
                ..old(self)@
            }),
    {
        &mut self.state.remaining_block_ticks_this_tick
    }

    /// Lets one game tick pass for the fluid ticks, and hands out those whose time has come, in
    /// the order in which they were scheduled.
    pub fn get_and_tick_fluid_ticks(&mut self) -> (ticks: Vec<ScheduledTick>)
        requires
            old(self)@.wf(),
        ensures
            final(self)@.wf(),
            ticks@ == due_ticks(old(self)@.fluid_ticks),
            final(self)@ == (LevelView {
                fluid_ticks: waiting_ticks(old(self)@.fluid_ticks),
                ..old(self)@
            }),
    {
        let ticks = advance(&mut self.state.fluid_ticks);
        assert(self@ == (LevelView { fluid_ticks: self.state.fluid_ticks@, ..old(self)@ }));
        ticks
    }

    /// Whether a block tick is scheduled for a block, or is due and has not been taken.
    pub fn is_block_tick_scheduled(&self, block_pos: &BlockPos, block_id: u16) -> (scheduled: bool)
        ensures
            scheduled == self@.has_block_tick(*block_pos, block_id),
    {
        any_for(&self.state.block_ticks, block_pos, block_id) || any_queued_for(
            &self.state.remaining_block_ticks_this_tick,
            block_pos,
            block_id,
        )
    }

    /// Whether a fluid tick is scheduled at a position.
    pub fn is_fluid_tick_scheduled(&self, block_pos: &BlockPos) -> (scheduled: bool)
        ensures
            scheduled == has_tick_at(self@.fluid_ticks, *block_pos),
    {
        any_at(&self.state.fluid_ticks, block_pos)
    }

    /// Schedules a block tick.
    pub fn schedule_block_tick(
        &mut self,
        block_id: u16,
        block_pos: BlockPos,
        delay: u16,
        priority: TickPriority,
    )
        requires
            old(self)@.wf(),
        ensures
            final(self)@.wf(),
            final(self)@ == old(self)@.with_block_tick(
                ScheduledTick { block_pos, delay, priority, target_block_id: block_id },
            ),
    {
        self.state.block_ticks.push(ScheduledTick { block_pos, delay, priority, target_block_id: block_id });
        assert(self@ == (LevelView { block_ticks: self.state.block_ticks@, ..old(self)@ }));
    }

    /// Schedules a fluid tick, unless one is scheduled already for the same position and fluid.
    pub fn schedule_fluid_tick(&mut self, block_id: u16, block_pos: &BlockPos, delay: u16)
        requires
            old(self)@.wf(),
        ensures
            final(self)@.wf(),
            final(self)@ == old(self)@.with_fluid_tick(
                ScheduledTick {
                    block_pos: *block_pos,
                    delay,
                    priority: TickPriority::Normal,
                    target_block_id: block_id,
                },
            ),
    {
        if any_for(&self.state.fluid_ticks, block_pos, block_id) {
            return;
        }
        self.state.fluid_ticks.push(
            ScheduledTick {
                block_pos: *block_pos,
                delay,
                priority: TickPriority::Normal,
                target_block_id: block_id,
            },
        );
        assert(self@ == (LevelView { fluid_ticks: self.state.fluid_ticks@, ..old(self)@ }));
    }
}

} // verus!
