//! Ticks that are scheduled for blocks and fluids.

use crate::math::{BlockPos, Vector2};
use crate::seqs::{lemma_filter_none, lemma_filter_push, lemma_filter_take};
use std::collections::VecDeque;
use vstd::prelude::*;

verus! {

/// How urgent a tick is; the most urgent comes first.
#[derive(Clone, Copy, Debug, PartialEq, Eq, Structural)]
pub enum TickPriority {
    ExtremelyHigh,
    VeryHigh,
    High,
    Normal,
    Low,
    VeryLow,
    ExtremelyLow,
}

/// A tick that a block or a fluid will get after `delay` more game ticks.
#[derive(Clone, Copy, Debug, PartialEq, Eq, Structural)]
pub struct ScheduledTick {
    pub block_pos: BlockPos,
    pub delay: u16,
    pub priority: TickPriority,
    pub target_block_id: u16,
}

impl TickPriority {
    /// The place of this priority in the order of urgency, from 0 for the most urgent.
    pub open spec fn spec_rank(self) -> u8 {
        match self {
            TickPriority::ExtremelyHigh => 0,
            TickPriority::VeryHigh => 1,
            TickPriority::High => 2,
            TickPriority::Normal => 3,
            TickPriority::Low => 4,
            TickPriority::VeryLow => 5,
            TickPriority::ExtremelyLow => 6,
        }
    }

    pub fn rank(&self) -> (rank: u8)
        ensures
            rank == self.spec_rank(),
    {
        match self {
            TickPriority::ExtremelyHigh => 0,
            TickPriority::VeryHigh => 1,
            TickPriority::High => 2,
            TickPriority::Normal => 3,
            TickPriority::Low => 4,
            TickPriority::VeryLow => 5,
            TickPriority::ExtremelyLow => 6,
        }
    }
}

impl ScheduledTick {
    /// This tick one game tick later.
    pub open spec fn aged(self) -> ScheduledTick {
        ScheduledTick { delay: if self.delay == 0 { 0 } else { (self.delay - 1) as u16 }, ..self }
    }

    /// Whether this tick is scheduled for `block_pos` and the block or fluid `block_id`.
    pub open spec fn is_for(self, block_pos: BlockPos, block_id: u16) -> bool {
        self.block_pos == block_pos && self.target_block_id == block_id
    }
}

/// The same ticks one game tick later.
pub open spec fn aged(ticks: Seq<ScheduledTick>) -> Seq<ScheduledTick> {
    ticks.map_values(|tick: ScheduledTick| tick.aged())
}

/// The ticks whose time has come after one more game tick, in their order.
pub open spec fn due_ticks(ticks: Seq<ScheduledTick>) -> Seq<ScheduledTick> {
    aged(ticks).filter(|tick: ScheduledTick| tick.delay == 0)
}

/// The ticks that still wait after one more game tick, in their order.
pub open spec fn waiting_ticks(ticks: Seq<ScheduledTick>) -> Seq<ScheduledTick> {
    aged(ticks).filter(|tick: ScheduledTick| tick.delay != 0)
}

/// The ticks for blocks of `chunk`, in their order.
pub open spec fn ticks_in(ticks: Seq<ScheduledTick>, chunk: Vector2) -> Seq<ScheduledTick> {
    ticks.filter(|tick: ScheduledTick| tick.block_pos.chunk() == chunk)
}

/// The ticks for blocks of other chunks than `chunk`, in their order.
pub open spec fn ticks_outside(ticks: Seq<ScheduledTick>, chunk: Vector2) -> Seq<ScheduledTick> {
    ticks.filter(|tick: ScheduledTick| tick.block_pos.chunk() != chunk)
}

/// The ticks of one rank of priority, in their order.
pub open spec fn ticks_of_rank(ticks: Seq<ScheduledTick>, rank: u8) -> Seq<ScheduledTick> {
    ticks.filter(|tick: ScheduledTick| tick.priority.spec_rank() == rank)
}

/// Whether no tick comes before a more urgent one.
pub open spec fn in_priority_order(ticks: Seq<ScheduledTick>) -> bool {
    forall|i: int, j: int|
        0 <= i < j < ticks.len() ==> (#[trigger] ticks[i]).priority.spec_rank() <= (
        #[trigger] ticks[j]).priority.spec_rank()
}

/// Whether `ordered` is `ticks` put in priority order, where ticks of one priority keep
/// their order.
pub open spec fn is_priority_order_of(
    ordered: Seq<ScheduledTick>,
    ticks: Seq<ScheduledTick>,
) -> bool {
    &&& in_priority_order(ordered)
    &&& forall|rank: u8| #[trigger] ticks_of_rank(ordered, rank) == ticks_of_rank(ticks, rank)
}

/// Whether some tick is scheduled for `block_pos` and the block or fluid `block_id`.
pub open spec fn has_tick_for(
    ticks: Seq<ScheduledTick>,
    block_pos: BlockPos,
    block_id: u16,
) -> bool {
    exists|i: int| 0 <= i < ticks.len() && (#[trigger] ticks[i]).is_for(block_pos, block_id)
}

/// Whether some tick is scheduled for `block_pos`.
pub open spec fn has_tick_at(ticks: Seq<ScheduledTick>, block_pos: BlockPos) -> bool {
    exists|i: int| 0 <= i < ticks.len() && (#[trigger] ticks[i]).block_pos == block_pos
}

/// Lets one game tick pass: hands out the ticks whose time has come and keeps the others.
pub(crate) fn advance(ticks: &mut Vec<ScheduledTick>) -> (due: Vec<ScheduledTick>)
    ensures
        due@ == due_ticks(old(ticks)@),
        final(ticks)@ == waiting_ticks(old(ticks)@),
{
    let mut due: Vec<ScheduledTick> = Vec::new();
    let mut waiting: Vec<ScheduledTick> = Vec::new();
    let mut i: usize = 0;
    let ghost all = aged(ticks@);
    while i < ticks.len()
        invariant
            i <= ticks@.len(),
            ticks@ == old(ticks)@,
            all == aged(ticks@),
            due@ == all.take(i as int).filter(|tick: ScheduledTick| tick.delay == 0),
            waiting@ == all.take(i as int).filter(|tick: ScheduledTick| tick.delay != 0),
        decreases ticks@.len() - i,
    {
        let mut tick = ticks[i];
        tick.delay = tick.delay.saturating_sub(1);
        proof {
            assert(tick == all[i as int]);
            lemma_filter_take(all, i as int, |tick: ScheduledTick| tick.delay == 0);
            lemma_filter_take(all, i as int, |tick: ScheduledTick| tick.delay != 0);
        }
        if tick.delay == 0 {
            due.push(tick);
        } else {
            waiting.push(tick);
        }
        i = i + 1;
    }
    assert(all.take(i as int) =~= all);
    *ticks = waiting;
    due
}

/// Takes out the ticks for blocks of `chunk`.
pub(crate) fn take_ticks_in(ticks: &mut Vec<ScheduledTick>, chunk: Vector2) -> (taken: Vec<
    ScheduledTick,
>)
    ensures
        taken@ == ticks_in(old(ticks)@, chunk),
        final(ticks)@ == ticks_outside(old(ticks)@, chunk),
{
    let mut taken: Vec<ScheduledTick> = Vec::new();
    let mut kept: Vec<ScheduledTick> = Vec::new();
    let mut i: usize = 0;
    while i < ticks.len()
        invariant
            i <= ticks@.len(),
            ticks@ == old(ticks)@,
            taken@ == ticks_in(ticks@.take(i as int), chunk),
            kept@ == ticks_outside(ticks@.take(i as int), chunk),
        decreases ticks@.len() - i,
    {
        let tick = ticks[i];
        let (tick_chunk, _) = tick.block_pos.chunk_and_chunk_relative_position();
        proof {
            lemma_filter_take(
                ticks@,
                i as int,
                |tick: ScheduledTick| tick.block_pos.chunk() == chunk,
            );
            lemma_filter_take(
                ticks@,
                i as int,
                |tick: ScheduledTick| tick.block_pos.chunk() != chunk,
            );
        }
        if tick_chunk == chunk {
            taken.push(tick);
        } else {
            kept.push(tick);
        }
        i = i + 1;
    }
    assert(ticks@.take(i as int) =~= ticks@);
    *ticks = kept;
    taken
}

/// Puts ticks in priority order; ticks of one priority keep their order.
pub(crate) fn order_by_priority(ticks: &Vec<ScheduledTick>) -> (ordered: VecDeque<ScheduledTick>)
    ensures
        is_priority_order_of(ordered@, ticks@),
{
    let mut ordered: VecDeque<ScheduledTick> = VecDeque::new();
    let mut rank: u8 = 0;
    while rank < 7
        invariant
            rank <= 7,
            in_priority_order(ordered@),
            forall|i: int|
                0 <= i < ordered@.len() ==> (#[trigger] ordered@[i]).priority.spec_rank() < rank,
            forall|r: u8|
                #![trigger ticks_of_rank(ordered@, r)]
                ticks_of_rank(ordered@, r) == if r < rank {
                    ticks_of_rank(ticks@, r)
                } else {
                    Seq::empty()
                },
        decreases 7 - rank,
    {
        let mut i: usize = 0;
        while i < ticks.len()
            invariant
                i <= ticks@.len(),
                in_priority_order(ordered@),
                forall|i: int|
                    0 <= i < ordered@.len() ==> (#[trigger] ordered@[i]).priority.spec_rank()
                        <= rank,
                forall|r: u8|
                    #![trigger ticks_of_rank(ordered@, r)]
                    ticks_of_rank(ordered@, r) == if r < rank {
                        ticks_of_rank(ticks@, r)
                    } else if r == rank {
                        ticks_of_rank(ticks@.take(i as int), rank)
                    } else {
                        Seq::empty()
                    },
            decreases ticks@.len() - i,
        {
            let tick = ticks[i];
            let ghost held = ordered@;
            proof {
                lemma_filter_take(
                    ticks@,
                    i as int,
                    |tick: ScheduledTick| tick.priority.spec_rank() == rank,
                );
            }
            if tick.priority.rank() == rank {
                ordered.push_back(tick);
                assert forall|r: u8|
                    #![trigger ticks_of_rank(ordered@, r)]
                    ticks_of_rank(ordered@, r) == if r < rank {
                        ticks_of_rank(ticks@, r)
                    } else if r == rank {
                        ticks_of_rank(ticks@.take(i + 1), rank)
                    } else {
                        Seq::empty()
                    } by {
                    assert(ticks_of_rank(held, r) == ticks_of_rank(held, r));
                    lemma_filter_push(
                        held,
                        tick,
                        |tick: ScheduledTick| tick.priority.spec_rank() == r,
                    );
                }
            }
            i = i + 1;
        }
        assert(ticks@.take(i as int) =~= ticks@);
        rank = rank + 1;
    }
    assert forall|r: u8| #[trigger]
        ticks_of_rank(ordered@, r) == ticks_of_rank(ticks@, r) by {
        if r >= 7 {
            lemma_filter_none(
                ticks@,
                |tick: ScheduledTick| tick.priority.spec_rank() == r,
            );
        }
    }
    ordered
}

/// Whether some tick of a list is scheduled for `block_pos` and `block_id`.
pub(crate) fn any_for(ticks: &Vec<ScheduledTick>, block_pos: &BlockPos, block_id: u16) -> (any: bool)
    ensures
        any == has_tick_for(ticks@, *block_pos, block_id),
{
    let mut i: usize = 0;
    while i < ticks.len()
        invariant
            i <= ticks@.len(),
            forall|j: int| 0 <= j < i ==> !(#[trigger] ticks@[j]).is_for(*block_pos, block_id),
        decreases ticks@.len() - i,
    {
        if ticks[i].block_pos == *block_pos && ticks[i].target_block_id == block_id {
            assert(ticks@[i as int].is_for(*block_pos, block_id));
            return true;
        }
        i = i + 1;
    }
    false
}

/// Whether some tick of a queue is scheduled for `block_pos` and `block_id`.
pub(crate) fn any_queued_for(
    ticks: &VecDeque<ScheduledTick>,
    block_pos: &BlockPos,
    block_id: u16,
) -> (any: bool)
    ensures
        any == has_tick_for(ticks@, *block_pos, block_id),
{
    let mut i: usize = 0;
    while i < ticks.len()
        invariant
            i <= ticks@.len(),
            forall|j: int| 0 <= j < i ==> !(#[trigger] ticks@[j]).is_for(*block_pos, block_id),
        decreases ticks@.len() - i,
    {
        if ticks[i].block_pos == *block_pos && ticks[i].target_block_id == block_id {
            assert(ticks@[i as int].is_for(*block_pos, block_id));
            return true;
        }
        i = i + 1;
    }
    false
}

/// Whether some tick of a list is scheduled for `block_pos`.
pub(crate) fn any_at(ticks: &Vec<ScheduledTick>, block_pos: &BlockPos) -> (any: bool)
    ensures
        any == has_tick_at(ticks@, *block_pos),
{
    let mut i: usize = 0;
    while i < ticks.len()
        invariant
            i <= ticks@.len(),
            forall|j: int| 0 <= j < i ==> (#[trigger] ticks@[j]).block_pos != *block_pos,
        decreases ticks@.len() - i,
    {
        if ticks[i].block_pos == *block_pos {
            assert(ticks@[i as int].block_pos == *block_pos);
            return true;
        }
        i = i + 1;
    }
    false
}

} // verus!
