//! Cutting an audio buffer into blocks at note events.

use vstd::prelude::*;
use crate::consts::MAX_BLOCK_SIZE;

verus! {

/// What the caller does next while it works through one audio buffer.
#[derive(Clone, Copy, Debug, PartialEq, Eq, Structural)]
pub enum BlockStep {
    /// Hand the pending event to the voices, fetch the event after it, and
    /// ask again. The position in the buffer has not moved.
    Dispatch,
    /// Render the samples from `block_start` up to `block_end`, then ask again
    /// with the same pending event.
    Render { block_start: usize, block_end: usize },
    /// The buffer is complete.
    Done,
}

/// Cuts an audio buffer into blocks so that every note event falls on the
/// start of a block and no block is longer than `MAX_BLOCK_SIZE`.
///
/// The caller keeps the event queue. It shows the scheduler the timing of the
/// event at the head of the queue, and does what the scheduler answers.
#[derive(Clone, Copy, Debug, PartialEq, Eq, Structural)]
pub struct BlockScheduler {
    /// Length of the buffer in samples.
    pub num_samples: usize,
    /// Where the next block starts; everything before it is rendered.
    pub block_start: usize,
}

impl BlockScheduler {
    /// The position never runs past the end of the buffer.
    pub open spec fn wf(&self) -> bool {
        self.block_start <= self.num_samples
    }

    /// Where the next block ends if no event cuts it short.
    pub open spec fn block_limit(&self) -> int {
        if self.num_samples - self.block_start > MAX_BLOCK_SIZE {
            self.block_start + MAX_BLOCK_SIZE
        } else {
            self.num_samples as int
        }
    }

    /// Where the next block ends, given the timing of the pending event: at
    /// the event if it lies inside the block, at the block's limit otherwise.
    pub open spec fn block_end(&self, next_event: Option<u32>) -> int {
        match next_event {
            Some(timing) if timing < self.block_limit() => timing as int,
            _ => self.block_limit(),
        }
    }

    /// Whether the pending event is due at the current position.
    pub open spec fn event_due(&self, next_event: Option<u32>) -> bool {
        next_event matches Some(timing) && timing <= self.block_start
    }

    /// A scheduler at the start of a buffer of `num_samples` samples.
    pub fn new(num_samples: usize) -> (scheduler: Self)
        ensures
            scheduler.num_samples == num_samples,
            scheduler.block_start == 0,
            scheduler.wf(),
    {
        BlockScheduler { num_samples, block_start: 0 }
    }

    /// Decides the next step. `next_event` is the timing of the event at the
    /// head of the queue, in samples from the start of the buffer, or `None`
    /// when the queue is empty.
    ///
    /// Once the whole buffer is rendered the answer is `Done`, whatever is
    /// pending. Before that, an event whose timing is not after the current
    /// position is dispatched. Otherwise a block is rendered that starts at
    /// the current position and ends at the pending event, or after
    /// `MAX_BLOCK_SIZE` samples, or at the end of the buffer, whichever comes
    /// first; the position moves to the end of that block.
    pub fn next_step(&mut self, next_event: Option<u32>) -> (step: BlockStep)
        ensures
            old(self).wf() ==> final(self).wf(),
            final(self).num_samples == old(self).num_samples,
            old(self).block_start >= old(self).num_samples ==> step == BlockStep::Done
                && final(self).block_start == old(self).block_start,
            old(self).block_start < old(self).num_samples && old(self).event_due(next_event) ==> step
                == BlockStep::Dispatch && final(self).block_start == old(self).block_start,
            old(self).block_start < old(self).num_samples && !old(self).event_due(next_event) ==> step
                == (BlockStep::Render {
                block_start: old(self).block_start,
                block_end: final(self).block_start,
            }) && final(self).block_start == old(self).block_end(next_event),
    {
        if self.block_start >= self.num_samples {
            return BlockStep::Done;
        }
        let limit = if self.num_samples - self.block_start > MAX_BLOCK_SIZE {
            self.block_start + MAX_BLOCK_SIZE
        } else {
            self.num_samples
        };
        let mut block_end = limit;
        match next_event {
            Some(timing) => {
                let at = timing as usize;
                if at <= self.block_start {
                    return BlockStep::Dispatch;
                }
                if at < limit {
                    block_end = at;
                }
            },
            None => {},
        }
        let block_start = self.block_start;
        self.block_start = block_end;
        BlockStep::Render { block_start, block_end }
    }
}

/// The timing of the event at the head of the queue.
pub open spec fn head_of(events: Seq<u32>) -> Option<u32> {
    if events.len() > 0 {
        Some(events[0])
    } else {
        None
    }
}

/// What becomes of a buffer when the caller follows the scheduler from
/// `scheduler` on, with `events` the timings still in the queue: the blocks
/// that are rendered, as pairs of start and end, and for each event that is
/// dispatched the position at which that happens.
pub open spec fn work(scheduler: BlockScheduler, events: Seq<u32>) -> (Seq<(int, int)>, Seq<int>)
    decreases scheduler.num_samples - scheduler.block_start, events.len(),
{
    if scheduler.block_start >= scheduler.num_samples {
        (Seq::empty(), Seq::empty())
    } else if scheduler.event_due(head_of(events)) {
        let rest = work(scheduler, events.drop_first());
        (rest.0, seq![scheduler.block_start as int] + rest.1)
    } else {
        let end = scheduler.block_end(head_of(events));
        if scheduler.block_start < end <= scheduler.num_samples {
            let rest = work(BlockScheduler { block_start: end as usize, ..scheduler }, events);
            (seq![(scheduler.block_start as int, end)] + rest.0, rest.1)
        } else {
            // Not taken: a block ends after it starts and inside the buffer
            // (`lemma_block_bounds`).
            (Seq::empty(), Seq::empty())
        }
    }
}

/// A block starts at `position`.
pub open spec fn starts_block(blocks: Seq<(int, int)>, position: int) -> bool {
    exists|j: int| 0 <= j < blocks.len() && (#[trigger] blocks[j]).0 == position
}

/// The timings do not go back.
pub open spec fn in_order(events: Seq<u32>) -> bool {
    forall|a: int, b: int| 0 <= a <= b < events.len() ==> events[a] <= events[b]
}

/// Every rendered block is non-empty, no longer than `MAX_BLOCK_SIZE`, and
/// stays inside the buffer.
pub proof fn lemma_block_bounds(scheduler: BlockScheduler, next_event: Option<u32>)
    requires
        scheduler.wf(),
        scheduler.block_start < scheduler.num_samples,
        !scheduler.event_due(next_event),
    ensures
        scheduler.block_start < scheduler.block_end(next_event),
        scheduler.block_end(next_event) <= scheduler.block_start + MAX_BLOCK_SIZE,
        scheduler.block_end(next_event) <= scheduler.num_samples,
{
}

/// No block runs over a pending event: a block that is rendered while an
/// event lies ahead ends at that event or before it.
pub proof fn lemma_block_stops_at_event(scheduler: BlockScheduler, timing: u32)
    requires
        scheduler.wf(),
        scheduler.block_start < scheduler.num_samples,
        scheduler.block_start < timing,
    ensures
        scheduler.block_end(Some(timing)) <= timing,
        timing < scheduler.block_limit() ==> scheduler.block_end(Some(timing)) == timing,
{
}

/// The blocks tile the rest of the buffer. Whatever the queue holds, the
/// rendered blocks start at the current position, each starts where the one
/// before it ended, and the last ends at the end of the buffer. None is empty
/// and none is longer than `MAX_BLOCK_SIZE`.
pub proof fn lemma_blocks_tile_the_buffer(scheduler: BlockScheduler, events: Seq<u32>)
    requires
        scheduler.wf(),
    ensures
        ({
            let blocks = work(scheduler, events).0;
            &&& scheduler.block_start >= scheduler.num_samples ==> blocks.len() == 0
            &&& scheduler.block_start < scheduler.num_samples ==> blocks.len() > 0 && blocks[0].0
                == scheduler.block_start && blocks.last().1 == scheduler.num_samples
            &&& forall|k: int|
                0 <= k < blocks.len() ==> (#[trigger] blocks[k]).0 < blocks[k].1 <= blocks[k].0
                    + MAX_BLOCK_SIZE
            &&& forall|k: int| 0 <= k < blocks.len() - 1 ==> (#[trigger] blocks[k]).1 == blocks[k + 1].0
        }),
    decreases scheduler.num_samples - scheduler.block_start, events.len(),
{
    if scheduler.block_start >= scheduler.num_samples {
    } else if scheduler.event_due(head_of(events)) {
        lemma_blocks_tile_the_buffer(scheduler, events.drop_first());
    } else {
        let end = scheduler.block_end(head_of(events));
        lemma_block_bounds(scheduler, head_of(events));
        let next = BlockScheduler { block_start: end as usize, ..scheduler };
        lemma_blocks_tile_the_buffer(next, events);
        let rest = work(next, events).0;
        let blocks = work(scheduler, events).0;
        assert(blocks == seq![(scheduler.block_start as int, end)] + rest);
        assert forall|k: int| 0 <= k < blocks.len() implies (#[trigger] blocks[k]).0 < blocks[k].1
            <= blocks[k].0 + MAX_BLOCK_SIZE by {
            if k > 0 {
                assert(blocks[k] == rest[k - 1]);
            }
        }
        assert forall|k: int| 0 <= k < blocks.len() - 1 implies (#[trigger] blocks[k]).1 == blocks[k
            + 1].0 by {
            assert(blocks[k + 1] == rest[k]);
            if k > 0 {
                assert(blocks[k] == rest[k - 1]);
            }
        }
        if rest.len() > 0 {
            assert(blocks.last() == rest.last());
        }
    }
}

/// Events fall on block starts. When the timings in the queue do not go back
/// and the first is not behind the current position, the events are dispatched
/// in order, each exactly at its timing, and a block starts there. The events
/// that are dispatched are those whose timing lies inside the buffer.
pub proof fn lemma_events_fall_on_block_starts(scheduler: BlockScheduler, events: Seq<u32>)
    requires
        scheduler.wf(),
        in_order(events),
        events.len() > 0 ==> scheduler.block_start <= events[0],
    ensures
        ({
            let (blocks, dispatched_at) = work(scheduler, events);
            &&& dispatched_at.len() <= events.len()
            &&& forall|k: int|
                0 <= k < dispatched_at.len() ==> #[trigger] dispatched_at[k] == events[k]
            &&& forall|k: int|
                0 <= k < events.len() ==> (k < dispatched_at.len() <==> #[trigger] events[k]
                    < scheduler.num_samples)
            &&& forall|k: int|
                0 <= k < dispatched_at.len() ==> starts_block(blocks, #[trigger] dispatched_at[k])
        }),
    decreases scheduler.num_samples - scheduler.block_start, events.len(),
{
    let (blocks, dispatched_at) = work(scheduler, events);
    if scheduler.block_start >= scheduler.num_samples {
        assert forall|k: int| 0 <= k < events.len() implies #[trigger] events[k]
            >= scheduler.num_samples by {
            assert(events[0] <= events[k]);
        }
    } else if scheduler.event_due(head_of(events)) {
        let later = events.drop_first();
        assert forall|a: int, b: int| 0 <= a <= b < later.len() implies later[a] <= later[b] by {
            assert(events[a + 1] <= events[b + 1]);
        }
        if later.len() > 0 {
            assert(events[0] <= events[1]);
        }
        lemma_events_fall_on_block_starts(scheduler, later);
        lemma_blocks_tile_the_buffer(scheduler, later);
        let rest = work(scheduler, later);
        assert(blocks == rest.0);
        assert(dispatched_at == seq![scheduler.block_start as int] + rest.1);
        assert forall|k: int| 0 <= k < dispatched_at.len() implies #[trigger] dispatched_at[k]
            == events[k] by {
            if k > 0 {
                assert(dispatched_at[k] == rest.1[k - 1]);
                assert(later[k - 1] == events[k]);
            }
        }
        assert forall|k: int| 0 <= k < events.len() implies (k < dispatched_at.len()
            <==> #[trigger] events[k] < scheduler.num_samples) by {
            if k > 0 {
                assert(later[k - 1] == events[k]);
            }
        }
        assert forall|k: int| 0 <= k < dispatched_at.len() implies starts_block(
            blocks,
            #[trigger] dispatched_at[k],
        ) by {
            if k == 0 {
                assert(blocks[0].0 == dispatched_at[0]);
            } else {
                assert(dispatched_at[k] == rest.1[k - 1]);
                assert(starts_block(rest.0, rest.1[k - 1]));
            }
        }
    } else {
        let end = scheduler.block_end(head_of(events));
        lemma_block_bounds(scheduler, head_of(events));
        let next = BlockScheduler { block_start: end as usize, ..scheduler };
        if events.len() > 0 {
            lemma_block_stops_at_event(scheduler, events[0]);
        }
        lemma_events_fall_on_block_starts(next, events);
        let rest = work(next, events);
        assert(blocks == seq![(scheduler.block_start as int, end)] + rest.0);
        assert(dispatched_at == rest.1);
        assert forall|k: int| 0 <= k < dispatched_at.len() implies starts_block(
            blocks,
            #[trigger] dispatched_at[k],
        ) by {
            assert(starts_block(rest.0, rest.1[k]));
            let j = choose|j: int| 0 <= j < rest.0.len() && (#[trigger] rest.0[j]).0 == rest.1[k];
            assert(blocks[j + 1] == rest.0[j]);
        }
    }
}

} // verus!
