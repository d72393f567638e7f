use fm_synth::consts::MAX_BLOCK_SIZE;
use fm_synth::scheduler::{BlockScheduler, BlockStep};

/// Works through a buffer the way a host callback does: `events` holds the
/// timings in the order in which the queue gives them out. Returns the blocks
/// that were rendered and, for each event, the position at which it was
/// dispatched.
fn run(num_samples: usize, events: &[u32]) -> (Vec<(usize, usize)>, Vec<usize>) {
    let mut scheduler = BlockScheduler::new(num_samples);
    let mut head = 0;
    let mut blocks = Vec::new();
    let mut dispatched = Vec::new();
    loop {
        let pending = events.get(head).copied();
        match scheduler.next_step(pending) {
            BlockStep::Dispatch => {
                dispatched.push(scheduler.block_start);
                head += 1;
            }
            BlockStep::Render { block_start, block_end } => blocks.push((block_start, block_end)),
            BlockStep::Done => break,
        }
    }
    (blocks, dispatched)
}

#[test]
fn buffer_without_events_is_cut_at_the_block_size() {
    assert_eq!(MAX_BLOCK_SIZE, 64);
    let (blocks, dispatched) = run(150, &[]);
    assert_eq!(blocks, vec![(0, 64), (64, 128), (128, 150)]);
    assert!(dispatched.is_empty());
}

#[test]
fn empty_buffer_is_done_at_once() {
    let mut scheduler = BlockScheduler::new(0);
    assert_eq!(scheduler.next_step(Some(0)), BlockStep::Done);
    assert_eq!(scheduler.next_step(None), BlockStep::Done);
    assert_eq!(scheduler.block_start, 0);
}

#[test]
fn event_at_the_start_is_dispatched_before_any_block() {
    let mut scheduler = BlockScheduler::new(32);
    assert_eq!(scheduler.next_step(Some(0)), BlockStep::Dispatch);
    assert_eq!(scheduler.block_start, 0);
    assert_eq!(scheduler.next_step(None), BlockStep::Render { block_start: 0, block_end: 32 });
    assert_eq!(scheduler.next_step(None), BlockStep::Done);
}

#[test]
fn event_inside_a_block_ends_the_block() {
    let (blocks, dispatched) = run(100, &[10, 10, 70]);
    assert_eq!(blocks, vec![(0, 10), (10, 70), (70, 100)]);
    assert_eq!(dispatched, vec![10, 10, 70]);
}

#[test]
fn event_on_a_block_limit_changes_nothing() {
    let (blocks, dispatched) = run(128, &[64]);
    assert_eq!(blocks, vec![(0, 64), (64, 128)]);
    assert_eq!(dispatched, vec![64]);
}

#[test]
fn event_at_or_after_the_end_is_not_dispatched() {
    let (blocks, dispatched) = run(64, &[64, 70]);
    assert_eq!(blocks, vec![(0, 64)]);
    assert!(dispatched.is_empty());
}

#[test]
fn late_event_is_dispatched_where_the_buffer_stands() {
    let mut scheduler = BlockScheduler::new(100);
    assert_eq!(scheduler.next_step(Some(50)), BlockStep::Render { block_start: 0, block_end: 50 });
    assert_eq!(scheduler.next_step(Some(50)), BlockStep::Dispatch);
    assert_eq!(scheduler.next_step(Some(20)), BlockStep::Dispatch);
    assert_eq!(scheduler.block_start, 50);
    assert_eq!(scheduler.next_step(None), BlockStep::Render { block_start: 50, block_end: 100 });
}

#[test]
fn blocks_cover_the_buffer_without_gap() {
    let events = [3, 3, 64, 65, 200, 201, 255];
    let (blocks, dispatched) = run(256, &events);
    let mut position = 0;
    for (start, end) in &blocks {
        assert_eq!(*start, position);
        assert!(start < end);
        assert!(end - start <= MAX_BLOCK_SIZE);
        position = *end;
    }
    assert_eq!(position, 256);
    let expected: Vec<usize> = events.iter().map(|t| *t as usize).collect();
    assert_eq!(dispatched, expected);
}

#[test]
fn block_limit_does_not_overflow_near_the_largest_buffer() {
    let mut scheduler = BlockScheduler { num_samples: usize::MAX, block_start: usize::MAX - 10 };
    assert_eq!(scheduler.next_step(Some(0)), BlockStep::Dispatch);
    assert_eq!(
        scheduler.next_step(None),
        BlockStep::Render { block_start: usize::MAX - 10, block_end: usize::MAX }
    );
    assert_eq!(scheduler.next_step(Some(0)), BlockStep::Done);
    let mut scheduler = BlockScheduler { num_samples: usize::MAX, block_start: usize::MAX - 100 };
    assert_eq!(
        scheduler.next_step(None),
        BlockStep::Render { block_start: usize::MAX - 100, block_end: usize::MAX - 36 }
    );
}
