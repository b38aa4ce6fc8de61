use cachewarm::copy_plan::{
    copy_file_segmented, copy_file_single, copy_file_single_tracked, pick_strategy, plan_segments,
    should_flush, write_range_from, CopyStrategy, Segment,
};
use cachewarm::models::CacheProgress;
use cachewarm::stream_buf::ChunkBuffer;

fn sample_bytes(n: usize) -> Vec<u8> {
    (0..n).map(|i| (i * 31 + 7) as u8).collect()
}

#[test]
fn plan_four_segments_with_overlap() {
    let segs = plan_segments(100, 4);
    // segment size 25, overlap min(25 / 20, 1 MiB) = 1
    assert_eq!(
        segs,
        vec![
            Segment { start: 0, end: 25 },
            Segment { start: 24, end: 50 },
            Segment { start: 49, end: 75 },
            Segment { start: 74, end: 100 },
        ]
    );
}

#[test]
fn plan_single_segment_is_whole_file() {
    let segs = plan_segments(10, 1);
    assert_eq!(segs, vec![Segment { start: 0, end: 10 }]);
}

#[test]
fn plan_covers_uneven_split() {
    let segs = plan_segments(103, 4);
    // segment size 25: the last segment absorbs the remainder
    assert_eq!(segs[0], Segment { start: 0, end: 25 });
    assert_eq!(segs[3], Segment { start: 74, end: 103 });
    for w in segs.windows(2) {
        assert!(w[1].start <= w[0].end);
    }
    assert_eq!(segs.last().unwrap().end, 103);
}

#[test]
fn single_stream_round_trips() {
    let src = sample_bytes(1000);
    for chunk in [1usize, 7, 256, 1000, 4096] {
        assert_eq!(copy_file_single(&src, chunk), src);
    }
}

#[test]
fn single_stream_copies_empty_file() {
    let src: Vec<u8> = Vec::new();
    assert_eq!(copy_file_single(&src, 8), src);
}

#[test]
fn tracked_copy_accounts_every_byte() {
    let src = sample_bytes(1000);
    let mut progress = CacheProgress::new(1000);
    let dest = copy_file_single_tracked(&src, 64, &mut progress, 1000);
    assert_eq!(dest, src);
    assert_eq!(progress.total_bytes_read, 1000);
    assert_eq!(progress.cached_size, 1000);
    assert_eq!(progress.total_size, 1000);
    assert!(!progress.is_complete);
}

#[test]
fn segmented_round_trips_any_thread_count() {
    let src = sample_bytes(103);
    for threads in [1usize, 2, 3, 5, 103] {
        for chunk in [1usize, 7, 64, 4096] {
            assert_eq!(copy_file_segmented(&src, threads, chunk), src);
        }
    }
}

#[test]
fn write_range_places_bytes_at_offset() {
    let mut dest = vec![0u8; 10];
    let src = vec![1u8, 2, 3, 4, 5];
    write_range_from(&mut dest, 4, &src, 1, 4);
    assert_eq!(dest, vec![0, 0, 0, 0, 2, 3, 4, 0, 0, 0]);
}

#[test]
fn strategy_needs_range_reads_threads_and_size() {
    assert_eq!(pick_strategy(true, 4, 1000, 16), CopyStrategy::Segmented);
    assert_eq!(pick_strategy(false, 4, 1000, 16), CopyStrategy::SingleStream);
    assert_eq!(pick_strategy(true, 1, 1000, 16), CopyStrategy::SingleStream);
    assert_eq!(pick_strategy(true, 4, 63, 16), CopyStrategy::SingleStream);
    assert_eq!(pick_strategy(true, 4, 64, 16), CopyStrategy::Segmented);
}

#[test]
fn flush_once_per_second() {
    assert!(!should_flush(0, 999));
    assert!(should_flush(0, 1000));
    assert!(should_flush(2500, 4000));
    // a clock that went backwards reads as no time passed
    assert!(!should_flush(5000, 1000));
}

#[test]
fn chunk_buffer_serves_then_pulls() {
    let mut b = ChunkBuffer::new();
    assert!(b.needs_pull());
    assert_eq!(b.take(4), Vec::<u8>::new());

    b.supply(vec![1, 2, 3, 4, 5]);
    assert!(!b.needs_pull());
    assert_eq!(b.take(2), vec![1, 2]);
    assert_eq!(b.take(10), vec![3, 4, 5]);
    assert!(b.needs_pull());

    b.supply(vec![9]);
    assert_eq!(b.take(1), vec![9]);
    assert!(b.needs_pull());
}
