//! The copy engine's planning and byte-level model.
//!
//! A file is copied either in one sequential stream or, when the
//! backend offers byte-range reads, in `threads` contiguous segments
//! whose workers run concurrently. Each segment after the first
//! starts an overlap window before its nominal boundary as a safety
//! margin; every worker writes its bytes at the same offsets in the
//! destination, so overlapping ranges carry identical data and the
//! reassembled file is well-defined.
//!
//! The functions here decide the strategy, compute the segment
//! bounds, and model the byte movement over in-memory buffers; the
//! asynchronous shell replays exactly these bounds against real
//! files.

use vstd::prelude::*;

verus! {

/// Upper bound on a segment's overlap window.
pub const OVERLAP_CAP_BYTES: u64 = 1048576;

/// A reader flushes its accumulated progress at most once per this
/// interval.
pub const FLUSH_INTERVAL_MS: u64 = 1000;

/// A contiguous byte range `[start, end)` of one file, assigned to
/// one copy worker.
#[derive(Clone, Copy, Debug, PartialEq, Eq, Structural)]
pub struct Segment {
    pub start: u64,
    pub end: u64,
}

/// How one file will be copied.
#[derive(Clone, Copy, Debug, PartialEq, Eq, Structural)]
pub enum CopyStrategy {
    SingleStream,
    Segmented,
}

/// The nominal size of each segment.
pub open spec fn spec_seg_size(file_size: int, threads: int) -> int {
    file_size / threads
}

/// The overlap window: a twentieth of a segment, capped.
pub open spec fn spec_overlap(file_size: int, threads: int) -> int {
    let o = spec_seg_size(file_size, threads) / 20;
    if o > OVERLAP_CAP_BYTES {
        OVERLAP_CAP_BYTES as int
    } else {
        o
    }
}

/// Where segment `i` starts reading: its nominal boundary, pulled
/// back by the overlap window for every segment but the first.
pub open spec fn spec_seg_start(file_size: int, threads: int, i: int) -> int {
    if i == 0 {
        0
    } else {
        i * spec_seg_size(file_size, threads) - spec_overlap(file_size, threads)
    }
}

/// Where segment `i` ends: the next nominal boundary, or the file's
/// end for the last segment.
pub open spec fn spec_seg_end(file_size: int, threads: int, i: int) -> int {
    if i == threads - 1 {
        file_size
    } else {
        (i + 1) * spec_seg_size(file_size, threads)
    }
}

/// A file is copied in segments exactly when the backend can serve
/// byte-range reads, more than one worker was requested, and the file
/// spans at least one chunk per worker.
pub fn pick_strategy(
    supports_range_reads: bool,
    threads: usize,
    file_size: u64,
    chunk_size: usize,
) -> (r: CopyStrategy)
    ensures
        r == CopyStrategy::Segmented <==> (supports_range_reads && threads > 1 && file_size
            >= threads * chunk_size),
{
    proof {
        assert((threads as u128) * (chunk_size as u128) < u128::MAX) by (nonlinear_arith)
            requires
                threads <= u64::MAX,
                chunk_size <= u64::MAX,
        ;
    }
    if supports_range_reads && threads > 1 && (file_size as u128) >= (threads as u128) * (
    chunk_size as u128) {
        CopyStrategy::Segmented
    } else {
        CopyStrategy::SingleStream
    }
}

/// Computes the `threads` segments of a `file_size`-byte file, in
/// order: starts and ends exactly as [`spec_seg_start`] and
/// [`spec_seg_end`] give them, covering the file from 0 to
/// `file_size`.
pub fn plan_segments(file_size: u64, threads: usize) -> (segs: Vec<Segment>)
    requires
        1 <= threads,
        threads <= file_size,
    ensures
        segs@.len() == threads,
        forall|i: int|
            0 <= i < threads ==> (#[trigger] segs@[i]).start == spec_seg_start(
                file_size as int,
                threads as int,
                i,
            ) && segs@[i].end == spec_seg_end(file_size as int, threads as int, i),
        forall|i: int|
            0 <= i < threads ==> (#[trigger] segs@[i]).start <= segs@[i].end && segs@[i].end
                <= file_size,
{
    let t = threads as u64;
    let seg_size: u64 = file_size / t;
    let o: u64 = seg_size / 20;
    let overlap: u64 = if o > OVERLAP_CAP_BYTES {
        OVERLAP_CAP_BYTES
    } else {
        o
    };
    proof {
        assert(seg_size >= 1) by (nonlinear_arith)
            requires
                1 <= t <= file_size,
                seg_size == file_size / t,
        ;
        assert(t * seg_size <= file_size) by (nonlinear_arith)
            requires
                t >= 1,
                seg_size == file_size / t,
        ;
        assert(overlap <= seg_size);
    }
    let mut segs: Vec<Segment> = Vec::new();
    let mut i: usize = 0;
    while i < threads
        invariant
            i <= threads,
            t == threads,
            1 <= t <= file_size,
            seg_size == file_size as int / t as int,
            seg_size >= 1,
            t * seg_size <= file_size,
            overlap == spec_overlap(file_size as int, t as int),
            overlap <= seg_size,
            segs@.len() == i,
            forall|j: int|
                0 <= j < i ==> (#[trigger] segs@[j]).start == spec_seg_start(
                    file_size as int,
                    threads as int,
                    j,
                ) && segs@[j].end == spec_seg_end(file_size as int, threads as int, j),
            forall|j: int|
                0 <= j < i ==> (#[trigger] segs@[j]).start <= segs@[j].end && segs@[j].end
                    <= file_size,
        decreases threads - i,
    {
        let iu = i as u64;
        proof {
            assert(iu * seg_size <= (t - 1) * seg_size && (iu + 1) * seg_size <= t * seg_size)
                by (nonlinear_arith)
                requires
                    0 <= iu <= t - 1,
                    seg_size >= 0,
            ;
            assert(iu >= 1 ==> iu * seg_size >= seg_size) by (nonlinear_arith)
                requires
                    seg_size >= 0,
            ;
            assert((iu + 1) * seg_size == iu * seg_size + seg_size) by (nonlinear_arith);
        }
        let nominal: u64 = iu * seg_size;
        let start: u64 = if i == 0 {
            0
        } else {
            nominal - overlap
        };
        let end: u64 = if i == threads - 1 {
            file_size
        } else {
            nominal + seg_size
        };
        proof {
            if i < threads - 1 {
                assert(start <= end);
            } else {
                assert(iu * seg_size <= t * seg_size) by (nonlinear_arith)
                    requires
                        0 <= iu <= t,
                        seg_size >= 0,
                ;
            }
        }
        segs.push(Segment { start, end });
        i = i + 1;
    }
    segs
}

/// Every byte offset of the file falls inside at least one planned
/// segment.
pub proof fn lemma_segments_cover(file_size: int, threads: int, j: int)
    requires
        1 <= threads <= file_size,
        0 <= j < file_size,
    ensures
        exists|i: int|
            0 <= i < threads && #[trigger] spec_seg_start(file_size, threads, i) <= j
                < spec_seg_end(file_size, threads, i),
{
    let ss = spec_seg_size(file_size, threads);
    assert(ss >= 1 && threads * ss <= file_size) by (nonlinear_arith)
        requires
            1 <= threads <= file_size,
            ss == file_size / threads,
    ;
    let q = j / ss;
    assert(q * ss <= j < (q + 1) * ss && q >= 0) by (nonlinear_arith)
        requires
            ss >= 1,
            j >= 0,
            q == j / ss,
    ;
    if q <= threads - 1 {
        let i = q;
        assert(spec_seg_start(file_size, threads, i) <= j) by {
            if i != 0 {
                assert(spec_overlap(file_size, threads) >= 0);
            }
        }
        assert(j < spec_seg_end(file_size, threads, i));
        assert(0 <= i < threads && spec_seg_start(file_size, threads, i) <= j < spec_seg_end(
            file_size,
            threads,
            i,
        ));
    } else {
        let i = threads - 1;
        assert((threads - 1) * ss <= q * ss) by (nonlinear_arith)
            requires
                threads - 1 <= q,
                ss >= 0,
        ;
        assert(spec_seg_start(file_size, threads, i) <= j) by {
            if i != 0 {
                assert(spec_overlap(file_size, threads) >= 0);
            }
        }
        assert(j < spec_seg_end(file_size, threads, i));
        assert(0 <= i < threads && spec_seg_start(file_size, threads, i) <= j < spec_seg_end(
            file_size,
            threads,
            i,
        ));
    }
}

/// Segmented reassembly is exact: if a destination of the file's
/// length agrees with the source on every planned segment's range,
/// it equals the source byte for byte — for any worker count, and
/// regardless of how the workers' writes interleaved.
pub proof fn lemma_segments_reassemble(src: Seq<u8>, dest: Seq<u8>, threads: int)
    requires
        1 <= threads <= src.len(),
        dest.len() == src.len(),
        forall|i: int|
            0 <= i < threads ==> #[trigger] dest.subrange(
                spec_seg_start(src.len() as int, threads, i),
                spec_seg_end(src.len() as int, threads, i),
            ) == src.subrange(
                spec_seg_start(src.len() as int, threads, i),
                spec_seg_end(src.len() as int, threads, i),
            ),
    ensures
        dest =~= src,
{
    let n = src.len() as int;
    assert forall|j: int| 0 <= j < n implies dest[j] == src[j] by {
        lemma_segments_cover(n, threads, j);
        let i = choose|i: int|
            0 <= i < threads && #[trigger] spec_seg_start(n, threads, i) <= j < spec_seg_end(
                n,
                threads,
                i,
            );
        let s = spec_seg_start(n, threads, i);
        let e = spec_seg_end(n, threads, i);
        assert(0 <= s <= j < e <= n) by {
            assert(dest.subrange(s, e) == src.subrange(s, e));
            if s < 0 || e > n {
                assert(spec_overlap(n, threads) >= 0);
                assert(i >= 1 ==> i * spec_seg_size(n, threads) >= spec_seg_size(n, threads))
                    by (nonlinear_arith)
                    requires
                        spec_seg_size(n, threads) >= 0,
                ;
                assert((i + 1) * spec_seg_size(n, threads) <= threads * spec_seg_size(n, threads))
                    by (nonlinear_arith)
                    requires
                        i + 1 <= threads,
                        spec_seg_size(n, threads) >= 0,
                ;
                assert(threads * spec_seg_size(n, threads) <= n) by (nonlinear_arith)
                    requires
                        threads >= 1,
                        spec_seg_size(n, threads) == n / threads,
                ;
            }
        }
        assert(dest.subrange(s, e)[j - s] == src.subrange(s, e)[j - s]);
    }
}

/// Copies `src[from..to]` to `dest[offset..offset + (to - from)]`,
/// leaving every other destination byte unchanged: one worker's write
/// of one chunk at its file offset.
pub fn write_range_from(dest: &mut Vec<u8>, offset: usize, src: &Vec<u8>, from: usize, to: usize)
    requires
        from <= to <= src@.len(),
        offset + (to - from) <= old(dest)@.len(),
    ensures
        final(dest)@.len() == old(dest)@.len(),
        final(dest)@.subrange(offset as int, offset + (to - from)) == src@.subrange(
            from as int,
            to as int,
        ),
        forall|j: int|
            0 <= j < old(dest)@.len() && !(offset <= j < offset + (to - from))
                ==> final(dest)@[j] == old(dest)@[j],
{
    let n = dest.len();
    let mut k: usize = 0;
    while k < to - from
        invariant
            k <= to - from,
            from <= to <= src@.len(),
            offset + (to - from) <= n,
            n == dest@.len(),
            dest@.len() == old(dest)@.len(),
            forall|j: int| 0 <= j < k ==> #[trigger] dest@[offset + j] == src@[from + j],
            forall|j: int|
                0 <= j < dest@.len() && !(offset <= j < offset + k)
                    ==> dest@[j] == old(dest)@[j],
        decreases to - from - k,
    {
        let b = src[from + k];
        dest[offset + k] = b;
        k = k + 1;
    }
    proof {
        assert forall|x: int| 0 <= x < to - from implies dest@.subrange(
            offset as int,
            offset + (to - from),
        )[x] == src@.subrange(from as int, to as int)[x] by {
            assert(dest@[offset + x] == src@[from + x]);
        }
        assert(dest@.subrange(offset as int, offset + (to - from)) =~= src@.subrange(
            from as int,
            to as int,
        ));
    }
}

/// The sequential copy: reads the source in `chunk_size`-byte chunks
/// from offset 0 and appends each chunk to the destination. The
/// destination ends up byte-for-byte equal to the source.
pub fn copy_file_single(src: &Vec<u8>, chunk_size: usize) -> (dest: Vec<u8>)
    requires
        chunk_size >= 1,
    ensures
        dest@ == src@,
{
    let n = src.len();
    let mut dest: Vec<u8> = Vec::new();
    let mut pos: usize = 0;
    while pos < n
        invariant
            pos <= n,
            n == src@.len(),
            chunk_size >= 1,
            dest@ == src@.subrange(0, pos as int),
        decreases n - pos,
    {
        let take = if chunk_size < n - pos {
            chunk_size
        } else {
            n - pos
        };
        let mut k: usize = 0;
        while k < take
            invariant
                k <= take,
                pos + take <= n,
                n == src@.len(),
                dest@ == src@.subrange(0, pos + k),
            decreases take - k,
        {
            dest.push(src[pos + k]);
            proof {
                assert(src@.subrange(0, pos + k + 1) =~= src@.subrange(0, pos + k).push(
                    src@[pos + k],
                ));
            }
            k = k + 1;
        }
        pos = pos + take;
    }
    proof {
        assert(src@.subrange(0, n as int) =~= src@);
    }
    dest
}

/// The sequential copy with its progress accounting: as
/// [`copy_file_single`], but every chunk read is also applied to the
/// job's shared progress. Afterwards the destination equals the
/// source and the running totals have grown by exactly the file's
/// length.
pub fn copy_file_single_tracked(
    src: &Vec<u8>,
    chunk_size: usize,
    progress: &mut crate::models::CacheProgress,
    now_ms: u64,
) -> (dest: Vec<u8>)
    requires
        chunk_size >= 1,
        old(progress).wf(),
        old(progress).total_bytes_read + src@.len() <= i64::MAX,
        old(progress).cached_size + src@.len() <= i64::MAX,
    ensures
        dest@ == src@,
        final(progress).wf(),
        final(progress).total_bytes_read == old(progress).total_bytes_read + src@.len(),
        final(progress).cached_size == old(progress).cached_size + src@.len(),
        final(progress).total_size == old(progress).total_size,
        final(progress).is_complete == old(progress).is_complete,
{
    let n = src.len();
    let mut dest: Vec<u8> = Vec::new();
    let mut pos: usize = 0;
    while pos < n
        invariant
            pos <= n,
            n == src@.len(),
            chunk_size >= 1,
            dest@ == src@.subrange(0, pos as int),
            progress.wf(),
            progress.total_bytes_read == old(progress).total_bytes_read + pos,
            progress.cached_size == old(progress).cached_size + pos,
            progress.total_size == old(progress).total_size,
            progress.is_complete == old(progress).is_complete,
            old(progress).total_bytes_read + n <= i64::MAX,
            old(progress).cached_size + n <= i64::MAX,
        decreases n - pos,
    {
        let take = if chunk_size < n - pos {
            chunk_size
        } else {
            n - pos
        };
        let mut k: usize = 0;
        while k < take
            invariant
                k <= take,
                pos + take <= n,
                n == src@.len(),
                dest@ == src@.subrange(0, pos + k),
            decreases take - k,
        {
            dest.push(src[pos + k]);
            proof {
                assert(src@.subrange(0, pos + k + 1) =~= src@.subrange(0, pos + k).push(
                    src@[pos + k],
                ));
            }
            k = k + 1;
        }
        progress.apply_read(take as i64, now_ms);
        pos = pos + take;
    }
    proof {
        assert(src@.subrange(0, n as int) =~= src@);
    }
    dest
}

/// One worker's pass over its segment: copies `src[start..end]` to
/// the same offsets of `dest` in `chunk_size`-byte chunks, leaving
/// every byte outside the segment unchanged.
pub fn copy_segment_chunked(
    dest: &mut Vec<u8>,
    src: &Vec<u8>,
    start: usize,
    end: usize,
    chunk_size: usize,
)
    requires
        chunk_size >= 1,
        start <= end <= src@.len(),
        end <= old(dest)@.len(),
    ensures
        final(dest)@.len() == old(dest)@.len(),
        final(dest)@.subrange(start as int, end as int) == src@.subrange(start as int, end as int),
        forall|j: int|
            0 <= j < old(dest)@.len() && !(start <= j < end) ==> final(dest)@[j] == old(dest)@[j],
{
    let mut off: usize = start;
    while off < end
        invariant
            start <= off <= end,
            chunk_size >= 1,
            end <= src@.len(),
            end <= dest@.len(),
            dest@.len() == old(dest)@.len(),
            forall|j: int| start <= j < off ==> #[trigger] dest@[j] == src@[j],
            forall|j: int|
                0 <= j < dest@.len() && !(start <= j < off) ==> dest@[j] == old(dest)@[j],
        decreases end - off,
    {
        let take = if chunk_size < end - off {
            chunk_size
        } else {
            end - off
        };
        let ghost dest0 = dest@;
        write_range_from(dest, off, src, off, off + take);
        proof {
            assert forall|j: int| start <= j < off + take implies #[trigger] dest@[j] == src@[j] by {
                if off <= j {
                    assert(dest@.subrange(off as int, off + take)[j - off] == src@.subrange(
                        off as int,
                        off + take,
                    )[j - off]);
                } else {
                    assert(dest@[j] == dest0[j]);
                }
            }
        }
        off = off + take;
    }
    proof {
        assert(dest@.subrange(start as int, end as int) =~= src@.subrange(start as int, end as int));
    }
}

/// The segmented copy over in-memory buffers: plans the segments for
/// `threads` workers and lets each write its segment's source range,
/// chunk by chunk, at the same offsets in the destination, exactly as
/// the concurrent workers do to the destination file. The result
/// equals the source byte for byte, whatever the worker count and
/// chunk size.
pub fn copy_file_segmented(src: &Vec<u8>, threads: usize, chunk_size: usize) -> (dest: Vec<u8>)
    requires
        1 <= threads,
        threads <= src@.len(),
        chunk_size >= 1,
    ensures
        dest@ == src@,
{
    let n = src.len();
    let segs = plan_segments(n as u64, threads);
    let mut dest: Vec<u8> = alloc_zeroed(n);
    let mut i: usize = 0;
    while i < threads
        invariant
            i <= threads,
            n == src@.len(),
            1 <= threads <= n,
            dest@.len() == n,
            segs@.len() == threads,
            forall|j: int|
                0 <= j < threads ==> (#[trigger] segs@[j]).start == spec_seg_start(
                    n as int,
                    threads as int,
                    j,
                ) && segs@[j].end == spec_seg_end(n as int, threads as int, j),
            forall|j: int|
                0 <= j < threads ==> (#[trigger] segs@[j]).start <= segs@[j].end && segs@[j].end
                    <= n,
            chunk_size >= 1,
            forall|k: int, j: int|
                #![trigger segs@[k], dest@[j]]
                0 <= k < i && segs@[k].start <= j < segs@[k].end ==> dest@[j] == src@[j],
        decreases threads - i,
    {
        let seg = segs[i];
        let ghost dest0 = dest@;
        copy_segment_chunked(&mut dest, src, seg.start as usize, seg.end as usize, chunk_size);
        proof {
            assert forall|k: int, j: int|
                #![trigger segs@[k], dest@[j]]
                0 <= k < i + 1 && segs@[k].start <= j < segs@[k].end implies dest@[j] == src@[j] by {
                if seg.start <= j < seg.end {
                    assert(dest@.subrange(seg.start as int, seg.end as int)[j - seg.start]
                        == src@.subrange(seg.start as int, seg.end as int)[j - seg.start]);
                } else {
                    assert(dest@[j] == dest0[j]);
                }
            }
        }
        i = i + 1;
    }
    proof {
        assert forall|i2: int| 0 <= i2 < threads implies #[trigger] dest@.subrange(
            spec_seg_start(n as int, threads as int, i2),
            spec_seg_end(n as int, threads as int, i2),
        ) == src@.subrange(
            spec_seg_start(n as int, threads as int, i2),
            spec_seg_end(n as int, threads as int, i2),
        ) by {
            let s = segs@[i2].start as int;
            let e = segs@[i2].end as int;
            assert(dest@.subrange(s, e) =~= src@.subrange(s, e));
        }
        lemma_segments_reassemble(src@, dest@, threads as int);
        assert(dest@ =~= src@);
    }
    dest
}

fn alloc_zeroed(n: usize) -> (v: Vec<u8>)
    ensures
        v@.len() == n,
{
    let mut v: Vec<u8> = Vec::new();
    let mut i: usize = 0;
    while i < n
        invariant
            i <= n,
            v@.len() == i,
        decreases n - i,
    {
        v.push(0u8);
        i = i + 1;
    }
    v
}

/// Whether a reader's accumulated progress is due for a flush: at
/// least one second has passed since the last one (a clock that went
/// backwards counts as no time passed).
pub fn should_flush(last_update_ms: u64, now_ms: u64) -> (r: bool)
    ensures
        r == ((if now_ms >= last_update_ms {
            now_ms - last_update_ms
        } else {
            0
        }) >= FLUSH_INTERVAL_MS),
{
    let elapsed: u64 = if now_ms >= last_update_ms {
        now_ms - last_update_ms
    } else {
        0
    };
    elapsed >= FLUSH_INTERVAL_MS
}

} // verus!
