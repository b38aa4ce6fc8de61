//! Data model of the engine: directory entries, per-job copy progress
//! with its sliding speed window, and the aggregate progress view.
//!
//! Time is carried as integer milliseconds since an arbitrary epoch and
//! speeds as whole bytes per second, so that every update is exact
//! integer arithmetic.

use vstd::prelude::*;

verus! {

/// Samples newer than this many milliseconds before the latest update
/// are retained in the speed window.
pub const SPEED_WINDOW_MS: u64 = 5000;

/// One measurement of the sliding speed window: how many bytes a flush
/// reported and when.
#[derive(Clone, Copy, Debug, PartialEq, Eq, Structural)]
pub struct SpeedWindow {
    pub bytes_read: i64,
    pub timestamp_ms: u64,
}

/// A directory entry as reported by a storage backend. `path` is the
/// entry's virtual `/`-rooted path; `size` is present only for files;
/// `modified_time` is in whole seconds since the Unix epoch.
#[derive(Clone, Debug)]
pub struct FileEntry {
    pub name: String,
    pub path: String,
    pub is_dir: bool,
    pub size: Option<i64>,
    pub modified_time: i64,
}

/// The mathematical value of a [`FileEntry`].
pub struct FileEntryV {
    pub name: Seq<char>,
    pub path: Seq<char>,
    pub is_dir: bool,
    pub size: Option<i64>,
    pub modified_time: i64,
}

impl View for FileEntry {
    type V = FileEntryV;

    open spec fn view(&self) -> FileEntryV {
        FileEntryV {
            name: self.name@,
            path: self.path@,
            is_dir: self.is_dir,
            size: self.size,
            modified_time: self.modified_time,
        }
    }
}

/// A browsing row: a [`FileEntry`] augmented with how many bytes of it
/// already sit in the local cache.
#[derive(Clone, Debug)]
pub struct FileInfo {
    pub name: String,
    pub path: String,
    pub is_dir: bool,
    pub size: Option<i64>,
    pub created_time: i64,
    pub cached_size: i64,
}

/// Builds the browsing row for one entry from the entry and the
/// allocated size found under the cache root.
pub fn file_info_for(entry: FileEntry, cached_size: i64) -> (r: FileInfo)
    ensures
        r.name@ == entry.name@,
        r.path@ == entry.path@,
        r.is_dir == entry.is_dir,
        r.size == entry.size,
        r.created_time == entry.modified_time,
        r.cached_size == cached_size,
{
    FileInfo {
        name: entry.name,
        path: entry.path,
        is_dir: entry.is_dir,
        size: entry.size,
        created_time: entry.modified_time,
        cached_size,
    }
}

/// Progress of one precache job.
#[derive(Debug)]
pub struct CacheProgress {
    pub current_speed: i64,
    pub total_bytes_read: i64,
    pub total_size: i64,
    pub is_complete: bool,
    pub cached_size: i64,
    pub speed_windows: Vec<SpeedWindow>,
}

/// The aggregate progress view over the active jobs.
#[derive(Clone, Copy, Debug, PartialEq, Eq, Structural)]
pub struct GlobalProgress {
    pub total_speed: i64,
    pub overall_percent: i64,
    pub active_jobs: i32,
    pub cached_size: i64,
}

/// Sum of the byte counts of a sequence of speed samples.
pub open spec fn spec_sum_bytes(ws: Seq<SpeedWindow>) -> int
    decreases ws.len(),
{
    if ws.len() == 0 {
        0
    } else {
        spec_sum_bytes(ws.drop_last()) + ws.last().bytes_read
    }
}

/// The cutoff before which samples are dropped: five seconds before
/// `now_ms`, saturating at zero.
pub open spec fn spec_cutoff(now_ms: u64) -> u64 {
    if now_ms >= SPEED_WINDOW_MS {
        (now_ms - SPEED_WINDOW_MS) as u64
    } else {
        0
    }
}

/// The samples of `ws` strictly newer than `cutoff`, in order.
pub open spec fn spec_retain(ws: Seq<SpeedWindow>, cutoff: u64) -> Seq<SpeedWindow>
    decreases ws.len(),
{
    if ws.len() == 0 {
        Seq::empty()
    } else {
        let rest = spec_retain(ws.drop_last(), cutoff);
        if ws.last().timestamp_ms > cutoff {
            rest.push(ws.last())
        } else {
            rest
        }
    }
}

/// `sum * 1000 / elapsed_ms`, clamped into `i64`.
pub open spec fn spec_speed_value(sum: int, elapsed_ms: int) -> int {
    let q = sum * 1000 / elapsed_ms;
    if q > i64::MAX {
        i64::MAX as int
    } else {
        q
    }
}

/// The speed after an update: the window's byte total divided by the
/// time between its oldest sample and `now_ms`, or the previous speed
/// when no time has passed.
pub open spec fn spec_updated_speed(old_speed: i64, ws: Seq<SpeedWindow>, now_ms: u64) -> int {
    if ws.len() > 0 && now_ms > ws[0].timestamp_ms {
        spec_speed_value(spec_sum_bytes(ws), now_ms - ws[0].timestamp_ms)
    } else {
        old_speed as int
    }
}

pub proof fn lemma_sum_bytes_nonneg(ws: Seq<SpeedWindow>)
    requires
        forall|i: int| 0 <= i < ws.len() ==> (#[trigger] ws[i]).bytes_read >= 0,
    ensures
        spec_sum_bytes(ws) >= 0,
    decreases ws.len(),
{
    if ws.len() > 0 {
        lemma_sum_bytes_nonneg(ws.drop_last());
    }
}

/// Retention keeps only samples newer than the cutoff, keeps their
/// byte counts, and cannot increase the byte total.
pub proof fn lemma_retain_props(ws: Seq<SpeedWindow>, cutoff: u64)
    requires
        forall|i: int| 0 <= i < ws.len() ==> (#[trigger] ws[i]).bytes_read >= 0,
    ensures
        spec_sum_bytes(spec_retain(ws, cutoff)) <= spec_sum_bytes(ws),
        forall|i: int|
            0 <= i < spec_retain(ws, cutoff).len() ==> (#[trigger] spec_retain(ws, cutoff)[i]).timestamp_ms
                > cutoff,
        forall|i: int|
            0 <= i < spec_retain(ws, cutoff).len() ==> (#[trigger] spec_retain(
                ws,
                cutoff,
            )[i]).bytes_read >= 0,
    decreases ws.len(),
{
    if ws.len() > 0 {
        lemma_retain_props(ws.drop_last(), cutoff);
        lemma_sum_bytes_nonneg(ws.drop_last());
        if ws.last().timestamp_ms > cutoff {
            let rest = spec_retain(ws.drop_last(), cutoff);
            assert(rest.push(ws.last()).drop_last() =~= rest);
            assert(spec_sum_bytes(rest.push(ws.last())) == spec_sum_bytes(rest)
                + ws.last().bytes_read);
        }
    }
}

/// The smoothed speed is never negative and is derived only from
/// samples inside the trailing five-second window: after an update at
/// `now_ms`, every retained sample is newer than `now_ms` minus the
/// window, and the speed is their byte total over the time from the
/// oldest of them to `now_ms` (unchanged when no time has passed).
pub proof fn lemma_speed_from_window(p0: CacheProgress, p1: CacheProgress, bytes: i64, now_ms: u64)
    requires
        bytes >= 0,
        p0.wf(),
        p1.speed_windows@ == spec_retain(
            p0.speed_windows@.push(SpeedWindow { bytes_read: bytes, timestamp_ms: now_ms }),
            spec_cutoff(now_ms),
        ),
        p1.current_speed == spec_updated_speed(p0.current_speed, p1.speed_windows@, now_ms),
    ensures
        p1.current_speed >= 0,
        forall|i: int|
            0 <= i < p1.speed_windows@.len() ==> (#[trigger] p1.speed_windows@[i]).timestamp_ms
                + SPEED_WINDOW_MS > now_ms,
        p1.speed_windows@.len() > 0 && now_ms > p1.speed_windows@[0].timestamp_ms
            ==> p1.current_speed == spec_speed_value(
            spec_sum_bytes(p1.speed_windows@),
            now_ms - p1.speed_windows@[0].timestamp_ms,
        ),
{
    let pushed = p0.speed_windows@.push(SpeedWindow { bytes_read: bytes, timestamp_ms: now_ms });
    assert(forall|i: int| 0 <= i < pushed.len() ==> (#[trigger] pushed[i]).bytes_read >= 0);
    lemma_retain_props(pushed, spec_cutoff(now_ms));
    if p1.speed_windows@.len() > 0 && now_ms > p1.speed_windows@[0].timestamp_ms {
        lemma_sum_bytes_nonneg(p1.speed_windows@);
        let sum = spec_sum_bytes(p1.speed_windows@);
        let elapsed = now_ms - p1.speed_windows@[0].timestamp_ms;
        assert(sum * 1000 / elapsed >= 0) by (nonlinear_arith)
            requires
                sum >= 0,
                elapsed >= 1,
        ;
    }
}

pub proof fn lemma_sum_bytes_prefix(ws: Seq<SpeedWindow>, j: int)
    requires
        forall|i: int| 0 <= i < ws.len() ==> (#[trigger] ws[i]).bytes_read >= 0,
        0 <= j <= ws.len(),
    ensures
        spec_sum_bytes(ws.subrange(0, j)) <= spec_sum_bytes(ws),
    decreases ws.len() - j,
{
    if j == ws.len() {
        assert(ws.subrange(0, j) =~= ws);
    } else {
        lemma_sum_bytes_prefix(ws, j + 1);
        assert(ws.subrange(0, j + 1).drop_last() =~= ws.subrange(0, j));
        assert(spec_sum_bytes(ws.subrange(0, j + 1)) == spec_sum_bytes(ws.subrange(0, j))
            + ws[j].bytes_read);
    }
}

impl CacheProgress {
    /// A fresh, empty progress record for a job of `total_size` bytes.
    pub fn new(total_size: i64) -> (r: CacheProgress)
        requires
            total_size >= 0,
        ensures
            r.current_speed == 0,
            r.total_bytes_read == 0,
            r.total_size == total_size,
            r.is_complete == false,
            r.cached_size == 0,
            r.speed_windows@ =~= Seq::<SpeedWindow>::empty(),
            r.wf(),
    {
        CacheProgress {
            current_speed: 0,
            total_bytes_read: 0,
            total_size,
            is_complete: false,
            cached_size: 0,
            speed_windows: Vec::new(),
        }
    }

    /// Internal consistency: all counters are non-negative and the
    /// window never accounts for more bytes than were ever read.
    pub open spec fn wf(self) -> bool {
        &&& self.current_speed >= 0
        &&& self.total_bytes_read >= 0
        &&& self.total_size >= 0
        &&& self.cached_size >= 0
        &&& forall|i: int|
            0 <= i < self.speed_windows@.len() ==> (#[trigger] self.speed_windows@[i]).bytes_read
                >= 0
        &&& spec_sum_bytes(self.speed_windows@) <= self.total_bytes_read
    }

    /// Appends a speed sample, drops samples older than the trailing
    /// five-second window, and recomputes the smoothed speed.
    pub fn update_speed(&mut self, bytes_read: i64, now_ms: u64)
        requires
            bytes_read >= 0,
            old(self).current_speed >= 0,
            forall|i: int|
                0 <= i < old(self).speed_windows@.len()
                    ==> (#[trigger] old(self).speed_windows@[i]).bytes_read >= 0,
            spec_sum_bytes(old(self).speed_windows@) + bytes_read <= i64::MAX,
        ensures
            final(self).speed_windows@ == spec_retain(
                old(self).speed_windows@.push(SpeedWindow { bytes_read, timestamp_ms: now_ms }),
                spec_cutoff(now_ms),
            ),
            final(self).current_speed == spec_updated_speed(
                old(self).current_speed,
                final(self).speed_windows@,
                now_ms,
            ),
            final(self).current_speed >= 0,
            forall|i: int|
                0 <= i < final(self).speed_windows@.len()
                    ==> (#[trigger] final(self).speed_windows@[i]).bytes_read >= 0,
            spec_sum_bytes(final(self).speed_windows@) <= spec_sum_bytes(old(self).speed_windows@)
                + bytes_read,
            final(self).total_bytes_read == old(self).total_bytes_read,
            final(self).total_size == old(self).total_size,
            final(self).cached_size == old(self).cached_size,
            final(self).is_complete == old(self).is_complete,
    {
        let cutoff: u64 = if now_ms >= SPEED_WINDOW_MS {
            now_ms - SPEED_WINDOW_MS
        } else {
            0
        };
        self.speed_windows.push(SpeedWindow { bytes_read, timestamp_ms: now_ms });
        let ghost all = self.speed_windows@;
        proof {
            assert(all.drop_last() =~= old(self).speed_windows@);
            assert(spec_sum_bytes(all) == spec_sum_bytes(old(self).speed_windows@) + bytes_read);
        }
        let n = self.speed_windows.len();
        let mut kept: Vec<SpeedWindow> = Vec::new();
        let mut sum: i64 = 0;
        let mut i: usize = 0;
        proof {
            assert(all.subrange(0, 0) =~= Seq::<SpeedWindow>::empty());
        }
        while i < n
            invariant
                i <= n,
                n == all.len(),
                all == self.speed_windows@,
                forall|j: int| 0 <= j < all.len() ==> (#[trigger] all[j]).bytes_read >= 0,
                spec_sum_bytes(all) <= i64::MAX,
                kept@ == spec_retain(all.subrange(0, i as int), cutoff),
                sum == spec_sum_bytes(kept@),
                0 <= sum,
            decreases n - i,
        {
            proof {
                assert(all.subrange(0, i + 1).drop_last() =~= all.subrange(0, i as int));
                lemma_retain_props(all.subrange(0, i + 1), cutoff);
                lemma_sum_bytes_prefix(all, i + 1);
                lemma_retain_props(all.subrange(0, i as int), cutoff);
            }
            let w = self.speed_windows[i];
            if w.timestamp_ms > cutoff {
                let ghost kept0 = kept@;
                kept.push(w);
                proof {
                    assert(kept@.drop_last() =~= kept0);
                    assert(spec_sum_bytes(kept@) == spec_sum_bytes(kept0) + w.bytes_read);
                }
                sum = sum + w.bytes_read;
            }
            i = i + 1;
        }
        proof {
            assert(all.subrange(0, n as int) =~= all);
            lemma_retain_props(all, cutoff);
        }
        self.speed_windows = kept;
        if self.speed_windows.len() > 0 {
            let first = self.speed_windows[0];
            if now_ms > first.timestamp_ms {
                let elapsed: u64 = now_ms - first.timestamp_ms;
                let q: i128 = (sum as i128) * 1000 / (elapsed as i128);
                proof {
                    assert(q == spec_sum_bytes(self.speed_windows@) * 1000 / (now_ms
                        - first.timestamp_ms)) by {
                        assert((sum as i128) * 1000 == sum * 1000);
                    }
                    assert(q >= 0) by (nonlinear_arith)
                        requires
                            q == sum * 1000 / (elapsed as int),
                            sum >= 0,
                            elapsed >= 1,
                    ;
                }
                self.current_speed = if q > i64::MAX as i128 {
                    i64::MAX
                } else {
                    q as i64
                };
            }
        }
    }

    /// Accounts for `bytes` freshly copied bytes flushed at `now_ms`:
    /// raises the running totals and feeds the speed window.
    pub fn apply_read(&mut self, bytes: i64, now_ms: u64)
        requires
            bytes >= 0,
            old(self).wf(),
            old(self).total_bytes_read + bytes <= i64::MAX,
            old(self).cached_size + bytes <= i64::MAX,
        ensures
            final(self).wf(),
            final(self).total_bytes_read == old(self).total_bytes_read + bytes,
            final(self).cached_size == old(self).cached_size + bytes,
            final(self).total_size == old(self).total_size,
            final(self).is_complete == old(self).is_complete,
            final(self).speed_windows@ == spec_retain(
                old(self).speed_windows@.push(SpeedWindow { bytes_read: bytes, timestamp_ms: now_ms }),
                spec_cutoff(now_ms),
            ),
            final(self).current_speed == spec_updated_speed(
                old(self).current_speed,
                final(self).speed_windows@,
                now_ms,
            ),
    {
        self.total_bytes_read = self.total_bytes_read + bytes;
        self.cached_size = self.cached_size + bytes;
        self.update_speed(bytes, now_ms);
    }

    /// A copy of this progress record, taken so that readers can
    /// observe a job without holding its lock.
    pub fn snapshot(&self) -> (r: CacheProgress)
        ensures
            r.current_speed == self.current_speed,
            r.total_bytes_read == self.total_bytes_read,
            r.total_size == self.total_size,
            r.is_complete == self.is_complete,
            r.cached_size == self.cached_size,
            r.speed_windows@ == self.speed_windows@,
    {
        let mut ws: Vec<SpeedWindow> = Vec::new();
        let n = self.speed_windows.len();
        let mut i: usize = 0;
        proof {
            assert(self.speed_windows@.subrange(0, 0) =~= Seq::<SpeedWindow>::empty());
        }
        while i < n
            invariant
                i <= n,
                n == self.speed_windows@.len(),
                ws@ == self.speed_windows@.subrange(0, i as int),
            decreases n - i,
        {
            ws.push(self.speed_windows[i]);
            proof {
                assert(self.speed_windows@.subrange(0, i + 1) =~= self.speed_windows@.subrange(
                    0,
                    i as int,
                ).push(self.speed_windows@[i as int]));
            }
            i = i + 1;
        }
        proof {
            assert(self.speed_windows@.subrange(0, n as int) =~= self.speed_windows@);
        }
        CacheProgress {
            current_speed: self.current_speed,
            total_bytes_read: self.total_bytes_read,
            total_size: self.total_size,
            is_complete: self.is_complete,
            cached_size: self.cached_size,
            speed_windows: ws,
        }
    }
}

/// `bytes / size` as a whole percentage: 0 when `size` is 0, otherwise
/// `bytes * 100 / size` clamped into `i64`.
pub open spec fn spec_percent(bytes: int, size: int) -> int {
    if size > 0 {
        let q = bytes * 100 / size;
        if q > i64::MAX {
            i64::MAX as int
        } else {
            q
        }
    } else {
        0
    }
}

/// The overall completion percentage of `bytes` read out of `size`.
pub fn percent_of(bytes: i64, size: i64) -> (r: i64)
    requires
        bytes >= 0,
        size >= 0,
    ensures
        r == spec_percent(bytes as int, size as int),
        r >= 0,
{
    if size > 0 {
        let q: i128 = (bytes as i128) * 100 / (size as i128);
        proof {
            assert(q == bytes * 100 / (size as int)) by {
                assert((bytes as i128) * 100 == bytes * 100);
            }
            assert(q >= 0) by (nonlinear_arith)
                requires
                    q == bytes * 100 / (size as int),
                    bytes >= 0,
                    size >= 1,
            ;
        }
        if q > i64::MAX as i128 {
            i64::MAX
        } else {
            q as i64
        }
    } else {
        0
    }
}

/// While a job has not read more than its expected size, its
/// percentage lies in the closed range 0 to 100.
pub proof fn lemma_percent_bounds(bytes: int, size: int)
    requires
        0 <= bytes <= size,
    ensures
        0 <= spec_percent(bytes, size) <= 100,
{
    if size > 0 {
        assert(0 <= bytes * 100 / size <= 100) by (nonlinear_arith)
            requires
                0 <= bytes <= size,
                size > 0,
        ;
    }
}

/// While a job is active its completion percentage never decreases:
/// progress updates only add bytes and never change the expected
/// size.
pub proof fn lemma_job_percent_nondecreasing(p0: CacheProgress, p1: CacheProgress)
    requires
        p0.wf(),
        p1.total_bytes_read >= p0.total_bytes_read,
        p1.total_size == p0.total_size,
    ensures
        spec_percent(p1.total_bytes_read as int, p1.total_size as int) >= spec_percent(
            p0.total_bytes_read as int,
            p0.total_size as int,
        ),
{
    lemma_percent_monotone(
        p0.total_bytes_read as int,
        p1.total_bytes_read as int,
        p0.total_size as int,
    );
}

/// The percentage never decreases as the byte count grows while the
/// expected size stays fixed.
pub proof fn lemma_percent_monotone(b1: int, b2: int, size: int)
    requires
        0 <= b1 <= b2,
        size >= 0,
    ensures
        spec_percent(b1, size) <= spec_percent(b2, size),
{
    if size > 0 {
        assert(b1 * 100 / size <= b2 * 100 / size) by (nonlinear_arith)
            requires
                0 <= b1 <= b2,
                size > 0,
        ;
    }
}

} // verus!
