//! The precache job registry: one [`CacheProgress`] per active job,
//! keyed by the job's virtual source path, with per-job updates and
//! the aggregate view over all active jobs.
//!
//! The asynchronous shell owns the locking and the copying; every
//! decision about what the registry holds is made here.

use vstd::prelude::*;

use crate::kv::{
    find_key, lemma_key_index, lemma_key_index_push, lemma_key_index_update, lemma_lookup_remove,
    spec_key_index, spec_key_lookup,
};
use crate::models::{
    spec_cutoff, spec_percent, spec_retain, spec_updated_speed, CacheProgress, FileEntry,
    GlobalProgress, SpeedWindow,
};
use crate::vpath::str_eq;

verus! {

/// `a + b` clamped into `i64`.
pub open spec fn spec_sat_add_i64(a: int, b: int) -> int {
    if a + b > i64::MAX {
        i64::MAX as int
    } else if a + b < i64::MIN {
        i64::MIN as int
    } else {
        a + b
    }
}

/// Adds two counters, clamping at the `i64` bounds instead of
/// overflowing.
pub fn sat_add_i64(a: i64, b: i64) -> (r: i64)
    ensures
        r == spec_sat_add_i64(a as int, b as int),
{
    let s: i128 = a as i128 + b as i128;
    if s > i64::MAX as i128 {
        i64::MAX
    } else if s < i64::MIN as i128 {
        i64::MIN
    } else {
        s as i64
    }
}

/// Saturating sum of the jobs' current speeds, in registry order.
pub open spec fn spec_total_speed(s: Seq<(String, CacheProgress)>) -> int
    decreases s.len(),
{
    if s.len() == 0 {
        0
    } else {
        spec_sat_add_i64(spec_total_speed(s.drop_last()), s.last().1.current_speed as int)
    }
}

/// Saturating sum of the jobs' bytes read, in registry order.
pub open spec fn spec_total_bytes(s: Seq<(String, CacheProgress)>) -> int
    decreases s.len(),
{
    if s.len() == 0 {
        0
    } else {
        spec_sat_add_i64(spec_total_bytes(s.drop_last()), s.last().1.total_bytes_read as int)
    }
}

/// Saturating sum of the jobs' expected sizes, in registry order.
pub open spec fn spec_total_size(s: Seq<(String, CacheProgress)>) -> int
    decreases s.len(),
{
    if s.len() == 0 {
        0
    } else {
        spec_sat_add_i64(spec_total_size(s.drop_last()), s.last().1.total_size as int)
    }
}

/// The job count as an `i32`, clamped.
pub open spec fn spec_active_jobs(n: int) -> int {
    if n > i32::MAX {
        i32::MAX as int
    } else {
        n
    }
}

/// Orchestrates precache jobs: holds the configured copy chunk size
/// and the registry of active jobs.
pub struct CacheManager {
    pub chunk_size: usize,
    pub jobs: Vec<(String, CacheProgress)>,
}

impl CacheManager {
    /// The registry contents: `(source path, progress)` pairs in
    /// registration order.
    pub open spec fn jobs_seq(&self) -> Seq<(String, CacheProgress)> {
        self.jobs@
    }

    /// Registry invariant: keys are pairwise distinct and every
    /// progress record is internally consistent.
    pub open spec fn wf(&self) -> bool {
        &&& forall|a: int, b: int|
            0 <= a < b < self.jobs@.len() ==> (#[trigger] self.jobs@[a]).0@
                != (#[trigger] self.jobs@[b]).0@
        &&& forall|i: int| 0 <= i < self.jobs@.len() ==> (#[trigger] self.jobs@[i]).1.wf()
    }

    pub fn new(chunk_size: usize) -> (r: CacheManager)
        ensures
            r.chunk_size == chunk_size,
            r.jobs_seq().len() == 0,
            r.wf(),
    {
        CacheManager { chunk_size, jobs: Vec::new() }
    }

    /// Number of currently registered jobs.
    pub fn job_count(&self) -> (n: usize)
        ensures
            n == self.jobs_seq().len(),
    {
        self.jobs.len()
    }

    /// Registers a fresh progress record for a job that will copy
    /// `total_size` bytes from `source_path`. A job already registered
    /// under the same path is replaced by the fresh record.
    pub fn start_progress(&mut self, source_path: &str, total_size: i64)
        requires
            total_size >= 0,
            old(self).wf(),
        ensures
            final(self).wf(),
            final(self).chunk_size == old(self).chunk_size,
            final(self).jobs_seq().len() == if spec_key_index(old(self).jobs_seq(), source_path@)
                >= 0 {
                old(self).jobs_seq().len()
            } else {
                old(self).jobs_seq().len() + 1
            },
            match spec_key_lookup(final(self).jobs_seq(), source_path@) {
                Some(p) => {
                    &&& p.current_speed == 0
                    &&& p.total_bytes_read == 0
                    &&& p.total_size == total_size
                    &&& p.is_complete == false
                    &&& p.cached_size == 0
                    &&& p.speed_windows@.len() == 0
                },
                None => false,
            },
            forall|k: Seq<char>|
                k != source_path@ ==> #[trigger] spec_key_lookup(final(self).jobs_seq(), k)
                    == spec_key_lookup(old(self).jobs_seq(), k),
    {
        let fresh = CacheProgress::new(total_size);
        let key = source_path.to_owned();
        match find_key(&self.jobs, source_path) {
            Some(i) => {
                let ghost s0 = self.jobs@;
                let ghost p = (key@, fresh);
                self.jobs[i] = (key, fresh);
                proof {
                    let s1 = self.jobs@;
                    assert(s1 =~= s0.update(i as int, s1[i as int]));
                    assert forall|k: Seq<char>| true implies #[trigger] spec_key_index(s1, k)
                        == spec_key_index(s0, k) by {
                        lemma_key_index_update(s0, i as int, s1[i as int], k);
                    }
                    lemma_key_index(s1, source_path@);
                    assert(spec_key_index(s1, source_path@) == i);
                    assert forall|k: Seq<char>| k != source_path@ implies #[trigger] spec_key_lookup(
                        s1,
                        k,
                    ) == spec_key_lookup(s0, k) by {
                        let r = spec_key_index(s0, k);
                        if r >= 0 {
                            lemma_key_index(s0, k);
                            assert(r != i);
                            assert(s1[r] == s0[r]);
                        }
                    }
                }
            },
            None => {
                let ghost s0 = self.jobs@;
                self.jobs.push((key, fresh));
                proof {
                    let s1 = self.jobs@;
                    let p = s1.last();
                    assert(s1 =~= s0.push(p));
                    assert(p.0@ == source_path@);
                    assert forall|k: Seq<char>| true implies #[trigger] spec_key_index(s1, k)
                        == (if spec_key_index(s0, k) >= 0 {
                        spec_key_index(s0, k)
                    } else if k == source_path@ {
                        s0.len() as int
                    } else {
                        -1
                    }) by {
                        lemma_key_index_push(s0, p, k);
                    }
                    assert forall|k: Seq<char>| k != source_path@ implies #[trigger] spec_key_lookup(
                        s1,
                        k,
                    ) == spec_key_lookup(s0, k) by {
                        let r = spec_key_index(s0, k);
                        if r >= 0 {
                            lemma_key_index(s0, k);
                            assert(s1[r] == s0[r]);
                        }
                    }
                    assert(spec_key_lookup(s1, source_path@) == Some(p.1));
                    assert forall|a: int, b: int| 0 <= a < b < s1.len() implies (
                    #[trigger] s1[a]).0@ != (#[trigger] s1[b]).0@ by {
                        if b == s1.len() - 1 {
                            lemma_key_index(s0, s0[a].0@);
                            if s0[a].0@ == source_path@ {
                                assert(spec_key_index(s0, source_path@) != -1);
                            }
                        }
                    }
                }
            },
        }
    }

    /// Accounts `bytes` read at `now_ms` against the job registered
    /// under `path`. Returns whether such a job was found.
    pub fn update_progress(&mut self, path: &str, bytes: i64, now_ms: u64) -> (found: bool)
        requires
            bytes >= 0,
            old(self).wf(),
            match spec_key_lookup(old(self).jobs_seq(), path@) {
                Some(p) => p.total_bytes_read + bytes <= i64::MAX && p.cached_size + bytes
                    <= i64::MAX,
                None => true,
            },
        ensures
            final(self).wf(),
            final(self).chunk_size == old(self).chunk_size,
            found == (spec_key_index(old(self).jobs_seq(), path@) >= 0),
            final(self).jobs_seq().len() == old(self).jobs_seq().len(),
            forall|k: Seq<char>|
                k != path@ ==> #[trigger] spec_key_lookup(final(self).jobs_seq(), k)
                    == spec_key_lookup(old(self).jobs_seq(), k),
            match (
                spec_key_lookup(old(self).jobs_seq(), path@),
                spec_key_lookup(final(self).jobs_seq(), path@),
            ) {
                (Some(p0), Some(p1)) => {
                    &&& p1.total_bytes_read == p0.total_bytes_read + bytes
                    &&& p1.cached_size == p0.cached_size + bytes
                    &&& p1.total_size == p0.total_size
                    &&& p1.is_complete == p0.is_complete
                    &&& p1.speed_windows@ == spec_retain(
                        p0.speed_windows@.push(
                            SpeedWindow { bytes_read: bytes, timestamp_ms: now_ms },
                        ),
                        spec_cutoff(now_ms),
                    )
                    &&& p1.current_speed == spec_updated_speed(
                        p0.current_speed,
                        p1.speed_windows@,
                        now_ms,
                    )
                },
                (None, None) => true,
                _ => false,
            },
    {
        match find_key(&self.jobs, path) {
            Some(i) => {
                let ghost s0 = self.jobs@;
                let pair = &mut self.jobs[i];
                pair.1.apply_read(bytes, now_ms);
                proof {
                    let s1 = self.jobs@;
                    assert(s1 =~= s0.update(i as int, s1[i as int]));
                    assert(s1[i as int].0@ == path@);
                    assert forall|k: Seq<char>| true implies #[trigger] spec_key_index(s1, k)
                        == spec_key_index(s0, k) by {
                        lemma_key_index_update(s0, i as int, s1[i as int], k);
                    }
                    assert forall|k: Seq<char>| k != path@ implies #[trigger] spec_key_lookup(
                        s1,
                        k,
                    ) == spec_key_lookup(s0, k) by {
                        let r = spec_key_index(s0, k);
                        if r >= 0 {
                            lemma_key_index(s0, k);
                            assert(r != i);
                            assert(s1[r] == s0[r]);
                        }
                    }
                    lemma_key_index(s0, path@);
                    assert(spec_key_index(s0, path@) == i);
                }
                true
            },
            None => false,
        }
    }

    /// A snapshot of the progress registered under `path`, if any.
    pub fn get_progress(&self, path: &str) -> (r: Option<CacheProgress>)
        ensures
            match (r, spec_key_lookup(self.jobs_seq(), path@)) {
                (Some(got), Some(p)) => {
                    &&& got.current_speed == p.current_speed
                    &&& got.total_bytes_read == p.total_bytes_read
                    &&& got.total_size == p.total_size
                    &&& got.is_complete == p.is_complete
                    &&& got.cached_size == p.cached_size
                    &&& got.speed_windows@ == p.speed_windows@
                },
                (None, None) => true,
                _ => false,
            },
    {
        match find_key(&self.jobs, path) {
            Some(i) => Some(self.jobs[i].1.snapshot()),
            None => None,
        }
    }

    /// Deregisters the job under `path` and returns its final
    /// progress, marked complete. Afterwards a query for `path` finds
    /// nothing: a finished job is indistinguishable from one never
    /// started.
    pub fn finish_progress(&mut self, path: &str) -> (r: Option<CacheProgress>)
        requires
            old(self).wf(),
        ensures
            final(self).wf(),
            final(self).chunk_size == old(self).chunk_size,
            spec_key_lookup(final(self).jobs_seq(), path@) is None,
            forall|k: Seq<char>|
                k != path@ ==> #[trigger] spec_key_lookup(final(self).jobs_seq(), k)
                    == spec_key_lookup(old(self).jobs_seq(), k),
            match (spec_key_lookup(old(self).jobs_seq(), path@), r) {
                (Some(p0), Some(p1)) => {
                    &&& final(self).jobs_seq().len() == old(self).jobs_seq().len() - 1
                    &&& p1.is_complete == true
                    &&& p1.current_speed == p0.current_speed
                    &&& p1.total_bytes_read == p0.total_bytes_read
                    &&& p1.total_size == p0.total_size
                    &&& p1.cached_size == p0.cached_size
                    &&& p1.speed_windows@ == p0.speed_windows@
                },
                (None, None) => final(self).jobs_seq() == old(self).jobs_seq(),
                _ => false,
            },
    {
        match find_key(&self.jobs, path) {
            Some(i) => {
                let ghost s0 = self.jobs@;
                let mut pair = self.jobs.remove(i);
                pair.1.is_complete = true;
                proof {
                    let s1 = self.jobs@;
                    assert(s1 =~= s0.remove(i as int));
                    lemma_key_index(s0, path@);
                    assert forall|k: Seq<char>| true implies (k == path@ ==> spec_key_index(s1, k)
                        == -1) && (k != path@ ==> #[trigger] spec_key_lookup(s1, k)
                        == spec_key_lookup(s0, k)) by {
                        lemma_lookup_remove(s0, i as int, k);
                    }
                }
                Some(pair.1)
            },
            None => None,
        }
    }

    /// The aggregate view over all registered jobs: summed speed,
    /// bytes and expected size (saturating), the completion
    /// percentage of the sums, and the job count.
    pub fn get_global_progress(&self) -> (r: GlobalProgress)
        requires
            self.wf(),
        ensures
            r.total_speed == spec_total_speed(self.jobs_seq()),
            r.cached_size == spec_total_bytes(self.jobs_seq()),
            r.overall_percent == spec_percent(
                spec_total_bytes(self.jobs_seq()),
                spec_total_size(self.jobs_seq()),
            ),
            r.active_jobs == spec_active_jobs(self.jobs_seq().len() as int),
            r.total_speed >= 0,
            r.cached_size >= 0,
            r.overall_percent >= 0,
    {
        let n = self.jobs.len();
        let mut total_speed: i64 = 0;
        let mut total_bytes: i64 = 0;
        let mut total_size: i64 = 0;
        let mut i: usize = 0;
        proof {
            assert(self.jobs@.subrange(0, 0) =~= Seq::<(String, CacheProgress)>::empty());
        }
        while i < n
            invariant
                i <= n,
                n == self.jobs@.len(),
                self.wf(),
                total_speed == spec_total_speed(self.jobs@.subrange(0, i as int)),
                total_bytes == spec_total_bytes(self.jobs@.subrange(0, i as int)),
                total_size == spec_total_size(self.jobs@.subrange(0, i as int)),
                total_speed >= 0,
                total_bytes >= 0,
                total_size >= 0,
            decreases n - i,
        {
            proof {
                assert(self.jobs@.subrange(0, i + 1).drop_last() =~= self.jobs@.subrange(
                    0,
                    i as int,
                ));
                assert(self.jobs@.subrange(0, i + 1).last() == self.jobs@[i as int]);
            }
            let p = &self.jobs[i].1;
            total_speed = sat_add_i64(total_speed, p.current_speed);
            total_bytes = sat_add_i64(total_bytes, p.total_bytes_read);
            total_size = sat_add_i64(total_size, p.total_size);
            i = i + 1;
        }
        proof {
            assert(self.jobs@.subrange(0, n as int) =~= self.jobs@);
        }
        let active_jobs: i32 = if n > i32::MAX as usize {
            i32::MAX
        } else {
            n as i32
        };
        GlobalProgress {
            total_speed,
            overall_percent: crate::models::percent_of(total_bytes, total_size),
            active_jobs,
            cached_size: total_bytes,
        }
    }
}

/// The bytes that the files of one directory level contribute to a
/// recursive size computation, in listing order, saturating.
pub open spec fn spec_level_file_total(s: Seq<FileEntry>) -> int
    decreases s.len(),
{
    if s.len() == 0 {
        0
    } else {
        let rest = spec_level_file_total(s.drop_last());
        let e = s.last();
        if e.is_dir {
            rest
        } else {
            match e.size {
                Some(v) => spec_sat_add_i64(rest, v as int),
                None => rest,
            }
        }
    }
}

/// The paths of the subdirectories of one directory level, in
/// listing order.
pub open spec fn spec_level_subdirs(s: Seq<FileEntry>) -> Seq<Seq<char>>
    decreases s.len(),
{
    if s.len() == 0 {
        Seq::empty()
    } else {
        let rest = spec_level_subdirs(s.drop_last());
        if s.last().is_dir {
            rest.push(s.last().path@)
        } else {
            rest
        }
    }
}

/// One level of the recursive directory-size walk over a backend
/// listing: the file sizes of this level summed, and the
/// subdirectory paths still to be walked.
pub fn directory_level_size(entries: &Vec<FileEntry>) -> (r: (i64, Vec<String>))
    ensures
        r.0 == spec_level_file_total(entries@),
        r.1@.map_values(|p: String| p@) == spec_level_subdirs(entries@),
{
    let n = entries.len();
    let mut total: i64 = 0;
    let mut subdirs: Vec<String> = Vec::new();
    let mut i: usize = 0;
    proof {
        assert(entries@.subrange(0, 0) =~= Seq::<FileEntry>::empty());
        assert(subdirs@.map_values(|p: String| p@) =~= spec_level_subdirs(
            entries@.subrange(0, 0),
        ));
    }
    while i < n
        invariant
            i <= n,
            n == entries@.len(),
            total == spec_level_file_total(entries@.subrange(0, i as int)),
            subdirs@.map_values(|p: String| p@) == spec_level_subdirs(
                entries@.subrange(0, i as int),
            ),
        decreases n - i,
    {
        proof {
            assert(entries@.subrange(0, i + 1).drop_last() =~= entries@.subrange(0, i as int));
            assert(entries@.subrange(0, i + 1).last() == entries@[i as int]);
        }
        let e = &entries[i];
        if e.is_dir {
            let ghost sd0 = subdirs@;
            subdirs.push(e.path.clone());
            proof {
                assert(subdirs@.map_values(|p: String| p@) =~= sd0.map_values(
                    |p: String| p@,
                ).push(e.path@));
            }
        } else {
            match e.size {
                Some(v) => {
                    total = sat_add_i64(total, v);
                },
                None => (),
            }
        }
        i = i + 1;
    }
    proof {
        assert(entries@.subrange(0, n as int) =~= entries@);
    }
    (total, subdirs)
}

/// Whether a progress query names the aggregate view: the root path
/// or the empty path.
pub fn is_global_progress_path(path: &str) -> (r: bool)
    ensures
        r == (path@ == "/"@ || path@.len() == 0),
{
    let n = path.unicode_len();
    n == 0 || str_eq(path, "/")
}

/// The single-job progress report handed back for a per-path query:
/// the job's own speed, completion percentage, and cached byte count.
pub fn job_progress_view(p: &CacheProgress) -> (r: GlobalProgress)
    requires
        p.wf(),
    ensures
        r.total_speed == p.current_speed,
        r.overall_percent == spec_percent(p.total_bytes_read as int, p.total_size as int),
        r.active_jobs == 1,
        r.cached_size == p.cached_size,
{
    GlobalProgress {
        total_speed: p.current_speed,
        overall_percent: crate::models::percent_of(p.total_bytes_read, p.total_size),
        active_jobs: 1,
        cached_size: p.cached_size,
    }
}

} // verus!
