//! The directory-size engine's cache and arithmetic.
//!
//! Computing a path's on-disk footprint means walking the filesystem,
//! which the asynchronous shell does; every decision in that walk is
//! made here: whether a cached size is still fresh, what a file's
//! allocated size is (disk blocks, not logical length), how child
//! sizes accumulate, and when an entry is (re)stored.

use vstd::prelude::*;

use crate::cache_manager::{sat_add_i64, spec_sat_add_i64};
use crate::kv::{
    find_key, lemma_key_index, lemma_key_index_push, lemma_key_index_update, spec_key_index,
    spec_key_lookup,
};

verus! {

/// How long a computed size stays reusable.
pub const SIZE_CACHE_MAX_AGE_MS: u64 = 300_000;

/// Bytes per disk block in allocated-size accounting.
pub const DISK_BLOCK_BYTES: u64 = 512;

/// One cached size: the computed allocated size and when it was
/// computed.
#[derive(Clone, Copy, Debug, PartialEq, Eq, Structural)]
pub struct SizeCacheEntry {
    pub size: i64,
    pub timestamp_ms: u64,
}

/// A cached entry is readable at `now_ms` while it is younger than
/// `max_age_ms`; a timestamp in the future counts as age zero.
pub open spec fn spec_entry_fresh(e: SizeCacheEntry, now_ms: u64, max_age_ms: u64) -> bool {
    (if now_ms >= e.timestamp_ms {
        now_ms - e.timestamp_ms
    } else {
        0
    }) < max_age_ms
}

/// Computes allocated sizes of paths with a time-bounded cache keyed
/// by canonical path strings. Entries are never evicted; a stale
/// entry is only overwritten by the next recomputation.
pub struct DirectorySizer {
    pub cache: Vec<(String, SizeCacheEntry)>,
    pub max_age_ms: u64,
}

impl DirectorySizer {
    /// Cache invariant: canonical paths are pairwise distinct keys.
    pub open spec fn wf(&self) -> bool {
        forall|a: int, b: int|
            0 <= a < b < self.cache@.len() ==> (#[trigger] self.cache@[a]).0@
                != (#[trigger] self.cache@[b]).0@
    }

    pub fn new() -> (r: DirectorySizer)
        ensures
            r.cache@.len() == 0,
            r.max_age_ms == SIZE_CACHE_MAX_AGE_MS,
            r.wf(),
    {
        DirectorySizer { cache: Vec::new(), max_age_ms: SIZE_CACHE_MAX_AGE_MS }
    }

    /// The cached size under `path`, provided it is younger than
    /// `max_age_ms` at `now_ms`. Never touches the filesystem and
    /// never mutates the cache.
    pub fn check_cache(&self, path: &str, now_ms: u64) -> (r: Option<i64>)
        ensures
            r == match spec_key_lookup(self.cache@, path@) {
                Some(e) => if spec_entry_fresh(e, now_ms, self.max_age_ms) {
                    Some(e.size)
                } else {
                    None::<i64>
                },
                None => None::<i64>,
            },
    {
        match find_key(&self.cache, path) {
            Some(i) => {
                let e = self.cache[i].1;
                let age: u64 = if now_ms >= e.timestamp_ms {
                    now_ms - e.timestamp_ms
                } else {
                    0
                };
                if age < self.max_age_ms {
                    Some(e.size)
                } else {
                    None
                }
            },
            None => None,
        }
    }

    /// Stores (or overwrites) the size computed for `path` at
    /// `now_ms`.
    pub fn store_size(&mut self, path: &str, size: i64, now_ms: u64)
        requires
            old(self).wf(),
        ensures
            final(self).wf(),
            final(self).max_age_ms == old(self).max_age_ms,
            spec_key_lookup(final(self).cache@, path@) == Some(
                SizeCacheEntry { size, timestamp_ms: now_ms },
            ),
            forall|k: Seq<char>|
                k != path@ ==> #[trigger] spec_key_lookup(final(self).cache@, k)
                    == spec_key_lookup(old(self).cache@, k),
    {
        let entry = SizeCacheEntry { size, timestamp_ms: now_ms };
        let key = path.to_owned();
        match find_key(&self.cache, path) {
            Some(i) => {
                let ghost s0 = self.cache@;
                self.cache[i] = (key, entry);
                proof {
                    let s1 = self.cache@;
                    assert(s1 =~= s0.update(i as int, s1[i as int]));
                    assert forall|k: Seq<char>| true implies #[trigger] spec_key_index(s1, k)
                        == spec_key_index(s0, k) by {
                        lemma_key_index_update(s0, i as int, s1[i as int], k);
                    }
                    lemma_key_index(s1, path@);
                    assert(spec_key_index(s1, path@) == i);
                    assert forall|k: Seq<char>| k != path@ implies #[trigger] spec_key_lookup(
                        s1,
                        k,
                    ) == spec_key_lookup(s0, k) by {
                        let r = spec_key_index(s0, k);
                        if r >= 0 {
                            lemma_key_index(s0, k);
                            assert(r != i);
                            assert(s1[r] == s0[r]);
                        }
                    }
                }
            },
            None => {
                let ghost s0 = self.cache@;
                self.cache.push((key, entry));
                proof {
                    let s1 = self.cache@;
                    let p = s1.last();
                    assert(s1 =~= s0.push(p));
                    assert(p.0@ == path@);
                    assert forall|k: Seq<char>| true implies #[trigger] spec_key_index(s1, k)
                        == (if spec_key_index(s0, k) >= 0 {
                        spec_key_index(s0, k)
                    } else if k == path@ {
                        s0.len() as int
                    } else {
                        -1
                    }) by {
                        lemma_key_index_push(s0, p, k);
                    }
                    assert forall|k: Seq<char>| k != path@ implies #[trigger] spec_key_lookup(
                        s1,
                        k,
                    ) == spec_key_lookup(s0, k) by {
                        let r = spec_key_index(s0, k);
                        if r >= 0 {
                            lemma_key_index(s0, k);
                            assert(s1[r] == s0[r]);
                        }
                    }
                    assert(spec_key_lookup(s1, path@) == Some(p.1));
                    assert forall|a: int, b: int| 0 <= a < b < s1.len() implies (
                    #[trigger] s1[a]).0@ != (#[trigger] s1[b]).0@ by {
                        if b == s1.len() - 1 {
                            lemma_key_index(s0, s0[a].0@);
                            if s0[a].0@ == path@ {
                                assert(spec_key_index(s0, path@) != -1);
                            }
                        }
                    }
                }
            },
        }
    }
}

/// A stored size stays readable, unchanged, for the whole of its
/// `max_age_ms` window: a lookup at any instant younger than the
/// store returns exactly the stored size, without recomputation.
pub proof fn lemma_cache_hit_stable(
    sizer: DirectorySizer,
    path: Seq<char>,
    size: i64,
    stored_ms: u64,
    query_ms: u64,
)
    requires
        sizer.max_age_ms > 0,
        spec_key_lookup(sizer.cache@, path) == Some(
            SizeCacheEntry { size, timestamp_ms: stored_ms },
        ),
        query_ms < stored_ms + sizer.max_age_ms,
    ensures
        match spec_key_lookup(sizer.cache@, path) {
            Some(e) => spec_entry_fresh(e, query_ms, sizer.max_age_ms) && e.size == size,
            None => false,
        },
{
}

/// A file's allocated size: whole disk blocks, not its logical
/// length, clamped into `i64`. This is the size of every plain file
/// in an allocated-size computation, whether the file was queried
/// directly or met as a directory child.
pub fn allocated_size_of_blocks(blocks: u64) -> (r: i64)
    ensures
        r == if blocks * DISK_BLOCK_BYTES > i64::MAX {
            i64::MAX as int
        } else {
            blocks * DISK_BLOCK_BYTES
        },
{
    let limit: u64 = i64::MAX as u64 / DISK_BLOCK_BYTES;
    if blocks > limit {
        proof {
            assert(blocks * DISK_BLOCK_BYTES > i64::MAX) by (nonlinear_arith)
                requires
                    blocks > limit,
                    limit == i64::MAX as u64 / DISK_BLOCK_BYTES,
                    DISK_BLOCK_BYTES == 512,
            ;
        }
        i64::MAX
    } else {
        proof {
            assert(blocks * DISK_BLOCK_BYTES <= i64::MAX && blocks * DISK_BLOCK_BYTES >= 0)
                by (nonlinear_arith)
                requires
                    0 <= blocks <= limit,
                    limit == i64::MAX as u64 / DISK_BLOCK_BYTES,
                    DISK_BLOCK_BYTES == 512,
            ;
        }
        (blocks * DISK_BLOCK_BYTES) as i64
    }
}

/// Accumulates one child's size into a running directory total,
/// clamping at the `i64` bounds.
pub fn accumulate_size(total: i64, child: i64) -> (r: i64)
    ensures
        r == spec_sat_add_i64(total as int, child as int),
{
    sat_add_i64(total, child)
}

} // verus!
