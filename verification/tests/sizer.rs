use cachewarm::cache_manager::directory_level_size;
use cachewarm::directory_sizer::{
    accumulate_size, allocated_size_of_blocks, DirectorySizer, DISK_BLOCK_BYTES,
    SIZE_CACHE_MAX_AGE_MS,
};
use cachewarm::local_backend::local_list_entry;

#[test]
fn allocated_size_counts_blocks_not_length() {
    // a 10 KB file that occupies 3 disk blocks of 512 bytes
    assert_eq!(allocated_size_of_blocks(3), 1536);
    assert_ne!(allocated_size_of_blocks(3), 10240);
    assert_eq!(allocated_size_of_blocks(0), 0);
    assert_eq!(DISK_BLOCK_BYTES, 512);
}

#[test]
fn allocated_size_clamps_instead_of_overflowing() {
    // the largest block count whose byte total still fits
    assert_eq!(allocated_size_of_blocks(18014398509481983), 9223372036854775296);
    assert_eq!(allocated_size_of_blocks(18014398509481984), i64::MAX);
    assert_eq!(allocated_size_of_blocks(u64::MAX), i64::MAX);
}

#[test]
fn fresh_cache_entry_is_reused() {
    let mut s = DirectorySizer::new();
    assert_eq!(s.check_cache("/cache/a", 1000), None);
    s.store_size("/cache/a", 1536, 1000);
    // two reads within max_age return the identical stored value
    assert_eq!(s.check_cache("/cache/a", 1000), Some(1536));
    assert_eq!(s.check_cache("/cache/a", 1000 + SIZE_CACHE_MAX_AGE_MS - 1), Some(1536));
}

#[test]
fn stale_cache_entry_is_not_read() {
    let mut s = DirectorySizer::new();
    s.store_size("/cache/a", 1536, 1000);
    assert_eq!(s.check_cache("/cache/a", 1000 + SIZE_CACHE_MAX_AGE_MS), None);
    // the stale entry is only overwritten by the next recomputation
    s.store_size("/cache/a", 2048, 400_000);
    assert_eq!(s.check_cache("/cache/a", 400_001), Some(2048));
}

#[test]
fn future_timestamp_counts_as_age_zero() {
    let mut s = DirectorySizer::new();
    s.store_size("/cache/a", 7, 5000);
    assert_eq!(s.check_cache("/cache/a", 1000), Some(7));
}

#[test]
fn cache_keys_are_independent() {
    let mut s = DirectorySizer::new();
    s.store_size("/a", 1, 0);
    s.store_size("/b", 2, 0);
    assert_eq!(s.check_cache("/a", 10), Some(1));
    assert_eq!(s.check_cache("/b", 10), Some(2));
    assert_eq!(s.check_cache("/c", 10), None);
}

#[test]
fn accumulate_size_saturates() {
    assert_eq!(accumulate_size(10, 32), 42);
    assert_eq!(accumulate_size(i64::MAX, 1), i64::MAX);
}

#[test]
fn level_size_sums_files_and_collects_dirs() {
    let entries = vec![
        local_list_entry(String::from("a.txt"), "/d", false, true, 100, 0),
        local_list_entry(String::from("sub"), "/d", true, false, 0, 0),
        local_list_entry(String::from("b.txt"), "/d", false, true, 23, 0),
        local_list_entry(String::from("deep"), "/d", true, false, 0, 0),
    ];
    let (total, subdirs) = directory_level_size(&entries);
    assert_eq!(total, 123);
    assert_eq!(subdirs, vec![String::from("/d/sub"), String::from("/d/deep")]);
}
