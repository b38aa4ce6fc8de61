use cachewarm::cache_manager::{
    is_global_progress_path, job_progress_view, sat_add_i64, CacheManager,
};
use cachewarm::models::{percent_of, CacheProgress};

#[test]
fn speed_window_smooths_over_samples() {
    let mut p = CacheProgress::new(1000);
    p.update_speed(100, 1000);
    // the only sample is the newest one: no time has passed, speed keeps its old value
    assert_eq!(p.speed_windows.len(), 1);
    assert_eq!(p.current_speed, 0);

    p.update_speed(100, 3000);
    // 200 bytes over the 2 seconds from the oldest sample
    assert_eq!(p.speed_windows.len(), 2);
    assert_eq!(p.current_speed, 100);
}

#[test]
fn speed_window_drops_stale_samples() {
    let mut p = CacheProgress::new(0);
    p.update_speed(100, 1000);
    p.update_speed(100, 3000);
    p.update_speed(50, 7000);
    // the 1000 ms sample is older than 7000 - 5000 and is gone
    assert_eq!(p.speed_windows.len(), 2);
    assert_eq!(p.speed_windows[0].timestamp_ms, 3000);
    // 150 bytes over 4 seconds
    assert_eq!(p.current_speed, 37);
}

#[test]
fn speed_never_negative() {
    let mut p = CacheProgress::new(0);
    for t in 0..20u64 {
        p.update_speed(0, t * 700);
        assert!(p.current_speed >= 0);
    }
}

#[test]
fn apply_read_raises_totals_together() {
    let mut p = CacheProgress::new(500);
    p.apply_read(200, 1000);
    assert_eq!(p.total_bytes_read, 200);
    assert_eq!(p.cached_size, 200);
    assert_eq!(p.total_size, 500);
    assert!(!p.is_complete);
    p.apply_read(300, 2500);
    assert_eq!(p.total_bytes_read, 500);
    assert_eq!(p.cached_size, 500);
}

#[test]
fn percent_of_guards_zero_total() {
    assert_eq!(percent_of(0, 0), 0);
    assert_eq!(percent_of(123, 0), 0);
    assert_eq!(percent_of(50, 200), 25);
    assert_eq!(percent_of(200, 200), 100);
    assert_eq!(percent_of(1, 3), 33);
    assert_eq!(percent_of(2, 3), 66);
}

#[test]
fn percent_monotone_in_bytes() {
    let mut last = 0;
    for bytes in 0..=200i64 {
        let p = percent_of(bytes, 200);
        assert!(p >= last);
        assert!(p <= 100);
        last = p;
    }
}

#[test]
fn registry_tracks_one_job() {
    let mut m = CacheManager::new(1 << 20);
    assert_eq!(m.job_count(), 0);
    m.start_progress("/data/file.bin", 1000);
    assert_eq!(m.job_count(), 1);

    let found = m.update_progress("/data/file.bin", 400, 1000);
    assert!(found);
    let p = m.get_progress("/data/file.bin").unwrap();
    assert_eq!(p.total_bytes_read, 400);
    assert_eq!(p.cached_size, 400);
    assert_eq!(p.total_size, 1000);
    assert!(!p.is_complete);

    assert!(!m.update_progress("/other", 1, 1000));
    assert!(m.get_progress("/other").is_none());
}

#[test]
fn finished_job_leaves_registry() {
    let mut m = CacheManager::new(4096);
    m.start_progress("/a", 10);
    let done = m.finish_progress("/a").unwrap();
    assert!(done.is_complete);
    // removal happens before the flag is set: a later query finds nothing
    assert!(m.get_progress("/a").is_none());
    assert_eq!(m.job_count(), 0);
    assert!(m.finish_progress("/a").is_none());
}

#[test]
fn restarted_job_gets_fresh_progress() {
    let mut m = CacheManager::new(4096);
    m.start_progress("/a", 100);
    m.update_progress("/a", 60, 500);
    m.start_progress("/a", 200);
    let p = m.get_progress("/a").unwrap();
    assert_eq!(p.total_size, 200);
    assert_eq!(p.total_bytes_read, 0);
    assert_eq!(m.job_count(), 1);
}

#[test]
fn empty_file_job_completes_without_division_error() {
    let mut m = CacheManager::new(4096);
    m.start_progress("/empty.bin", 0);
    let p = m.get_progress("/empty.bin").unwrap();
    let view = job_progress_view(&p);
    assert_eq!(view.overall_percent, 0);
    let g = m.get_global_progress();
    assert_eq!(g.overall_percent, 0);
    let done = m.finish_progress("/empty.bin").unwrap();
    assert!(done.is_complete);
}

#[test]
fn global_progress_sums_two_jobs() {
    let mut m = CacheManager::new(4096);
    m.start_progress("/a", 100);
    m.start_progress("/b", 300);
    m.update_progress("/a", 50, 1000);
    m.update_progress("/a", 25, 3000);
    m.update_progress("/b", 100, 2000);
    m.update_progress("/b", 100, 4000);

    let pa = m.get_progress("/a").unwrap();
    let pb = m.get_progress("/b").unwrap();
    let g = m.get_global_progress();
    assert_eq!(g.active_jobs, 2);
    assert_eq!(g.cached_size, pa.total_bytes_read + pb.total_bytes_read);
    assert_eq!(g.total_speed, pa.current_speed + pb.current_speed);
    // 275 bytes of 400 expected
    assert_eq!(g.overall_percent, percent_of(275, 400));
}

#[test]
fn global_path_is_root_or_empty() {
    assert!(is_global_progress_path("/"));
    assert!(is_global_progress_path(""));
    assert!(!is_global_progress_path("/a"));
}

#[test]
fn job_progress_view_reports_the_job() {
    let mut m = CacheManager::new(4096);
    m.start_progress("/a", 200);
    m.update_progress("/a", 50, 1000);
    let p = m.get_progress("/a").unwrap();
    let v = job_progress_view(&p);
    assert_eq!(v.total_speed, p.current_speed);
    assert_eq!(v.overall_percent, 25);
    assert_eq!(v.active_jobs, 1);
    assert_eq!(v.cached_size, 50);
}

#[test]
fn sat_add_clamps_at_bounds() {
    assert_eq!(sat_add_i64(1, 2), 3);
    assert_eq!(sat_add_i64(i64::MAX, 1), i64::MAX);
    assert_eq!(sat_add_i64(i64::MIN, -1), i64::MIN);
}
