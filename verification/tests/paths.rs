use cachewarm::intparse::parse_i64;
use cachewarm::local_backend::{local_list_entry, local_metadata_entry, LocalFileSystem};
use cachewarm::vpath::{
    join_entry_path, last_segment, path_join, str_eq, strip_leading_slash, trim_trailing_slashes,
};

#[test]
fn strip_leading_slash_removes_one() {
    assert_eq!(strip_leading_slash("/a/b"), "a/b");
    assert_eq!(strip_leading_slash("a/b"), "a/b");
    assert_eq!(strip_leading_slash("//x"), "/x");
    assert_eq!(strip_leading_slash(""), "");
    assert_eq!(strip_leading_slash("/"), "");
}

#[test]
fn trim_trailing_slashes_removes_all() {
    assert_eq!(trim_trailing_slashes("/a//"), "/a");
    assert_eq!(trim_trailing_slashes("/a"), "/a");
    assert_eq!(trim_trailing_slashes("///"), "");
    assert_eq!(trim_trailing_slashes(""), "");
}

#[test]
fn last_segment_takes_name() {
    assert_eq!(last_segment("/a/b/c"), "c");
    assert_eq!(last_segment("abc"), "abc");
    assert_eq!(last_segment("/x/"), "");
    assert_eq!(last_segment(""), "");
}

#[test]
fn join_entry_path_roots_and_nests() {
    assert_eq!(join_entry_path("", "x"), "/x");
    assert_eq!(join_entry_path("/", "x"), "/x");
    assert_eq!(join_entry_path("/docs", "x.txt"), "/docs/x.txt");
}

#[test]
fn path_join_inserts_separator() {
    assert_eq!(path_join("/cache", "a/b"), "/cache/a/b");
    assert_eq!(path_join("/cache/", "a"), "/cache/a");
    assert_eq!(path_join("/cache", ""), "/cache");
    assert_eq!(path_join("", "a"), "a");
}

#[test]
fn str_eq_compares_characters() {
    assert!(str_eq("abc", "abc"));
    assert!(!str_eq("abc", "abd"));
    assert!(!str_eq("abc", "abcd"));
    assert!(str_eq("", ""));
}

#[test]
fn parse_i64_accepts_decimal() {
    assert_eq!(parse_i64("123"), Some(123));
    assert_eq!(parse_i64("+42"), Some(42));
    assert_eq!(parse_i64("-17"), Some(-17));
    assert_eq!(parse_i64("007"), Some(7));
    assert_eq!(parse_i64("0"), Some(0));
}

#[test]
fn parse_i64_rejects_junk() {
    assert_eq!(parse_i64(""), None);
    assert_eq!(parse_i64("-"), None);
    assert_eq!(parse_i64("+"), None);
    assert_eq!(parse_i64("12a"), None);
    assert_eq!(parse_i64(" 12"), None);
    assert_eq!(parse_i64("1.5"), None);
}

#[test]
fn parse_i64_handles_bounds() {
    assert_eq!(parse_i64("9223372036854775807"), Some(i64::MAX));
    assert_eq!(parse_i64("9223372036854775808"), None);
    assert_eq!(parse_i64("-9223372036854775808"), Some(i64::MIN));
    assert_eq!(parse_i64("-9223372036854775809"), None);
    assert_eq!(parse_i64("99999999999999999999999999"), None);
}

#[test]
fn resolve_path_joins_under_base() {
    let fs = LocalFileSystem::new(String::from("/mnt/data"));
    assert_eq!(fs.resolve_path("/file.txt"), "/mnt/data/file.txt");
    assert_eq!(fs.resolve_path("sub/file.txt"), "/mnt/data/sub/file.txt");
    assert_eq!(fs.resolve_path("/"), "/mnt/data");
}

#[test]
fn local_list_entry_builds_paths() {
    let e = local_list_entry(String::from("notes.txt"), "/docs", false, true, 42, 1700000000);
    assert_eq!(e.name, "notes.txt");
    assert_eq!(e.path, "/docs/notes.txt");
    assert!(!e.is_dir);
    assert_eq!(e.size, Some(42));
    assert_eq!(e.modified_time, 1700000000);

    let d = local_list_entry(String::from("sub"), "/", true, false, 0, 5);
    assert_eq!(d.path, "/sub");
    assert!(d.is_dir);
    assert_eq!(d.size, None);
}

#[test]
fn local_metadata_entry_names_from_resolved_path() {
    let e = local_metadata_entry("/mnt/data/docs/notes.txt", "/docs/notes.txt", false, true, 7, 9)
        .unwrap();
    assert_eq!(e.name, "notes.txt");
    assert_eq!(e.path, "/docs/notes.txt");
    assert_eq!(e.size, Some(7));

    assert!(local_metadata_entry("///", "/", true, false, 0, 0).is_none());
}
