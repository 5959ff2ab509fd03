use rusttyobject::object::{
    build_config, config_path, is_config_file_name, is_ignored_dir, join_path, now_unix, object_entry,
    portable_path, read_config_path, seconds_or_zero, sorted_entries, to_hex, ObjectEntry,
};

#[test]
fn index_paths_join_like_path_join() {
    assert_eq!(config_path("/work/space"), "/work/space/config.rustyobject");
    assert_eq!(config_path("/work/space/"), "/work/space/config.rustyobject");
    assert_eq!(config_path(""), "config.rustyobject");
    assert_eq!(read_config_path("/w", true), "/w/config.rustyobject");
    assert_eq!(read_config_path("/w", false), "/w/.rustyobject");
    assert_eq!(join_path("a", "b"), "a/b");
}

#[test]
fn the_walk_skips_build_and_vcs_directories_but_not_the_workspace() {
    assert!(!is_ignored_dir("/w", "/w"));
    for name in [".git", "target", "node_modules", ".next", "dist"] {
        assert!(is_ignored_dir(&format!("/w/{name}"), "/w"));
        assert!(is_ignored_dir(&format!("/w/sub/{name}"), "/w"));
    }
    assert!(!is_ignored_dir("/w/src", "/w"));
    assert!(!is_ignored_dir("/w/distribution", "/w"));
    assert!(is_ignored_dir("/dist", "/w"));
}

#[test]
fn ignored_directories_are_judged_by_file_name() {
    assert!(is_ignored_dir("/w/.git/", "/w"));
    assert!(is_ignored_dir("/w/.git/.", "/w"));
    assert!(is_ignored_dir("/w//target//", "/w"));
    assert!(!is_ignored_dir("/w/.git/..", "/w"));
    assert!(!is_ignored_dir("/w/Target", "/w"));
    assert!(!is_ignored_dir("/", "/w"));
    assert!(!is_ignored_dir("/w/dist/", "/w/dist"));
    assert!(!is_ignored_dir("/w/./dist", "/w//dist/"));
    assert!(is_ignored_dir("w/dist", "/w/dist"));
    assert!(is_ignored_dir("./dist", "dist"));
    assert!(!is_ignored_dir("./dist", "./dist/"));
}

#[test]
fn index_files_are_not_indexed() {
    assert!(is_config_file_name("config.rustyobject"));
    assert!(is_config_file_name(".rustyobject"));
    assert!(!is_config_file_name("config.rustyobject.bak"));
}

#[test]
fn entries_hold_size_digest_and_type() {
    let e = object_entry("docs/a.txt".to_string(), b"abc");
    assert_eq!(e.path, "docs/a.txt");
    assert_eq!(e.size, 3);
    assert_eq!(e.sha256, "ba7816bf8f01cfea414140de5dae2223b00361a396177a9cb410ff61f20015ad");
    assert_eq!(e.content_type, "text/plain");
    let empty = object_entry("x.bin".to_string(), b"");
    assert_eq!(empty.sha256, "e3b0c44298fc1c149afbf4c8996fb92427ae41e4649b934ca495991b7852b855");
    assert_eq!(empty.content_type, "application/octet-stream");
}

#[test]
fn hex_is_lower_case_two_digits_per_byte() {
    assert_eq!(to_hex(&[0x0a, 0x14, 0x1e, 0xff, 0x00]), "0a141eff00");
    assert_eq!(to_hex(&[]), "");
}

#[test]
fn relative_paths_use_forward_slashes() {
    assert_eq!(portable_path("a\\b\\c.txt", '\\'), "a/b/c.txt");
    assert_eq!(portable_path("a/b", '/'), "a/b");
}

#[test]
fn entries_are_ordered_by_path() {
    let make = |p: &str| ObjectEntry {
        path: p.to_string(),
        size: 0,
        sha256: String::new(),
        content_type: String::new(),
    };
    let sorted = sorted_entries(vec![make("b"), make("a/z"), make("B"), make("a"), make("\u{e9}")]);
    let paths: Vec<&str> = sorted.iter().map(|e| e.path.as_str()).collect();
    assert_eq!(paths, vec!["B", "a", "a/z", "b", "\u{e9}"]);
}

#[test]
fn a_new_index_is_version_one_with_root_dot() {
    let before = now_unix();
    let mut config = build_config("o/r".to_string(), "main".to_string(), Vec::new());
    assert_eq!(config.version, 1);
    assert_eq!(config.repository, "o/r");
    assert_eq!(config.branch, "main");
    assert_eq!(config.root, ".");
    assert!(config.generated_at >= before);
    assert!(config.objects.is_empty());
    config.reindex(vec![object_entry("a".to_string(), b"x")]);
    assert_eq!(config.objects.len(), 1);
    assert_eq!(config.repository, "o/r");
    assert_eq!(config.branch, "main");
}

#[test]
fn clock_readings_become_time_stamps() {
    assert_eq!(seconds_or_zero(Ok(1_700_000_000)), 1_700_000_000);
    assert_eq!(seconds_or_zero(Ok(0)), 0);
    assert_eq!(seconds_or_zero(Err(())), 0);
}

#[test]
fn entries_with_the_same_path_keep_their_order() {
    let entry = |path: &str, size: u64| ObjectEntry {
        path: path.to_string(),
        size,
        sha256: String::new(),
        content_type: "text/plain".to_string(),
    };
    let sorted = sorted_entries(vec![entry("b", 1), entry("a", 2), entry("b", 3), entry("a", 4), entry("b", 5)]);
    let order: Vec<(&str, u64)> = sorted.iter().map(|e| (e.path.as_str(), e.size)).collect();
    assert_eq!(order, vec![("a", 2), ("a", 4), ("b", 1), ("b", 3), ("b", 5)]);
}
