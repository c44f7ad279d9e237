use audio_files::listing::{entry_before, name_precedes, sort_entries, sorted_names};
use audio_files::{FsError, PathFault};

fn entry(name: &str, is_dir: bool) -> (String, bool) {
    (String::from(name), is_dir)
}

#[test]
fn sort_folders_before_files() {
    let children = vec![
        entry("/tmp/folder/a", false),
        entry("/tmp/folder/c", true),
        entry("/tmp/folder/b", true),
        entry("/tmp/folder/d", false),
    ];
    let expected = vec![
        (String::from("b"), true),
        (String::from("c"), true),
        (String::from("a"), false),
        (String::from("d"), false),
    ];
    let actual = sorted_names(&children).unwrap();
    assert_eq!(actual, expected);
}

#[test]
fn sort_entries_mixed_example() {
    let entries = vec![entry("a", false), entry("c", true), entry("b", true), entry("d", false)];
    let expected = vec![entry("b", true), entry("c", true), entry("a", false), entry("d", false)];
    assert_eq!(sort_entries(entries), expected);
}

#[test]
fn sort_entries_ignores_scan_order() {
    let first = vec![entry("d", false), entry("b", true), entry("a", false), entry("c", true)];
    let second = vec![entry("c", true), entry("a", false), entry("d", false), entry("b", true)];
    assert_eq!(sort_entries(first), sort_entries(second));
}

#[test]
fn sort_entries_empty() {
    assert_eq!(sort_entries(vec![]), vec![]);
}

#[test]
fn sort_entries_is_case_sensitive_code_point_order() {
    let entries = vec![entry("b", false), entry("B", false), entry("a", false), entry("A", false)];
    let expected = vec![entry("A", false), entry("B", false), entry("a", false), entry("b", false)];
    assert_eq!(sort_entries(entries), expected);
}

#[test]
fn sort_entries_prefix_first_and_non_ascii_last() {
    let entries = vec![entry("\u{e9}t\u{e9}", true), entry("abc", true), entry("ab", true), entry("z", true)];
    let expected = vec![entry("ab", true), entry("abc", true), entry("z", true), entry("\u{e9}t\u{e9}", true)];
    assert_eq!(sort_entries(entries), expected);
}

#[test]
fn sort_entries_keeps_equal_entries() {
    let entries = vec![entry("x", false), entry("x", true), entry("x", false)];
    let expected = vec![entry("x", true), entry("x", false), entry("x", false)];
    assert_eq!(sort_entries(entries), expected);
}

#[test]
fn sorted_names_directories_first_each_group_by_name() {
    let children = vec![
        entry("music/zeta.wav", false),
        entry("music/Beta", true),
        entry("music/alpha.flac", false),
        entry("music/alpha", true),
        entry("music/Gamma.ogg", false),
    ];
    let actual = sorted_names(&children).unwrap();
    let expected = vec![
        entry("Beta", true),
        entry("alpha", true),
        entry("Gamma.ogg", false),
        entry("alpha.flac", false),
        entry("zeta.wav", false),
    ];
    assert_eq!(actual, expected);
    let first_file = actual.iter().position(|e| !e.1).unwrap();
    assert!(actual[first_file..].iter().all(|e| !e.1));
}

#[test]
fn sorted_names_empty_directory() {
    assert_eq!(sorted_names(&vec![]), Ok(vec![]));
}

#[test]
fn sorted_names_stops_at_first_child_without_name() {
    let children = vec![entry("dir/a", false), entry("dir/..", true), entry("/", true)];
    assert_eq!(sorted_names(&children), Err(FsError::InvalidPath(String::from("dir/.."), PathFault::NoFinalComponent)));
}

#[test]
fn name_precedes_examples() {
    let a = String::from("a");
    let ab = String::from("ab");
    let b = String::from("b");
    let upper = String::from("Z");
    assert!(name_precedes(&a, &ab));
    assert!(!name_precedes(&ab, &a));
    assert!(name_precedes(&ab, &b));
    assert!(name_precedes(&upper, &a));
    assert!(!name_precedes(&a, &a));
}

#[test]
fn entry_before_examples() {
    assert!(entry_before(&entry("z", true), &entry("a", false)));
    assert!(!entry_before(&entry("a", false), &entry("z", true)));
    assert!(entry_before(&entry("a", false), &entry("b", false)));
    assert!(!entry_before(&entry("b", true), &entry("a", true)));
    assert!(!entry_before(&entry("a", true), &entry("a", true)));
}
