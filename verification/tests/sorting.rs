use std::cmp::Ordering;

use summer::summarizer::sorting::compare_versions;

fn check(a: &str, b: &str, expected: Ordering) {
    assert_eq!(compare_versions(a.as_bytes(), b.as_bytes()), expected);
}

#[test]
fn check_compare_versions() {
    check("aaa", "bbb", Ordering::Less);
    check("aaa100", "aaa2", Ordering::Greater);
    check("aaa", "aaa0", Ordering::Less);
    check("aaa10", "aaa9", Ordering::Greater);
    check("aaa", "aaa", Ordering::Equal);
    check("aaa9", "aaaa1", Ordering::Less);
    check("aaa100", "aaa10z", Ordering::Greater);
    check("aaa10000000000000", "aaa10000000000001", Ordering::Less);
    check("aaa90000", "aaa1000000000000000000000", Ordering::Greater);
}

use summer::config::{Column, SortKey, SortOrder, SortSpec};
use summer::summarizer::gitdiff::Change;
use summer::summarizer::sorting::{compare_bytes, sort, sort_files, version_order_of};
use summer::summarizer::treereader::{TreeInfo, TreeInfoJob};
use summer::summarizer::{Entry, File, FileKind, FilesGroup, Metadata, Order};

fn file(name: &str, kind: FileKind, len: u64, mtime: u64) -> File {
    File {
        entry: Entry {
            file_name: name.as_bytes().to_vec(),
            metadata: Metadata { kind, mode: 0o644, len, mtime, modified: None },
            mime_type: None,
            ls_style: None,
        },
        git_changes: None,
        tree_info: None,
    }
}

fn dir(name: &str, disk_usage: u64, mtime: u64) -> File {
    let mut f = file(name, FileKind::Directory, 4096, 1);
    f.tree_info = Some(TreeInfoJob::done(Some(TreeInfo::new(disk_usage, mtime))));
    f
}

fn column(sort: Option<SortSpec>, git_changes_first: bool) -> Column {
    Column {
        include_hidden: true,
        label: None,
        max_name_width: None,
        matchers: vec![summer::config::Matcher::Any],
        exclude: vec![],
        git_changes_first,
        color: None,
        sort,
    }
}

fn names(files: &[File]) -> Vec<String> {
    files.iter().map(|f| String::from_utf8_lossy(&f.entry.file_name).into_owned()).collect()
}

#[test]
fn identical_names_are_equal_versions() {
    check("", "", Ordering::Equal);
    check("a1b2", "a1b2", Ordering::Equal);
    check("123456789012345678901234567890", "123456789012345678901234567890", Ordering::Equal);
}

#[test]
fn version_overflow_falls_back_to_bytes() {
    // Both numbers are too large for 64 bits: the names are compared byte by byte.
    check("v99999999999999999999999", "v100000000000000000000000", Ordering::Greater);
    check("v18446744073709551616", "v2", Ordering::Less);
    // The largest number that fits is still compared as a number.
    check("v18446744073709551615", "v2", Ordering::Greater);
}

#[test]
fn version_ties_compare_only_the_runs() {
    // Leading zeros do not change the number, and what follows the runs is not looked at.
    check("a1b2", "a01c3", Ordering::Equal);
    check("a007", "a7", Ordering::Equal);
}

#[test]
fn version_digit_against_letter() {
    check("a1", "ab", Ordering::Less);
    check("ab", "a1", Ordering::Greater);
}

#[test]
fn version_order_matches_compare_versions() {
    assert_eq!(version_order_of(b"aaa100", b"aaa2"), Order::Greater);
    assert_eq!(version_order_of(b"aaa", b"aaa0"), Order::Less);
}

#[test]
fn bytes_are_compared_lexicographically() {
    assert_eq!(compare_bytes(b"abc", b"abd"), Order::Less);
    assert_eq!(compare_bytes(b"abc", b"ab"), Order::Greater);
    assert_eq!(compare_bytes(b"abc", b"abc"), Order::Equal);
    assert_eq!(compare_bytes(b"", b"a"), Order::Less);
    assert_eq!(compare_bytes(b"\xff", b"a"), Order::Greater);
}

#[test]
fn sort_by_size_descending_uses_tree_sizes() {
    // `src` holds a (0 bytes) and b (2000 bytes); `target` holds c (100) and d (50).
    let col = column(Some(SortSpec(SortKey::Size, SortOrder::Desc)), true);
    let mut group = FilesGroup {
        column: &col,
        files: vec![dir("target", 150, 10), dir("src", 2000, 20)],
    };
    sort(&mut group);
    assert_eq!(names(&group.files), vec!["src", "target"]);
}

#[test]
fn sort_by_size_falls_back_to_the_own_size() {
    let col = column(Some(SortSpec(SortKey::Size, SortOrder::Asc)), false);
    let mut unavailable = file("timed_out", FileKind::Directory, 300, 1);
    unavailable.tree_info = Some(TreeInfoJob::done(None));
    let mut group = FilesGroup {
        column: &col,
        files: vec![
            dir("big", 5000, 1),
            file("plain", FileKind::File, 1000, 1),
            unavailable,
            dir("small", 10, 1),
        ],
    };
    sort(&mut group);
    assert_eq!(names(&group.files), vec!["small", "timed_out", "plain", "big"]);
}

#[test]
fn sort_defaults_to_name_ascending() {
    let col = column(None, false);
    let mut group = FilesGroup {
        column: &col,
        files: vec![
            file("b", FileKind::File, 1, 1),
            file("a10", FileKind::File, 1, 1),
            file("a9", FileKind::File, 1, 1),
            file("B", FileKind::File, 1, 1),
        ],
    };
    sort(&mut group);
    assert_eq!(names(&group.files), vec!["B", "a10", "a9", "b"]);
}

#[test]
fn sort_by_version() {
    let col = column(Some(SortSpec(SortKey::Version, SortOrder::Asc)), false);
    let mut group = FilesGroup {
        column: &col,
        files: vec![
            file("v10", FileKind::File, 1, 1),
            file("v9", FileKind::File, 1, 1),
            file("v1", FileKind::File, 1, 1),
        ],
    };
    sort(&mut group);
    assert_eq!(names(&group.files), vec!["v1", "v9", "v10"]);
}

#[test]
fn sort_by_mtime_breaks_ties_by_name() {
    let col = column(Some(SortSpec(SortKey::ModificationTime, SortOrder::Asc)), false);
    let mut group = FilesGroup {
        column: &col,
        files: vec![
            file("c", FileKind::File, 1, 20),
            file("b", FileKind::File, 1, 10),
            file("a", FileKind::File, 1, 20),
        ],
    };
    sort(&mut group);
    assert_eq!(names(&group.files), vec!["b", "a", "c"]);
}

#[test]
fn sort_by_deep_mtime() {
    let col = column(Some(SortSpec(SortKey::DeepModificationTime, SortOrder::Desc)), false);
    let mut group = FilesGroup {
        column: &col,
        files: vec![
            dir("old_dir_new_file", 1, 300),
            file("file", FileKind::File, 1, 200),
            dir("dir", 1, 100),
        ],
    };
    sort(&mut group);
    assert_eq!(names(&group.files), vec!["old_dir_new_file", "file", "dir"]);
}

#[test]
fn changed_files_come_first_in_both_directions() {
    let mut files = vec![
        file("a", FileKind::File, 1, 1),
        file("b", FileKind::File, 1, 1),
        file("c", FileKind::File, 1, 1),
        file("d", FileKind::File, 1, 1),
    ];
    files[1].git_changes = Some(Change::new(1, 0));
    files[3].git_changes = Some(Change::new(0, 1));
    sort_files(&mut files, SortKey::Name, SortOrder::Asc, true);
    assert_eq!(names(&files), vec!["b", "d", "a", "c"]);
    sort_files(&mut files, SortKey::Name, SortOrder::Desc, true);
    assert_eq!(names(&files), vec!["d", "b", "c", "a"]);
    sort_files(&mut files, SortKey::Name, SortOrder::Desc, false);
    assert_eq!(names(&files), vec!["d", "c", "b", "a"]);
}

#[test]
fn sort_is_stable() {
    // The names are equal as versions: the files keep their order.
    let mut files = vec![
        file("a01", FileKind::File, 1, 1),
        file("a1", FileKind::File, 2, 1),
        file("a001", FileKind::File, 3, 1),
        file("a0", FileKind::File, 4, 1),
    ];
    sort_files(&mut files, SortKey::Version, SortOrder::Asc, false);
    assert_eq!(names(&files), vec!["a0", "a01", "a1", "a001"]);
    sort_files(&mut files, SortKey::Version, SortOrder::Desc, false);
    assert_eq!(names(&files), vec!["a01", "a1", "a001", "a0"]);
}

#[test]
fn sort_keeps_every_file() {
    let mut files: Vec<File> =
        (0..50u64).map(|i| file(&format!("f{}", (i * 37) % 50), FileKind::File, i, i)).collect();
    sort_files(&mut files, SortKey::Version, SortOrder::Asc, false);
    let expected: Vec<String> = (0..50).map(|i| format!("f{}", i)).collect();
    assert_eq!(names(&files), expected);
}

#[test]
fn sort_waits_for_trees() {
    let (tx, rx) = std::sync::mpsc::channel();
    tx.send(Some(TreeInfo::new(9000, 1))).unwrap();
    let mut pending = file("pending", FileKind::Directory, 1, 1);
    pending.tree_info = Some(TreeInfoJob::new(None, rx));
    let col = column(Some(SortSpec(SortKey::Size, SortOrder::Asc)), false);
    let mut group = FilesGroup { column: &col, files: vec![pending, dir("known", 100, 1)] };
    sort(&mut group);
    assert_eq!(names(&group.files), vec!["known", "pending"]);
    assert_eq!(
        group.files[1].tree_info.as_ref().unwrap().peek(),
        Some(Some(TreeInfo::new(9000, 1)))
    );
}

#[test]
fn trees_only_count_for_directories() {
    let mut odd = file("odd", FileKind::File, 5, 5);
    odd.tree_info = Some(TreeInfoJob::done(Some(TreeInfo::new(9999, 9999))));
    let mut files = vec![odd, file("plain", FileKind::File, 7, 7), dir("dir", 6, 6)];
    sort_files(&mut files, SortKey::Size, SortOrder::Asc, false);
    assert_eq!(names(&files), vec!["odd", "dir", "plain"]);
    sort_files(&mut files, SortKey::DeepModificationTime, SortOrder::Asc, false);
    assert_eq!(names(&files), vec!["odd", "dir", "plain"]);
}
