use summer::summarizer::exts::find_byte;
use std::sync::mpsc::channel;
use std::time::Duration;

use summer::summarizer::gitdiff::{
    await_changes, changes_received, collect, Change, Changes, ChangesParser,
};

#[test]
fn parse_git_diff() {
    let input = b"10\t0\tCHANGELOG.md\0\
                  14\t3\tREADME.md\0\
                  10\t1\t\0src/foo.rs\0src/bar.rs\0\
                  5\t7\t\0abc/x\0def/x\0\
                  -\t-\t\0imgs/foo.png\0images/foo.png\0\
                  1\t3\tsrc/main.rs\0";

    let changes = Changes::parse(input).unwrap();

    assert_eq!(changes.get(b"CHANGELOG.md"), Some(Change::new(10, 0)));
    assert_eq!(changes.get(b"README.md"), Some(Change::new(14, 3)));
    assert_eq!(changes.get(b"src"), Some(Change::new(11, 4)));
    assert_eq!(changes.get(b"abc"), Some(Change::new(0, 7)));
    assert_eq!(changes.get(b"def"), Some(Change::new(5, 0)));
    assert_eq!(changes.get(b"images"), Some(Change::new(0, 0)));
    assert_eq!(changes.get(b"imgs"), Some(Change::new(0, 0)));
}

#[test]
fn parse_single_record() {
    let changes = Changes::parse(b"10\t0\tCHANGELOG.md\0").unwrap();
    assert_eq!(changes.len(), 1);
    assert_eq!(changes.get(b"CHANGELOG.md"), Some(Change::new(10, 0)));
    assert_eq!(changes.get(b"README.md"), None);
}

#[test]
fn parse_empty_output() {
    let changes = Changes::parse(b"").unwrap();
    assert_eq!(changes.len(), 0);
    assert_eq!(changes.sum(), Change::new(0, 0));
}

#[test]
fn parse_binary_counts_as_zero() {
    let changes = Changes::parse(b"-\t-\tlogo.png\0").unwrap();
    assert_eq!(changes.get(b"logo.png"), Some(Change::new(0, 0)));
}

#[test]
fn parse_rename_within_one_directory() {
    let changes = Changes::parse(b"10\t1\t\0src/foo.rs\0src/bar.rs\0").unwrap();
    assert_eq!(changes.len(), 1);
    assert_eq!(changes.get(b"src"), Some(Change::new(10, 1)));
}

#[test]
fn parse_rename_across_directories() {
    let changes = Changes::parse(b"5\t7\t\0abc/x\0def/x\0").unwrap();
    assert_eq!(changes.get(b"abc"), Some(Change::new(0, 7)));
    assert_eq!(changes.get(b"def"), Some(Change::new(5, 0)));
}

#[test]
fn parse_accumulates_subdirectories() {
    let changes = Changes::parse(b"1\t2\tsrc/a/x.rs\0003\t4\tsrc/b/y.rs\0").unwrap();
    assert_eq!(changes.len(), 1);
    assert_eq!(changes.get(b"src"), Some(Change::new(4, 6)));
}

#[test]
fn parse_keeps_order_of_first_appearance() {
    let changes = Changes::parse(b"1\t0\tb\x001\t0\ta\x001\t0\tb/c\0").unwrap();
    assert_eq!(changes.entries[0].0, b"b".to_vec());
    assert_eq!(changes.entries[1].0, b"a".to_vec());
    assert_eq!(changes.get(b"b"), Some(Change::new(2, 0)));
}

#[test]
fn parse_accepts_plus_sign_and_leading_zeros() {
    let changes = Changes::parse(b"+7\t007\tfile\0").unwrap();
    assert_eq!(changes.get(b"file"), Some(Change::new(7, 7)));
}

#[test]
fn parse_rejects_malformed_input() {
    // A record that is cut short.
    assert!(Changes::parse(b"10\t0\tCHANGELOG.md").is_none());
    assert!(Changes::parse(b"10\t0").is_none());
    assert!(Changes::parse(b"10").is_none());
    // A rename without its second path.
    assert!(Changes::parse(b"1\t1\t\0old\0").is_none());
    // Counts that are no numbers.
    assert!(Changes::parse(b"x\t0\tfile\0").is_none());
    assert!(Changes::parse(b"1\t-1\tfile\0").is_none());
    assert!(Changes::parse(b"\t1\tfile\0").is_none());
    assert!(Changes::parse(b"+\t1\tfile\0").is_none());
    assert!(Changes::parse(b"1 \t1\tfile\0").is_none());
    assert!(Changes::parse(b"--\t1\tfile\0").is_none());
    // A count that does not fit in 32 bits.
    assert!(Changes::parse(b"4294967296\t1\tfile\0").is_none());
    // A good record followed by a bad one gives nothing at all.
    assert!(Changes::parse(b"1\t1\tgood\0bad").is_none());
}

#[test]
fn parse_largest_count() {
    let changes = Changes::parse(b"4294967295\t0\tfile\0").unwrap();
    assert_eq!(changes.get(b"file"), Some(Change::new(4294967295, 0)));
}

#[test]
fn counts_are_capped() {
    let changes = Changes::parse(b"4294967295\t1\ta/x\x001\t1\ta/y\0").unwrap();
    assert_eq!(changes.get(b"a"), Some(Change::new(u32::MAX, 2)));
}

#[test]
fn add_attributes_counts() {
    let mut changes = Changes::new();
    changes.add(b"src".to_vec(), 1, 2);
    changes.add(b"doc".to_vec(), 3, 4);
    changes.add(b"src".to_vec(), 5, 6);
    assert_eq!(changes.len(), 2);
    assert_eq!(changes.get(b"src"), Some(Change::new(6, 8)));
    assert_eq!(changes.get(b"doc"), Some(Change::new(3, 4)));
    assert_eq!(changes.sum(), Change::new(9, 12));
}

#[test]
fn collect_reads_successful_output() {
    let changes = collect(true, b"1\t2\tfile\0");
    assert_eq!(changes.get(b"file"), Some(Change::new(1, 2)));
}

#[test]
fn collect_gives_nothing_on_failure() {
    assert_eq!(collect(false, b"1\t2\tfile\0").len(), 0);
    assert_eq!(collect(true, b"garbage").len(), 0);
}

#[test]
fn find_byte_finds_the_first() {
    assert_eq!(find_byte(b"a\tb\tc", 0, b'\t'), Some(1));
    assert_eq!(find_byte(b"a\tb\tc", 2, b'\t'), Some(3));
    assert_eq!(find_byte(b"a\tb\tc", 4, b'\t'), None);
    assert_eq!(find_byte(b"", 0, b'\t'), None);
}

#[test]
fn changes_are_awaited_until_the_deadline() {
    let (tx, rx) = channel();
    tx.send(collect(true, b"1\t2\tfile\0")).unwrap();
    let changes = await_changes(&rx, Some(Duration::from_secs(60))).unwrap();
    assert_eq!(changes.get(b"file"), Some(Change::new(1, 2)));

    // Nothing more comes in time.
    assert!(await_changes(&rx, Some(Duration::from_millis(10))).is_none());

    // Without a deadline, the changes are awaited until the worker is gone.
    tx.send(Changes::new()).unwrap();
    assert_eq!(await_changes(&rx, None).unwrap().len(), 0);
    drop(tx);
    assert!(await_changes(&rx, None).is_none());
}

#[test]
fn changes_are_unavailable_with_no_time_left() {
    let (tx, rx) = channel();
    tx.send(Changes::new()).unwrap();
    assert!(await_changes(&rx, Some(Duration::from_secs(0))).is_none());
}

#[test]
fn received_changes_are_available() {
    let outcome: Result<Changes, ()> = Ok(collect(true, b"3\t4\tfile\0"));
    let changes = changes_received(outcome).unwrap();
    assert_eq!(changes.get(b"file"), Some(Change::new(3, 4)));

    let failed: Result<Changes, &str> = Err("timed out");
    assert!(changes_received(failed).is_none());
}
