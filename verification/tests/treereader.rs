use std::sync::mpsc::channel;
use std::time::{Duration, Instant};

use summer::summarizer::diskusage::{compute_disk_usage, DiskUsage};
use summer::summarizer::treereader::{
    fold_children, read_or_empty, same_file_system, time_left, Child, TreeInfo, TreeInfoJob,
};

#[test]
fn empty_directory_holds_nothing() {
    assert_eq!(fold_children(&vec![]), TreeInfo { disk_usage: 0, mtime: 0 });
    assert_eq!(fold_children(&vec![]), TreeInfo::default());
}

#[test]
fn unreadable_tree_holds_nothing() {
    assert_eq!(read_or_empty(None), TreeInfo::new(0, 0));
    assert_eq!(read_or_empty(Some(TreeInfo::new(3, 4))), TreeInfo::new(3, 4));
}

#[test]
fn tree_sums_sizes_and_takes_newest_mtime() {
    let children = vec![
        Child::File { len: 0, mtime: 30 },
        Child::File { len: 2000, mtime: 10 },
        Child::Tree(Some(TreeInfo::new(8, 50))),
        Child::Tree(None),
        Child::File { len: 1, mtime: 40 },
    ];
    assert_eq!(fold_children(&children), TreeInfo::new(2009, 50));
}

#[test]
fn tree_size_is_capped() {
    let children =
        vec![Child::File { len: u64::MAX, mtime: 1 }, Child::File { len: 5, mtime: 2 }];
    assert_eq!(fold_children(&children), TreeInfo::new(u64::MAX, 2));
}

#[test]
fn other_file_systems_are_not_entered() {
    assert!(same_file_system(Some(1), Some(1)));
    assert!(!same_file_system(Some(1), Some(2)));
    assert!(!same_file_system(Some(1), None));
    assert!(!same_file_system(None, Some(1)));
    assert!(same_file_system(None, None));
}

#[test]
fn job_returns_what_the_worker_sent() {
    let (tx, rx) = channel();
    tx.send(Some(TreeInfo::new(150, 7))).unwrap();
    let mut job = TreeInfoJob::new(None, rx);
    assert_eq!(job.peek(), None);
    assert_eq!(job.get(), Some(TreeInfo::new(150, 7)));
    assert_eq!(job.peek(), Some(Some(TreeInfo::new(150, 7))));
    // The result is cached.
    drop(tx);
    assert_eq!(job.get(), Some(TreeInfo::new(150, 7)));
}

#[test]
fn job_without_worker_is_unavailable() {
    let (tx, rx) = channel::<Option<TreeInfo>>();
    drop(tx);
    let mut job = TreeInfoJob::new(None, rx);
    assert_eq!(job.get(), None);
    assert_eq!(job.get(), None);
}

#[test]
fn deadline_of_zero_is_always_unavailable() {
    let (tx, rx) = channel();
    tx.send(Some(TreeInfo::new(150, 7))).unwrap();
    // A timeout of zero: the deadline is the start of the run.
    let mut job = TreeInfoJob::new(Some(Instant::now()), rx);
    assert_eq!(job.get(), None);
    assert_eq!(job.peek(), Some(None));
    assert_eq!(job.get(), None);
}

#[test]
fn no_time_left_is_unavailable_at_once() {
    let (tx, rx) = channel();
    tx.send(Some(TreeInfo::new(1, 1))).unwrap();
    let mut job = TreeInfoJob::new(None, rx);
    assert_eq!(job.settle(Some(Duration::from_secs(0))), None);
    assert_eq!(job.get(), None);
}

#[test]
fn job_waits_until_the_deadline() {
    let (tx, rx) = channel();
    tx.send(Some(TreeInfo::new(5, 6))).unwrap();
    let mut job = TreeInfoJob::new(Some(Instant::now() + Duration::from_secs(60)), rx);
    assert_eq!(job.get(), Some(TreeInfo::new(5, 6)));

    let (_tx, rx) = channel::<Option<TreeInfo>>();
    let mut late = TreeInfoJob::new(Some(Instant::now() + Duration::from_millis(20)), rx);
    assert_eq!(late.get(), None);
    assert_eq!(late.peek(), Some(None));
}

#[test]
fn done_job_is_settled() {
    let mut job = TreeInfoJob::done(Some(TreeInfo::new(1, 2)));
    assert_eq!(job.get(), Some(TreeInfo::new(1, 2)));
    let mut none = TreeInfoJob::done(None);
    assert_eq!(none.get(), None);
}

#[test]
fn disk_usage_returns_what_the_worker_sent() {
    let (tx, rx) = channel();
    tx.send(Some(2150u64)).unwrap();
    let mut usage = DiskUsage::new(None, rx);
    assert_eq!(usage.get(), Some(2150));
    assert_eq!(usage.get(), Some(2150));
}

#[test]
fn disk_usage_with_deadline_of_zero() {
    let (tx, rx) = channel();
    tx.send(Some(2150u64)).unwrap();
    let mut usage = DiskUsage::new(Some(Instant::now()), rx);
    assert_eq!(usage.get(), None);
    assert_eq!(usage.get(), None);
    assert_eq!(DiskUsage::done(Some(3)).get(), Some(3));
}

#[test]
fn disk_usage_is_the_sum_of_the_sizes() {
    assert_eq!(compute_disk_usage(&vec![]), 0);
    assert_eq!(compute_disk_usage(&vec![Some(0), Some(2000), None, Some(150)]), 2150);
    assert_eq!(compute_disk_usage(&vec![Some(u64::MAX), Some(1)]), u64::MAX);
}

#[test]
fn time_left_until_a_deadline() {
    assert_eq!(time_left(&None), None);
    assert_eq!(time_left(&Some(Instant::now())), Some(Duration::from_secs(0)));
    let left = time_left(&Some(Instant::now() + Duration::from_secs(60))).unwrap();
    assert!(left > Duration::from_secs(50));
    assert!(left <= Duration::from_secs(60));
}
