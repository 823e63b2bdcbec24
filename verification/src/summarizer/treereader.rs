//! Data read from directory trees in the background:
//!
//! * Disk usage.
//! * Newest modification time.
//!
//! The computed size is the length of the files, instead of the actual disk
//! usage (in blocks). This is similar to `du --apparent-size`.
//!
//! A tree is read by a worker, which delivers its result through a channel.
//! Results that are not there at the deadline are discarded.

use std::sync::mpsc::Receiver;
use std::time::{Duration, Instant};

use vstd::prelude::*;

verus! {

/// A point in time of the monotonic clock.
#[verifier::external_type_specification]
#[verifier::external_body]
pub struct ExInstant(std::time::Instant);

/// The receiving end of a channel.
#[verifier::external_type_specification]
#[verifier::external_body]
#[verifier::reject_recursive_types(T)]
pub struct ExReceiver<T>(std::sync::mpsc::Receiver<T>);

/// Why nothing was received before the time was over.
#[verifier::external_type_specification]
#[verifier::external_body]
pub struct ExRecvTimeoutError(std::sync::mpsc::RecvTimeoutError);

/// Why nothing will ever be received.
#[verifier::external_type_specification]
#[verifier::external_body]
pub struct ExRecvError(std::sync::mpsc::RecvError);

/// The length of a span of time, in nanoseconds.
pub uninterp spec fn span_nanos(span: Duration) -> u128;

/// The present time.
///
/// Trusted: this is `std::time::Instant::now`; nothing is claimed of it.
pub assume_specification[ std::time::Instant::now ]() -> Instant
;

/// The time from `earlier` to `instant`, or no time where `earlier` is the
/// later of the two.
///
/// Trusted: this is `std::time::Instant::saturating_duration_since`; nothing
/// is claimed of it.
pub assume_specification[ std::time::Instant::saturating_duration_since ](
    instant: &Instant,
    earlier: Instant,
) -> Duration
;

/// Trusted: this is `core::time::Duration::as_nanos`. The contract gives the
/// length of a span a name.
pub assume_specification[ core::time::Duration::as_nanos ](span: &Duration) -> (nanos: u128)
    ensures
        nanos == span_nanos(*span),
;

/// Waits for a value, for no longer than `timeout`.
///
/// Trusted: this is `std::sync::mpsc::Receiver::recv_timeout`; nothing is
/// claimed of what it returns, which depends on the sender and on the clock.
pub assume_specification<T>[ std::sync::mpsc::Receiver::<T>::recv_timeout ](
    receiver: &Receiver<T>,
    timeout: Duration,
) -> Result<T, std::sync::mpsc::RecvTimeoutError>
;

/// Waits for a value until the sender gives one or goes away.
///
/// Trusted: this is `std::sync::mpsc::Receiver::recv`; nothing is claimed of
/// what it returns, which depends on the sender.
pub assume_specification<T>[ std::sync::mpsc::Receiver::<T>::recv ](
    receiver: &Receiver<T>,
) -> Result<T, std::sync::mpsc::RecvError>
;

/// Results from reading a tree.
#[derive(Clone, Copy, Debug, PartialEq, Eq, Structural)]
pub struct TreeInfo {
    /// The sum of the sizes of the files of the tree.
    pub disk_usage: u64,
    /// The newest time of modification among the files of the tree.
    pub mtime: u64,
}

impl Default for TreeInfo {
    fn default() -> (info: TreeInfo)
        ensures
            info == (TreeInfo { disk_usage: 0, mtime: 0 }),
    {
        TreeInfo { disk_usage: 0, mtime: 0 }
    }
}

impl TreeInfo {
    /// What a tree of this size and this newest modification holds.
    pub fn new(disk_usage: u64, mtime: u64) -> (info: TreeInfo)
        ensures
            info == (TreeInfo { disk_usage, mtime }),
    {
        TreeInfo { disk_usage, mtime }
    }
}

/// What was read of a child of a directory.
#[derive(Clone, Copy, Debug, PartialEq, Eq, Structural)]
pub enum Child {
    /// Anything that is no directory, with its size and the time of its
    /// last modification.
    File { len: u64, mtime: u64 },
    /// A directory, with what was read of the tree below it: nothing where
    /// it could not be read or lies on another file system.
    Tree(Option<TreeInfo>),
}

/// The size that a child adds to its directory.
pub open spec fn child_size(child: Child) -> nat {
    match child {
        Child::File { len, mtime } => len as nat,
        Child::Tree(Some(info)) => info.disk_usage as nat,
        Child::Tree(None) => 0,
    }
}

/// The newest modification that a child knows of.
pub open spec fn child_mtime(child: Child) -> u64 {
    match child {
        Child::File { len, mtime } => mtime,
        Child::Tree(Some(info)) => info.mtime,
        Child::Tree(None) => 0,
    }
}

/// The sum of the sizes of the children.
pub open spec fn children_size(children: Seq<Child>) -> nat
    decreases children.len(),
{
    if children.len() == 0 {
        0
    } else {
        children_size(children.drop_last()) + child_size(children.last())
    }
}

/// The newest modification among the children, or zero where there are
/// none.
pub open spec fn children_mtime(children: Seq<Child>) -> u64
    decreases children.len(),
{
    if children.len() == 0 {
        0
    } else {
        let before = children_mtime(children.drop_last());
        if child_mtime(children.last()) > before {
            child_mtime(children.last())
        } else {
            before
        }
    }
}

/// What a directory holds, given what its children hold: the sum of their
/// sizes, held at `u64::MAX` where it does not fit, and the newest of their
/// modifications. A directory without children holds nothing.
pub open spec fn tree_of(children: Seq<Child>) -> TreeInfo {
    TreeInfo {
        disk_usage: if children_size(children) > u64::MAX {
            u64::MAX
        } else {
            children_size(children) as u64
        },
        mtime: children_mtime(children),
    }
}

/// Puts together what the children of a directory hold.
pub fn fold_children(children: &Vec<Child>) -> (info: TreeInfo)
    ensures
        info == tree_of(children@),
{
    let mut info = TreeInfo::new(0, 0);
    let mut i: usize = 0;
    assert(children@.take(0) =~= Seq::<Child>::empty());
    while i < children.len()
        invariant
            i <= children@.len(),
            info == tree_of(children@.take(i as int)),
        decreases children@.len() - i,
    {
        proof {
            let longer = children@.take(i + 1);
            assert(longer.drop_last() =~= children@.take(i as int));
            assert(longer.last() == children@[i as int]);
        }
        let (size, mtime) = match children[i] {
            Child::File { len, mtime } => (len, mtime),
            Child::Tree(Some(below)) => (below.disk_usage, below.mtime),
            Child::Tree(None) => (0, 0),
        };
        info = TreeInfo::new(
            info.disk_usage.saturating_add(size),
            if mtime > info.mtime {
                mtime
            } else {
                info.mtime
            },
        );
        i += 1;
    }
    assert(children@.take(i as int) =~= children@);
    info
}

/// Whether a directory is read as a part of the tree above it: it is where
/// it lies on the file system of its parent. A device that is unknown is
/// only the same as another that is unknown.
pub fn same_file_system(device: Option<u64>, parent_device: Option<u64>) -> (r: bool)
    ensures
        r == (device == parent_device),
{
    match (device, parent_device) {
        (Some(a), Some(b)) => a == b,
        (None, None) => true,
        _ => false,
    }
}

/// What a tree holds, given what was read of it: a tree that could not be
/// read holds nothing.
pub fn read_or_empty(read: Option<TreeInfo>) -> (info: TreeInfo)
    ensures
        info == match read {
            Some(found) => found,
            None => TreeInfo { disk_usage: 0, mtime: 0 },
        },
{
    match read {
        Some(found) => found,
        None => TreeInfo::new(0, 0),
    }
}

/// A directory without children holds nothing: its size and its newest
/// modification are zero.
pub proof fn lemma_empty_tree()
    ensures
        tree_of(Seq::empty()) == (TreeInfo { disk_usage: 0, mtime: 0 }),
{
}

/// The time that is left until a deadline: `None` where there is no
/// deadline, and no time where the deadline is over.
pub fn time_left(deadline: &Option<Instant>) -> (remaining: Option<Duration>)
    ensures
        remaining is Some <==> deadline is Some,
{
    match deadline {
        Some(deadline) => Some(deadline.saturating_duration_since(Instant::now())),
        None => None,
    }
}

/// The result of reading a tree, which may still be on its way.
pub struct TreeInfoJob(TreeInfoInner);

/// The state of a job.
pub enum TreeInfoInner {
    /// The worker may still be reading. The result is awaited until the
    /// deadline, if there is one.
    Working(Option<Instant>, Receiver<Option<TreeInfo>>),
    /// The result is known, or known to be unavailable.
    Done(Option<TreeInfo>),
}

impl TreeInfoJob {
    /// The result, once it is settled: `Some(None)` says that the result is
    /// unavailable for good.
    pub closed spec fn settled(&self) -> Option<Option<TreeInfo>> {
        match self.0 {
            TreeInfoInner::Working(_, _) => None,
            TreeInfoInner::Done(info) => Some(info),
        }
    }

    /// A job whose result will come through `receiver`, and is awaited until
    /// `deadline`.
    pub fn new(deadline: Option<Instant>, receiver: Receiver<Option<TreeInfo>>) -> (job:
        TreeInfoJob)
        ensures
            job.settled() is None,
            job.awaited() == Some((deadline, receiver)),
    {
        TreeInfoJob(TreeInfoInner::Working(deadline, receiver))
    }

    /// A job whose result is known.
    pub fn done(info: Option<TreeInfo>) -> (job: TreeInfoJob)
        ensures
            job.settled() == Some(info),
    {
        TreeInfoJob(TreeInfoInner::Done(info))
    }

    /// The result, if it is settled.
    pub fn peek(&self) -> (r: Option<Option<TreeInfo>>)
        ensures
            r == self.settled(),
    {
        match &self.0 {
            TreeInfoInner::Working(_, _) => None,
            TreeInfoInner::Done(info) => Some(*info),
        }
    }

    /// Settles the result, given the time that is left until the deadline
    /// (`None` where there is no deadline).
    ///
    /// A settled result stays what it is. A pending one is awaited for the
    /// time that is left, and is unavailable from then on if it did not
    /// come. With no time left it is unavailable at once: the channel is not
    /// even asked.
    pub fn settle(&mut self, remaining: Option<Duration>) -> (res: Option<TreeInfo>)
        ensures
            final(self).settled() == Some(res),
            old(self).settled() matches Some(info) ==> res == info,
            old(self).settled() is None && remaining is Some && span_nanos(remaining.unwrap()) == 0
                ==> res is None,
    {
        let res = match &self.0 {
            TreeInfoInner::Done(info) => {
                return *info;
            },
            TreeInfoInner::Working(_, receiver) => match remaining {
                Some(span) => {
                    if span.as_nanos() == 0 {
                        None
                    } else {
                        match receiver.recv_timeout(span) {
                            Ok(info) => info,
                            Err(_) => None,
                        }
                    }
                },
                None => match receiver.recv() {
                    Ok(info) => info,
                    Err(_) => None,
                },
            },
        };
        self.0 = TreeInfoInner::Done(res);
        res
    }

    /// Returns the data read by the worker.
    ///
    /// If the value is still unavailable, it will wait until the deadline.
    /// What is returned once is returned ever after.
    pub fn get(&mut self) -> (res: Option<TreeInfo>)
        ensures
            final(self).settled() == Some(res),
            old(self).settled() matches Some(info) ==> res == info,
    {
        let remaining = match &self.0 {
            TreeInfoInner::Working(deadline, _) => time_left(deadline),
            TreeInfoInner::Done(_) => None,
        };
        self.settle(remaining)
    }

    /// What a pending job is awaited with: the deadline until which its
    /// result is awaited, if there is one, and the channel through which the
    /// result comes. `None` once the result is settled.
    pub closed spec fn awaited(&self) -> Option<(Option<Instant>, Receiver<Option<TreeInfo>>)> {
        match self.0 {
            TreeInfoInner::Working(deadline, receiver) => Some((deadline, receiver)),
            TreeInfoInner::Done(_) => None,
        }
    }

    /// A job is awaited exactly as long as its result is not settled.
    pub proof fn lemma_awaited_until_settled(&self)
        ensures
            self.awaited() is Some <==> self.settled() is None,
    {
    }
}

} // verus!
