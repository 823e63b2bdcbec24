//! The disk usage of a directory tree, computed in the background.
//!
//! The computed size is the length of the files, instead of the actual disk
//! usage (in blocks). This is similar to `du --apparent-size`.
//!
//! A tree is measured by a worker, which delivers its result through a
//! channel. Results that are not there at the deadline are discarded.

use std::sync::mpsc::Receiver;
use std::time::{Duration, Instant};

use vstd::prelude::*;

use crate::summarizer::treereader::{span_nanos, time_left};

verus! {

/// Results of the disk usage computation.
pub struct DiskUsage(DiskUsageInner);

/// The state of a computation.
pub enum DiskUsageInner {
    /// The worker may still be measuring. The result is awaited until the
    /// deadline, if there is one.
    Working(Option<Instant>, Receiver<Option<u64>>),
    /// The result is known, or known to be unavailable.
    Done(Option<u64>),
}

/// The sum of the sizes, held at `u64::MAX` where it does not fit. A size
/// that is unknown adds nothing.
pub open spec fn sizes_sum(sizes: Seq<Option<u64>>) -> nat
    decreases sizes.len(),
{
    if sizes.len() == 0 {
        0
    } else {
        sizes_sum(sizes.drop_last()) + match sizes.last() {
            Some(size) => size as nat,
            None => 0nat,
        }
    }
}

/// The disk usage of a directory, given the sizes of its children.
pub fn compute_disk_usage(sizes: &Vec<Option<u64>>) -> (bytes: u64)
    ensures
        bytes == if sizes_sum(sizes@) > u64::MAX {
            u64::MAX
        } else {
            sizes_sum(sizes@) as u64
        },
{
    let mut bytes: u64 = 0;
    let mut i: usize = 0;
    assert(sizes@.take(0) =~= Seq::<Option<u64>>::empty());
    while i < sizes.len()
        invariant
            i <= sizes@.len(),
            bytes == if sizes_sum(sizes@.take(i as int)) > u64::MAX {
                u64::MAX
            } else {
                sizes_sum(sizes@.take(i as int)) as u64
            },
        decreases sizes@.len() - i,
    {
        proof {
            let longer = sizes@.take(i + 1);
            assert(longer.drop_last() =~= sizes@.take(i as int));
            assert(longer.last() == sizes@[i as int]);
        }
        match sizes[i] {
            Some(size) => {
                bytes = bytes.saturating_add(size);
            },
            None => {},
        }
        i += 1;
    }
    assert(sizes@.take(i as int) =~= sizes@);
    bytes
}

impl DiskUsage {
    /// The result, once it is settled: `Some(None)` says that the result is
    /// unavailable for good.
    pub closed spec fn settled(&self) -> Option<Option<u64>> {
        match self.0 {
            DiskUsageInner::Working(_, _) => None,
            DiskUsageInner::Done(bytes) => Some(bytes),
        }
    }

    /// A result that will come through `receiver`, and is awaited until
    /// `deadline`.
    pub fn new(deadline: Option<Instant>, receiver: Receiver<Option<u64>>) -> (usage: DiskUsage)
        ensures
            usage.settled() is None,
            usage.awaited() == Some((deadline, receiver)),
    {
        DiskUsage(DiskUsageInner::Working(deadline, receiver))
    }

    /// A result that is known.
    pub fn done(bytes: Option<u64>) -> (usage: DiskUsage)
        ensures
            usage.settled() == Some(bytes),
    {
        DiskUsage(DiskUsageInner::Done(bytes))
    }

    /// Settles the result, given the time that is left until the deadline
    /// (`None` where there is no deadline).
    ///
    /// A settled result stays what it is. A pending one is awaited for the
    /// time that is left, and is unavailable from then on if it did not
    /// come. With no time left it is unavailable at once.
    pub fn settle(&mut self, remaining: Option<Duration>) -> (res: Option<u64>)
        ensures
            final(self).settled() == Some(res),
            old(self).settled() matches Some(bytes) ==> res == bytes,
            old(self).settled() is None && remaining is Some && span_nanos(remaining.unwrap()) == 0
                ==> res is None,
    {
        let res = match &self.0 {
            DiskUsageInner::Done(bytes) => {
                return *bytes;
            },
            DiskUsageInner::Working(_, receiver) => match remaining {
                Some(span) => {
                    if span.as_nanos() == 0 {
                        None
                    } else {
                        match receiver.recv_timeout(span) {
                            Ok(bytes) => bytes,
                            Err(_) => None,
                        }
                    }
                },
                None => match receiver.recv() {
                    Ok(bytes) => bytes,
                    Err(_) => None,
                },
            },
        };
        self.0 = DiskUsageInner::Done(res);
        res
    }

    /// Returns the disk usage computed by the worker.
    ///
    /// If the value is still unavailable, it will wait until the deadline.
    /// What is returned once is returned ever after.
    pub fn get(&mut self) -> (res: Option<u64>)
        ensures
            final(self).settled() == Some(res),
            old(self).settled() matches Some(bytes) ==> res == bytes,
    {
        let remaining = match &self.0 {
            DiskUsageInner::Working(deadline, _) => time_left(deadline),
            DiskUsageInner::Done(_) => None,
        };
        self.settle(remaining)
    }

    /// What a pending result is awaited with: the deadline until which it is
    /// awaited, if there is one, and the channel through which it comes.
    /// `None` once the result is settled.
    pub closed spec fn awaited(&self) -> Option<(Option<Instant>, Receiver<Option<u64>>)> {
        match self.0 {
            DiskUsageInner::Working(deadline, receiver) => Some((deadline, receiver)),
            DiskUsageInner::Done(_) => None,
        }
    }

    /// A result is awaited exactly as long as it is not settled.
    pub proof fn lemma_awaited_until_settled(&self)
        ensures
            self.awaited() is Some <==> self.settled() is None,
    {
    }
}

} // verus!
