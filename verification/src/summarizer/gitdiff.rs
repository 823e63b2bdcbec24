//! Change stats of a repository, read from the output of
//!
//! ```notrust
//! $ git diff --numstat --relative -z HEAD .
//! ```
//!
//! Every record of that output is attributed to the top-level entry of the
//! directory that contains the changed path.

use std::sync::mpsc::Receiver;
use std::time::Duration;

use vstd::prelude::*;

use crate::summarizer::treereader::span_nanos;
use crate::summarizer::exts::{
    bytes_eq, copy_range, decimal_number, find_byte, parse_decimal, DASH, NUL, SLASH, TAB,
};

verus! {

/// Stats about insertions and deletions for a single path in the repository.
#[derive(Copy, Clone, Debug, PartialEq, Eq, Structural)]
pub struct Change {
    pub insertions: u32,
    pub deletions: u32,
}

impl Change {
    /// The change of so many inserted and deleted lines.
    pub fn new(insertions: u32, deletions: u32) -> (change: Change)
        ensures
            change.insertions == insertions,
            change.deletions == deletions,
    {
        Change { insertions, deletions }
    }
}

/// The sum of two counts, held at `u32::MAX` where it does not fit.
pub open spec fn capped_sum(a: u32, b: u32) -> u32 {
    if a + b > u32::MAX {
        u32::MAX
    } else {
        (a + b) as u32
    }
}

/// Position of `name` among the entries, if it is there.
pub open spec fn position_of(entries: Seq<(Seq<u8>, Change)>, name: Seq<u8>) -> Option<int>
    decreases entries.len(),
{
    if entries.len() == 0 {
        None
    } else if entries[0].0 == name {
        Some(0)
    } else {
        match position_of(entries.skip(1), name) {
            Some(i) => Some(i + 1),
            None => None,
        }
    }
}

/// The stats attributed to `name`, if any record was attributed to it.
pub open spec fn lookup(entries: Seq<(Seq<u8>, Change)>, name: Seq<u8>) -> Option<Change> {
    match position_of(entries, name) {
        Some(i) => Some(entries[i].1),
        None => None,
    }
}

/// No name occurs twice among the entries.
pub open spec fn distinct_names(entries: Seq<(Seq<u8>, Change)>) -> bool {
    forall|i: int, j: int|
        0 <= i < j < entries.len() ==> (#[trigger] entries[i]).0 != (#[trigger] entries[j]).0
}

/// The entries after `insertions` and `deletions` are attributed to `name`:
/// the counts are added to the entry of that name, or a new entry is appended.
pub open spec fn attribute(
    entries: Seq<(Seq<u8>, Change)>,
    name: Seq<u8>,
    insertions: u32,
    deletions: u32,
) -> Seq<(Seq<u8>, Change)> {
    match position_of(entries, name) {
        Some(i) => entries.update(
            i,
            (
                name,
                Change {
                    insertions: capped_sum(entries[i].1.insertions, insertions),
                    deletions: capped_sum(entries[i].1.deletions, deletions),
                },
            ),
        ),
        None => entries.push((name, Change { insertions, deletions })),
    }
}

/// The first component of a path: everything before the first `/`.
pub open spec fn top_level(path: Seq<u8>) -> Seq<u8> {
    match path.index_of_first(SLASH) {
        Some(i) => path.take(i),
        None => path,
    }
}

/// A count field: `-` stands for zero (a binary file); anything else is a
/// decimal number, with an optional `+` in front, that fits in 32 bits.
pub open spec fn parse_count(token: Seq<u8>) -> Option<u32> {
    if token =~= seq![DASH] {
        Some(0)
    } else {
        match decimal_number(token, u32::MAX as u64) {
            Some(n) => Some(n as u32),
            None => None,
        }
    }
}

/// The input split at the first `delim`: what stands before it, and what
/// stands after it.
pub open spec fn split_field(input: Seq<u8>, delim: u8) -> Option<(Seq<u8>, Seq<u8>)> {
    match input.index_of_first(delim) {
        Some(i) => Some((input.take(i), input.skip(i + 1))),
        None => None,
    }
}

/// One record read from the start of `input` and attributed in `entries`.
/// Gives the entries after the record and the input that follows it, or
/// `None` where the record is malformed.
pub open spec fn parse_record(input: Seq<u8>, entries: Seq<(Seq<u8>, Change)>) -> Option<
    (Seq<(Seq<u8>, Change)>, Seq<u8>),
> {
    match split_field(input, TAB) {
        None => None,
        Some((ins_token, after_ins)) => match split_field(after_ins, TAB) {
            None => None,
            Some((del_token, after_del)) => match (parse_count(ins_token), parse_count(del_token)) {
                (Some(insertions), Some(deletions)) => {
                    if after_del.len() > 0 && after_del[0] == NUL {
                        // A rename: `NUL old NUL new NUL`.
                        match split_field(after_del.skip(1), NUL) {
                            None => None,
                            Some((old_path, after_old)) => match split_field(after_old, NUL) {
                                None => None,
                                Some((new_path, rest)) => Some(
                                    (
                                        attribute(
                                            attribute(entries, top_level(old_path), 0, deletions),
                                            top_level(new_path),
                                            insertions,
                                            0,
                                        ),
                                        rest,
                                    ),
                                ),
                            },
                        }
                    } else {
                        match split_field(after_del, NUL) {
                            None => None,
                            Some((path, rest)) => Some(
                                (attribute(entries, top_level(path), insertions, deletions), rest),
                            ),
                        }
                    }
                },
                _ => None,
            },
        },
    }
}

/// What follows a field is shorter than the input that holds the field.
pub proof fn lemma_field_consumes(input: Seq<u8>, delim: u8)
    ensures
        split_field(input, delim) matches Some((token, rest)) ==> token.len() + rest.len() + 1
            == input.len(),
{
    input.index_of_first_ensures(delim);
}

/// What follows a record is shorter than the input that holds the record.
pub proof fn lemma_record_consumes(input: Seq<u8>, entries: Seq<(Seq<u8>, Change)>)
    ensures
        parse_record(input, entries) matches Some((next, rest)) ==> rest.len() < input.len(),
{
    lemma_field_consumes(input, TAB);
    if let Some((ins_token, after_ins)) = split_field(input, TAB) {
        lemma_field_consumes(after_ins, TAB);
        if let Some((del_token, after_del)) = split_field(after_ins, TAB) {
            lemma_field_consumes(after_del, NUL);
            if after_del.len() > 0 {
                lemma_field_consumes(after_del.skip(1), NUL);
                if let Some((old_path, after_old)) = split_field(after_del.skip(1), NUL) {
                    lemma_field_consumes(after_old, NUL);
                }
            }
        }
    }
}

/// All the records of `input`, attributed one after the other in `entries`.
/// `None` where any record is malformed.
pub open spec fn parse_records(input: Seq<u8>, entries: Seq<(Seq<u8>, Change)>) -> Option<
    Seq<(Seq<u8>, Change)>,
>
    decreases input.len(),
{
    if input.len() == 0 {
        Some(entries)
    } else {
        match parse_record(input, entries) {
            None => None,
            Some((next, rest)) => {
                proof {
                    lemma_record_consumes(input, entries);
                }
                parse_records(rest, next)
            },
        }
    }
}

/// What the output of `git diff --numstat -z` says: for each top-level name,
/// in the order in which the names first appear, the changes below it.
pub open spec fn parse_numstat(input: Seq<u8>) -> Option<Seq<(Seq<u8>, Change)>> {
    parse_records(input, Seq::empty())
}


/// Stats of the changes below each top-level name, in the order in which
/// the names first appeared. No name occurs twice.
pub struct Changes {
    pub entries: Vec<(Vec<u8>, Change)>,
}

impl View for Changes {
    type V = Seq<(Seq<u8>, Change)>;

    open spec fn view(&self) -> Seq<(Seq<u8>, Change)> {
        Seq::new(self.entries@.len(), |i: int| (self.entries@[i].0@, self.entries@[i].1))
    }
}

/// The position of a name holds the name, and no position before it does;
/// where a name has no position, no entry holds it.
pub proof fn lemma_position_of(entries: Seq<(Seq<u8>, Change)>, name: Seq<u8>)
    ensures
        match position_of(entries, name) {
            Some(i) => {
                &&& 0 <= i < entries.len()
                &&& entries[i].0 == name
                &&& forall|j: int| 0 <= j < i ==> (#[trigger] entries[j]).0 != name
            },
            None => forall|j: int| 0 <= j < entries.len() ==> (#[trigger] entries[j]).0 != name,
        },
    decreases entries.len(),
{
    if entries.len() > 0 && entries[0].0 != name {
        let rest = entries.skip(1);
        lemma_position_of(rest, name);
        match position_of(rest, name) {
            Some(i) => {
                assert forall|j: int| 0 <= j < i + 1 implies (#[trigger] entries[j]).0 != name by {
                    if j > 0 {
                        assert(entries[j] == rest[j - 1]);
                    }
                }
            },
            None => {
                assert forall|j: int| 0 <= j < entries.len() implies (#[trigger] entries[j]).0
                    != name by {
                    if j > 0 {
                        assert(entries[j] == rest[j - 1]);
                    }
                }
            },
        }
    }
}

/// The position of a name is the first position that holds the name.
pub proof fn lemma_position_is_first(entries: Seq<(Seq<u8>, Change)>, name: Seq<u8>, at: int)
    requires
        0 <= at < entries.len(),
        entries[at].0 == name,
        forall|j: int| 0 <= j < at ==> (#[trigger] entries[j]).0 != name,
    ensures
        position_of(entries, name) == Some(at),
{
    lemma_position_of(entries, name);
}

/// The stats of a name after counts were attributed to it are the stats
/// that it had before, or none, with the counts added; the stats of every
/// other name stay what they were.
pub proof fn lemma_attribute_adds(
    entries: Seq<(Seq<u8>, Change)>,
    name: Seq<u8>,
    insertions: u32,
    deletions: u32,
    other: Seq<u8>,
)
    ensures
        lookup(attribute(entries, name, insertions, deletions), name) == Some(
            match lookup(entries, name) {
                Some(before) => Change {
                    insertions: capped_sum(before.insertions, insertions),
                    deletions: capped_sum(before.deletions, deletions),
                },
                None => Change { insertions, deletions },
            },
        ),
        other != name ==> lookup(attribute(entries, name, insertions, deletions), other)
            == lookup(entries, other),
{
    let after = attribute(entries, name, insertions, deletions);
    lemma_position_of(entries, name);
    lemma_position_of(entries, other);
    match position_of(entries, name) {
        Some(at) => {
            assert(after[at].0 == name);
            assert forall|j: int| 0 <= j < at implies (#[trigger] after[j]).0 != name by {
                assert(after[j] == entries[j]);
            }
            lemma_position_is_first(after, name, at);
            if other != name {
                match position_of(entries, other) {
                    Some(p) => {
                        assert(after[p] == entries[p]);
                        assert forall|j: int| 0 <= j < p implies (#[trigger] after[j]).0
                            != other by {
                            if j != at {
                                assert(after[j] == entries[j]);
                            }
                        }
                        lemma_position_is_first(after, other, p);
                    },
                    None => {
                        assert forall|j: int| 0 <= j < after.len() implies (#[trigger] after[j]).0
                            != other by {
                            if j != at {
                                assert(after[j] == entries[j]);
                            }
                        }
                        lemma_position_of(after, other);
                    },
                }
            }
        },
        None => {
            let at = entries.len() as int;
            assert(after[at].0 == name);
            assert forall|j: int| 0 <= j < at implies (#[trigger] after[j]).0 != name by {
                assert(after[j] == entries[j]);
            }
            lemma_position_is_first(after, name, at);
            if other != name {
                match position_of(entries, other) {
                    Some(p) => {
                        assert(after[p] == entries[p]);
                        assert forall|j: int| 0 <= j < p implies (#[trigger] after[j]).0
                            != other by {
                            assert(after[j] == entries[j]);
                        }
                        lemma_position_is_first(after, other, p);
                    },
                    None => {
                        assert forall|j: int| 0 <= j < after.len() implies (#[trigger] after[j]).0
                            != other by {
                            if j < at {
                                assert(after[j] == entries[j]);
                            }
                        }
                        lemma_position_of(after, other);
                    },
                }
            }
        },
    }
}

/// Attributing counts to a name keeps the names distinct.
pub proof fn lemma_attribute_distinct(
    entries: Seq<(Seq<u8>, Change)>,
    name: Seq<u8>,
    insertions: u32,
    deletions: u32,
)
    requires
        distinct_names(entries),
    ensures
        distinct_names(attribute(entries, name, insertions, deletions)),
{
    lemma_position_of(entries, name);
}

/// The sum of the insertions of the entries.
pub open spec fn insertions_sum(entries: Seq<(Seq<u8>, Change)>) -> nat
    decreases entries.len(),
{
    if entries.len() == 0 {
        0
    } else {
        insertions_sum(entries.drop_last()) + entries.last().1.insertions as nat
    }
}

/// The sum of the deletions of the entries.
pub open spec fn deletions_sum(entries: Seq<(Seq<u8>, Change)>) -> nat
    decreases entries.len(),
{
    if entries.len() == 0 {
        0
    } else {
        deletions_sum(entries.drop_last()) + entries.last().1.deletions as nat
    }
}

/// A count, held at `u32::MAX` where it does not fit.
pub open spec fn capped(count: nat) -> u32 {
    if count > u32::MAX {
        u32::MAX
    } else {
        count as u32
    }
}

/// The changes of all the entries together.
pub open spec fn total_change(entries: Seq<(Seq<u8>, Change)>) -> Change {
    Change {
        insertions: capped(insertions_sum(entries)),
        deletions: capped(deletions_sum(entries)),
    }
}

impl Changes {
    /// The changes of all the names together.
    pub fn sum(&self) -> (total: Change)
        ensures
            total == total_change(self@),
    {
        let mut insertions: u32 = 0;
        let mut deletions: u32 = 0;
        let mut i: usize = 0;
        assert(self@.take(0) =~= Seq::<(Seq<u8>, Change)>::empty());
        while i < self.entries.len()
            invariant
                i <= self.entries@.len(),
                insertions == capped(insertions_sum(self@.take(i as int))),
                deletions == capped(deletions_sum(self@.take(i as int))),
            decreases self.entries@.len() - i,
        {
            proof {
                let longer = self@.take(i + 1);
                assert(longer.drop_last() =~= self@.take(i as int));
                assert(longer.last() == self@[i as int]);
            }
            insertions = insertions.saturating_add(self.entries[i].1.insertions);
            deletions = deletions.saturating_add(self.entries[i].1.deletions);
            i += 1;
        }
        assert(self@.take(i as int) =~= self@);
        Change { insertions, deletions }
    }

    /// No name occurs twice.
    pub open spec fn wf(&self) -> bool {
        distinct_names(self@)
    }

    /// Stats without any name.
    pub fn new() -> (changes: Changes)
        ensures
            changes@ == Seq::<(Seq<u8>, Change)>::empty(),
            changes.wf(),
    {
        let changes = Changes { entries: Vec::new() };
        assert(changes@ =~= Seq::<(Seq<u8>, Change)>::empty());
        changes
    }

    /// Number of names that have stats.
    pub fn len(&self) -> (n: usize)
        ensures
            n == self@.len(),
    {
        self.entries.len()
    }

    fn position(&self, name: &[u8]) -> (r: Option<usize>)
        ensures
            match r {
                Some(i) => position_of(self@, name@) == Some(i as int) && i < self.entries@.len(),
                None => position_of(self@, name@) is None,
            },
    {
        let mut i: usize = 0;
        while i < self.entries.len()
            invariant
                i <= self.entries@.len(),
                forall|j: int| 0 <= j < i ==> (#[trigger] self@[j]).0 != name@,
            decreases self.entries@.len() - i,
        {
            if bytes_eq(self.entries[i].0.as_slice(), name) {
                proof {
                    lemma_position_of(self@, name@);
                    assert(self@[i as int].0 == name@);
                }
                return Some(i);
            }
            i += 1;
        }
        proof {
            lemma_position_of(self@, name@);
        }
        None
    }

    /// The stats attributed to `name`.
    pub fn get(&self, name: &[u8]) -> (r: Option<Change>)
        ensures
            r == lookup(self@, name@),
    {
        match self.position(name) {
            Some(i) => Some(self.entries[i].1),
            None => None,
        }
    }

    /// Attributes `insertions` and `deletions` to `name`.
    pub fn add(&mut self, name: Vec<u8>, insertions: u32, deletions: u32)
        ensures
            final(self)@ == attribute(old(self)@, name@, insertions, deletions),
            old(self).wf() ==> final(self).wf(),
    {
        proof {
            if self.wf() {
                lemma_attribute_distinct(self@, name@, insertions, deletions);
            }
        }
        let ghost before = self@;
        match self.position(&name) {
            Some(i) => {
                let current = self.entries[i].1;
                let change = Change {
                    insertions: current.insertions.saturating_add(insertions),
                    deletions: current.deletions.saturating_add(deletions),
                };
                self.entries.set(i, (name, change));
                assert(self@ =~= attribute(before, name@, insertions, deletions));
            },
            None => {
                self.entries.push((name, Change { insertions, deletions }));
                assert(self@ =~= attribute(before, name@, insertions, deletions));
            },
        }
    }
}

/// Reads a count field.
fn read_count(token: &[u8]) -> (r: Option<u32>)
    ensures
        r == parse_count(token@),
{
    if token.len() == 1 && token[0] == DASH {
        assert(token@ =~= seq![DASH]);
        return Some(0);
    }
    assert(!(token@ =~= seq![DASH])) by {
        if token@ =~= seq![DASH] {
            assert(token@.len() == 1 && token@[0] == DASH);
        }
    }
    match parse_decimal(token, u32::MAX as u64) {
        Some(n) => Some(n as u32),
        None => None,
    }
}

/// Finds the field that starts at `pos` and ends before the next `delim`.
fn field_end(input: &[u8], pos: usize, delim: u8) -> (r: Option<usize>)
    requires
        pos <= input@.len(),
    ensures
        match r {
            Some(end) => {
                &&& pos <= end < input@.len()
                &&& split_field(input@.skip(pos as int), delim) == Some(
                    (input@.subrange(pos as int, end as int), input@.skip(end + 1)),
                )
            },
            None => split_field(input@.skip(pos as int), delim) is None,
        },
{
    match find_byte(input, pos, delim) {
        Some(end) => {
            proof {
                let tail = input@.skip(pos as int);
                assert(tail.take(end - pos) =~= input@.subrange(pos as int, end as int));
                assert(tail.skip(end - pos + 1) =~= input@.skip(end + 1));
            }
            Some(end)
        },
        None => None,
    }
}

/// The top-level component of the path `input[from..to]`.
fn top_level_of(input: &[u8], from: usize, to: usize) -> (r: Vec<u8>)
    requires
        from <= to <= input@.len(),
    ensures
        r@ == top_level(input@.subrange(from as int, to as int)),
{
    let path = vstd::slice::slice_subrange(input, from, to);
    match find_byte(path, 0, SLASH) {
        Some(i) => {
            assert(path@.skip(0) =~= path@);
            assert(path@.subrange(0, i as int) =~= path@.take(i as int));
            copy_range(path, 0, i)
        },
        None => {
            assert(path@.skip(0) =~= path@);
            assert(path@.subrange(0, path@.len() as int) =~= path@);
            copy_range(path, 0, path.len())
        },
    }
}

/// What can be read from the output of `git diff --numstat -z`.
pub trait ChangesParser: Sized {
    /// The stats held, as the names with their changes.
    spec fn stats(&self) -> Seq<(Seq<u8>, Change)>;

    /// Parse the output from `git diff --numstat -z`, and returns the
    /// insertions and deletions of each top-level name.
    ///
    /// Changes in subdirectories are aggregated in the common parent.
    ///
    /// Returns `None` if the input can't be parsed.
    fn parse(input: &[u8]) -> (r: Option<Self>)
        ensures
            r is Some <==> parse_numstat(input@) is Some,
            r matches Some(parsed) ==> parse_numstat(input@) == Some(parsed.stats()),
    ;
}

impl ChangesParser for Changes {
    open spec fn stats(&self) -> Seq<(Seq<u8>, Change)> {
        self@
    }

    fn parse(input: &[u8]) -> (r: Option<Changes>)
        ensures
            r matches Some(parsed) ==> parsed.wf(),
    {
        let mut changes = Changes::new();
        let mut pos: usize = 0;
        assert(input@.skip(0) =~= input@);
        while pos < input.len()
            invariant
                pos <= input@.len(),
                changes.wf(),
                parse_numstat(input@) == parse_records(input@.skip(pos as int), changes@),
            decreases input@.len() - pos,
        {
            let ghost here = input@.skip(pos as int);
            let ins_end = match field_end(input, pos, TAB) {
                Some(end) => end,
                None => {
                    return None;
                },
            };
            let del_end = match field_end(input, ins_end + 1, TAB) {
                Some(end) => end,
                None => {
                    return None;
                },
            };
            let insertions = match read_count(
                vstd::slice::slice_subrange(input, pos, ins_end),
            ) {
                Some(n) => n,
                None => {
                    return None;
                },
            };
            let deletions = match read_count(
                vstd::slice::slice_subrange(input, ins_end + 1, del_end),
            ) {
                Some(n) => n,
                None => {
                    return None;
                },
            };
            let after = del_end + 1;
            proof {
                let after_del = input@.skip(after as int);
                if after < input@.len() {
                    assert(after_del[0] == input@[after as int]);
                    assert(after_del.skip(1) =~= input@.skip(after + 1));
                }
            }
            if after < input.len() && input[after] == NUL {
                let old_end = match field_end(input, after + 1, NUL) {
                    Some(end) => end,
                    None => {
                        return None;
                    },
                };
                let new_end = match field_end(input, old_end + 1, NUL) {
                    Some(end) => end,
                    None => {
                        return None;
                    },
                };
                let old_name = top_level_of(input, after + 1, old_end);
                let new_name = top_level_of(input, old_end + 1, new_end);
                changes.add(old_name, 0, deletions);
                changes.add(new_name, insertions, 0);
                pos = new_end + 1;
            } else {
                let end = match field_end(input, after, NUL) {
                    Some(end) => end,
                    None => {
                        return None;
                    },
                };
                let name = top_level_of(input, after, end);
                changes.add(name, insertions, deletions);
                pos = end + 1;
            }
        }
        assert(input@.skip(pos as int).len() == 0);
        Some(changes)
    }
}

/// The changes that `git diff` reported, given whether it succeeded and
/// what it wrote: no changes where it failed, or where what it wrote can't
/// be parsed.
pub open spec fn collected(success: bool, output: Seq<u8>) -> Seq<(Seq<u8>, Change)> {
    if success {
        match parse_numstat(output) {
            Some(stats) => stats,
            None => Seq::empty(),
        }
    } else {
        Seq::empty()
    }
}

/// Read changes in a Git repository from the outcome of `git diff`.
pub fn collect(success: bool, output: &[u8]) -> (changes: Changes)
    ensures
        changes@ == collected(success, output@),
        changes.wf(),
{
    if success {
        match Changes::parse(output) {
            Some(changes) => changes,
            None => Changes::new(),
        }
    } else {
        Changes::new()
    }
}

/// Waits for the changes that a worker reads, for no longer than the time
/// that is left until the deadline (`None` where there is no deadline).
///
/// The changes are unavailable where they did not come in time, or where
/// the worker went away without them. With no time left they are
/// unavailable at once.
pub fn await_changes(receiver: &Receiver<Changes>, remaining: Option<Duration>) -> (changes:
    Option<Changes>)
    ensures
        remaining is Some && span_nanos(remaining.unwrap()) == 0 ==> changes is None,
{
    match remaining {
        Some(span) => {
            if span.as_nanos() == 0 {
                None
            } else {
                changes_received(receiver.recv_timeout(span))
            }
        },
        None => changes_received(receiver.recv()),
    }
}

/// What a wait came to: the changes that were received, or nothing where
/// the wait ended without them.
pub open spec fn received<E>(outcome: Result<Changes, E>) -> Option<Changes> {
    match outcome {
        Ok(changes) => Some(changes),
        Err(_) => None,
    }
}

/// The changes that a wait on the worker came to, whatever way it ended:
/// changes that were received are available, and the changes are
/// unavailable where the time ran out or the worker went away.
pub fn changes_received<E>(outcome: Result<Changes, E>) -> (changes: Option<Changes>)
    ensures
        changes == received(outcome),
{
    match outcome {
        Ok(changes) => Some(changes),
        Err(_) => None,
    }
}

} // verus!
