//! This module provides the [`sort`] function, which is used to sort the files
//! in a [`FilesGroup`], according to the sort specification defined by the
//! configuration.
//!
//! [`sort`]: self::sort
//! [`FilesGroup`]: super::FilesGroup

use std::cmp::Ordering;

use vstd::prelude::*;

use crate::config::{SortKey, SortOrder, SortSpec};
use crate::summarizer::exts::{
    all_digits, decimal_value, is_digit, lemma_decimal_value_prefix, DIGIT_0, DIGIT_9,
};
use crate::summarizer::treereader::TreeInfo;
use crate::summarizer::{File, FileKind, FilesGroup, Order};

verus! {

/// How two numbers stand to each other.
pub open spec fn number_order(a: int, b: int) -> Order {
    if a < b {
        Order::Less
    } else if a > b {
        Order::Greater
    } else {
        Order::Equal
    }
}

/// The order turned round.
pub open spec fn reversed(order: Order) -> Order {
    match order {
        Order::Less => Order::Greater,
        Order::Equal => Order::Equal,
        Order::Greater => Order::Less,
    }
}

/// How two byte strings stand to each other from position `from` on, byte
/// by byte; a string that ends first comes first.
pub open spec fn bytes_order_from(a: Seq<u8>, b: Seq<u8>, from: int) -> Order
    decreases a.len() - from,
{
    if from >= a.len() && from >= b.len() {
        Order::Equal
    } else if from >= a.len() {
        Order::Less
    } else if from >= b.len() {
        Order::Greater
    } else if a[from] != b[from] {
        number_order(a[from] as int, b[from] as int)
    } else {
        bytes_order_from(a, b, from + 1)
    }
}

/// The lexicographic order of two byte strings.
pub open spec fn bytes_order(a: Seq<u8>, b: Seq<u8>) -> Order {
    bytes_order_from(a, b, 0)
}

/// Where the run of digits that starts at `from` ends.
pub open spec fn run_end(s: Seq<u8>, from: int) -> int
    decreases s.len() - from,
{
    if 0 <= from < s.len() && is_digit(s[from]) {
        run_end(s, from + 1)
    } else {
        from
    }
}

/// The longest run of digits that starts at `from`.
pub open spec fn digit_run(s: Seq<u8>, from: int) -> Seq<u8> {
    s.subrange(from, run_end(s, from))
}

/// How two names stand to each other once both hold a digit at `at`: by the
/// numbers that their runs of digits spell, and by the whole names, byte by
/// byte, where a number does not fit in 64 bits.
pub open spec fn runs_order(a: Seq<u8>, b: Seq<u8>, at: int) -> Order {
    let x = decimal_value(digit_run(a, at));
    let y = decimal_value(digit_run(b, at));
    if x > u64::MAX || y > u64::MAX {
        bytes_order(a, b)
    } else {
        number_order(x as int, y as int)
    }
}

/// How two names stand to each other as versions, looking from `from` on:
/// the names are compared byte by byte up to the first position where both
/// hold a digit, and by their numbers from there.
pub open spec fn version_order_from(a: Seq<u8>, b: Seq<u8>, from: int) -> Order
    decreases a.len() - from,
{
    if from >= a.len() && from >= b.len() {
        Order::Equal
    } else if from >= a.len() {
        Order::Less
    } else if from >= b.len() {
        Order::Greater
    } else if from < 0 {
        Order::Equal
    } else if is_digit(a[from]) && is_digit(b[from]) {
        runs_order(a, b, from)
    } else if a[from] != b[from] {
        number_order(a[from] as int, b[from] as int)
    } else {
        version_order_from(a, b, from + 1)
    }
}

/// The order of two names as versions, similar to `strverscmp(3)`.
pub open spec fn version_order(a: Seq<u8>, b: Seq<u8>) -> Order {
    version_order_from(a, b, 0)
}

/// The run of digits that starts at `from` ends where the digits end.
proof fn lemma_run_end(s: Seq<u8>, from: int, end: int)
    requires
        0 <= from <= end <= s.len(),
        forall|k: int| from <= k < end ==> is_digit(#[trigger] s[k]),
        end == s.len() || !is_digit(s[end]),
    ensures
        run_end(s, from) == end,
    decreases end - from,
{
    if from < end {
        lemma_run_end(s, from + 1, end);
    }
}

/// The number that the run of digits at `from` spells, or `None` where it
/// does not fit in 64 bits.
fn read_run(s: &[u8], from: usize) -> (r: Option<u64>)
    requires
        from <= s@.len(),
    ensures
        match r {
            Some(v) => v == decimal_value(digit_run(s@, from as int)),
            None => decimal_value(digit_run(s@, from as int)) > u64::MAX,
        },
{
    let mut end: usize = from;
    while end < s.len() && DIGIT_0 <= s[end] && s[end] <= DIGIT_9
        invariant
            from <= end <= s@.len(),
            forall|k: int| from <= k < end ==> is_digit(#[trigger] s@[k]),
        decreases s@.len() - end,
    {
        end += 1;
    }
    proof {
        lemma_run_end(s@, from as int, end as int);
    }
    let ghost run = digit_run(s@, from as int);
    assert(all_digits(run));
    let mut value: u64 = 0;
    let mut i: usize = from;
    while i < end
        invariant
            from <= i <= end <= s@.len(),
            run == s@.subrange(from as int, end as int),
            run == digit_run(s@, from as int),
            all_digits(run),
            value == decimal_value(run.take(i - from)),
        decreases end - i,
    {
        let byte = s[i];
        let ghost longer = run.take(i - from + 1);
        proof {
            assert(longer.drop_last() =~= run.take(i - from));
            assert(longer.last() == byte);
            assert(is_digit(run[i - from]));
            lemma_decimal_value_prefix(run, i - from + 1);
        }
        let next = match value.checked_mul(10) {
            Some(v) => v.checked_add((byte - DIGIT_0) as u64),
            None => None,
        };
        match next {
            Some(v) => {
                value = v;
            },
            None => {
                assert(decimal_value(longer) > u64::MAX);
                return None;
            },
        }
        i += 1;
    }
    assert(run.take(i - from) =~= run);
    Some(value)
}

/// The lexicographic order of two byte strings.
pub fn compare_bytes(a: &[u8], b: &[u8]) -> (r: Order)
    ensures
        r == bytes_order(a@, b@),
{
    let mut i: usize = 0;
    while i < a.len() && i < b.len()
        invariant
            i <= a@.len(),
            i <= b@.len(),
            bytes_order(a@, b@) == bytes_order_from(a@, b@, i as int),
        decreases a@.len() - i,
    {
        if a[i] != b[i] {
            return if a[i] < b[i] {
                Order::Less
            } else {
                Order::Greater
            };
        }
        i += 1;
    }
    if i < b.len() {
        Order::Less
    } else if i < a.len() {
        Order::Greater
    } else {
        Order::Equal
    }
}

fn compare_numbers(a: u64, b: u64) -> (r: Order)
    ensures
        r == number_order(a as int, b as int),
{
    if a < b {
        Order::Less
    } else if a > b {
        Order::Greater
    } else {
        Order::Equal
    }
}

/// How two names stand to each other as versions.
pub fn version_order_of(s1: &[u8], s2: &[u8]) -> (r: Order)
    ensures
        r == version_order(s1@, s2@),
{
    let mut i: usize = 0;
    loop
        invariant_except_break
            i <= s1@.len(),
            i <= s2@.len(),
            version_order(s1@, s2@) == version_order_from(s1@, s2@, i as int),
        ensures
            i < s1@.len(),
            i < s2@.len(),
            version_order(s1@, s2@) == runs_order(s1@, s2@, i as int),
        decreases s1@.len() - i,
    {
        if i >= s1.len() && i >= s2.len() {
            return Order::Equal;
        }
        if i >= s1.len() {
            return Order::Less;
        }
        if i >= s2.len() {
            return Order::Greater;
        }
        let a = s1[i];
        let b = s2[i];
        if DIGIT_0 <= a && a <= DIGIT_9 && DIGIT_0 <= b && b <= DIGIT_9 {
            break;
        }
        if a != b {
            return if a < b {
                Order::Less
            } else {
                Order::Greater
            };
        }
        i += 1;
    }
    let number1 = read_run(s1, i);
    let number2 = read_run(s2, i);
    match (number1, number2) {
        (Some(x), Some(y)) => compare_numbers(x, y),
        // If a number does not fit, ignore the numbers and compare the
        // names byte by byte.
        _ => compare_bytes(s1, s2),
    }
}


/// Compare two version strings.
///
/// Implementation is similar to `strverscmp(3)`.
pub fn compare_versions(s1: &[u8], s2: &[u8]) -> (r: Ordering)
    ensures
        r == ordering_of(version_order(s1@, s2@)),
{
    match version_order_of(s1, s2) {
        Order::Less => Ordering::Less,
        Order::Equal => Ordering::Equal,
        Order::Greater => Ordering::Greater,
    }
}

/// The same order, in the words of the standard library.
pub open spec fn ordering_of(order: Order) -> Ordering {
    match order {
        Order::Less => Ordering::Less,
        Order::Equal => Ordering::Equal,
        Order::Greater => Ordering::Greater,
    }
}

/// A byte string stands equal to itself in the lexicographic order.
pub proof fn lemma_bytes_order_same(a: Seq<u8>, from: int)
    requires
        0 <= from,
    ensures
        bytes_order_from(a, a, from) == Order::Equal,
    decreases a.len() - from,
{
    if from < a.len() {
        lemma_bytes_order_same(a, from + 1);
    }
}

/// A name stands equal to itself as a version.
pub proof fn lemma_version_order_same(a: Seq<u8>)
    ensures
        version_order(a, a) == Order::Equal,
{
    lemma_version_order_same_from(a, 0);
}

proof fn lemma_version_order_same_from(a: Seq<u8>, from: int)
    requires
        0 <= from,
    ensures
        version_order_from(a, a, from) == Order::Equal,
    decreases a.len() - from,
{
    if from < a.len() {
        if is_digit(a[from]) {
            lemma_bytes_order_same(a, 0);
        } else {
            lemma_version_order_same_from(a, from + 1);
        }
    }
}

/// Two names that agree up to a position where both hold a digit are
/// ordered by the runs of digits there.
proof fn lemma_version_order_reaches_runs(a: Seq<u8>, b: Seq<u8>, from: int, at: int)
    requires
        0 <= from <= at,
        at < a.len(),
        at < b.len(),
        forall|k: int| from <= k < at ==> a[k] == b[k] && !is_digit(#[trigger] a[k]),
        is_digit(a[at]),
        is_digit(b[at]),
    ensures
        version_order_from(a, b, from) == runs_order(a, b, at),
    decreases at - from,
{
    if from < at {
        assert(!is_digit(a[from]));
        lemma_version_order_reaches_runs(a, b, from + 1, at);
    }
}

/// Numbers that do not fit in 64 bits are not compared as numbers: where
/// two names agree up to a position at which both hold a digit, and the
/// number of either name there is too large, the names are ordered byte by
/// byte.
pub proof fn lemma_version_order_of_large_numbers(a: Seq<u8>, b: Seq<u8>, at: int)
    requires
        0 <= at < a.len(),
        at < b.len(),
        forall|k: int| 0 <= k < at ==> a[k] == b[k] && !is_digit(#[trigger] a[k]),
        is_digit(a[at]),
        is_digit(b[at]),
        decimal_value(digit_run(a, at)) > u64::MAX || decimal_value(digit_run(b, at)) > u64::MAX,
    ensures
        version_order(a, b) == bytes_order(a, b),
{
    lemma_version_order_reaches_runs(a, b, 0, at);
}

/// What is known of the tree below a file.
pub open spec fn tree_stats(file: File) -> Option<TreeInfo> {
    match file.tree_info {
        Some(job) => match job.settled() {
            Some(info) => info,
            None => None,
        },
        None => None,
    }
}

/// What is known of the tree below a file that is a directory.
pub open spec fn directory_stats(file: File) -> Option<TreeInfo> {
    if file.entry.metadata.kind == FileKind::Directory {
        tree_stats(file)
    } else {
        None
    }
}

/// The newest modification below a directory, where that is known; the
/// file's own time of modification otherwise.
pub open spec fn deep_mtime(file: File) -> u64 {
    match directory_stats(file) {
        Some(info) => info.mtime,
        None => file.entry.metadata.mtime,
    }
}

/// The size of the tree below a directory, where that is known; the file's
/// own size otherwise.
pub open spec fn deep_size(file: File) -> u64 {
    match directory_stats(file) {
        Some(info) => info.disk_usage,
        None => file.entry.metadata.len,
    }
}

/// The order by a number first, and by the name where the numbers are
/// equal.
pub open spec fn numbered_order(x: u64, a: Seq<u8>, y: u64, b: Seq<u8>) -> Order {
    if x != y {
        number_order(x as int, y as int)
    } else {
        bytes_order(a, b)
    }
}

/// How two files stand to each other by a sort key.
pub open spec fn key_order(key: SortKey, a: File, b: File) -> Order {
    match key {
        SortKey::DeepModificationTime => numbered_order(
            deep_mtime(a),
            a.entry.file_name@,
            deep_mtime(b),
            b.entry.file_name@,
        ),
        SortKey::Name => bytes_order(a.entry.file_name@, b.entry.file_name@),
        SortKey::Size => numbered_order(
            deep_size(a),
            a.entry.file_name@,
            deep_size(b),
            b.entry.file_name@,
        ),
        SortKey::ModificationTime => numbered_order(
            a.entry.metadata.mtime,
            a.entry.file_name@,
            b.entry.metadata.mtime,
            b.entry.file_name@,
        ),
        SortKey::Version => version_order(a.entry.file_name@, b.entry.file_name@),
    }
}

/// How two files of a group stand to each other: where files with changes
/// come first, a file with changes comes before one without, in either
/// direction; otherwise the key decides, turned round for a descending sort.
pub open spec fn file_order(
    key: SortKey,
    direction: SortOrder,
    git_changes_first: bool,
    a: File,
    b: File,
) -> Order {
    if git_changes_first && a.git_changes is Some && b.git_changes is None {
        Order::Less
    } else if git_changes_first && a.git_changes is None && b.git_changes is Some {
        Order::Greater
    } else if direction == SortOrder::Desc {
        reversed(key_order(key, a, b))
    } else {
        key_order(key, a, b)
    }
}

/// Where `file` goes among files that are sorted: behind the last file that
/// does not have to come after it.
pub open spec fn insertion_point(
    sorted: Seq<File>,
    file: File,
    key: SortKey,
    direction: SortOrder,
    git_changes_first: bool,
) -> int
    decreases sorted.len(),
{
    if sorted.len() > 0 && file_order(key, direction, git_changes_first, sorted.last(), file)
        == Order::Greater {
        insertion_point(sorted.drop_last(), file, key, direction, git_changes_first)
    } else {
        sorted.len() as int
    }
}

/// The files in sorted order: each file, in turn, is put behind the last of
/// the files before it that does not have to come after it. Files that
/// stand equal keep the order in which they came.
pub open spec fn sorted_files(
    files: Seq<File>,
    key: SortKey,
    direction: SortOrder,
    git_changes_first: bool,
) -> Seq<File>
    decreases files.len(),
{
    if files.len() == 0 {
        files
    } else {
        let before = sorted_files(files.drop_last(), key, direction, git_changes_first);
        before.insert(
            insertion_point(before, files.last(), key, direction, git_changes_first),
            files.last(),
        )
    }
}

/// Turning two byte strings round turns their order round.
pub proof fn lemma_bytes_order_turned(a: Seq<u8>, b: Seq<u8>, from: int)
    requires
        0 <= from,
    ensures
        bytes_order_from(a, b, from) == reversed(bytes_order_from(b, a, from)),
    decreases a.len() - from,
{
    if from < a.len() && from < b.len() && a[from] == b[from] {
        lemma_bytes_order_turned(a, b, from + 1);
    }
}

/// Turning two names round turns their order as versions round.
pub proof fn lemma_version_order_turned(a: Seq<u8>, b: Seq<u8>, from: int)
    requires
        0 <= from,
    ensures
        version_order_from(a, b, from) == reversed(version_order_from(b, a, from)),
    decreases a.len() - from,
{
    if from < a.len() && from < b.len() {
        if is_digit(a[from]) && is_digit(b[from]) {
            lemma_bytes_order_turned(a, b, 0);
        } else if a[from] == b[from] {
            lemma_version_order_turned(a, b, from + 1);
        }
    }
}

/// Turning two files round turns their order round, whatever the sort.
pub proof fn lemma_file_order_turned(
    key: SortKey,
    direction: SortOrder,
    git_changes_first: bool,
    a: File,
    b: File,
)
    ensures
        file_order(key, direction, git_changes_first, a, b) == reversed(
            file_order(key, direction, git_changes_first, b, a),
        ),
{
    lemma_bytes_order_turned(a.entry.file_name@, b.entry.file_name@, 0);
    lemma_version_order_turned(a.entry.file_name@, b.entry.file_name@, 0);
}

/// The insertion point lies within the sorted files, or right behind them.
pub proof fn lemma_insertion_point_bounds(
    sorted: Seq<File>,
    file: File,
    key: SortKey,
    direction: SortOrder,
    git_changes_first: bool,
)
    ensures
        0 <= insertion_point(sorted, file, key, direction, git_changes_first) <= sorted.len(),
    decreases sorted.len(),
{
    if sorted.len() > 0 {
        lemma_insertion_point_bounds(sorted.drop_last(), file, key, direction, git_changes_first);
    }
}

/// A file is only put in front of files that have to come after it: every
/// file behind the insertion point has to come after the new file. So
/// files that stand equal keep the order in which they came.
pub proof fn lemma_insertion_point_is_stable(
    sorted: Seq<File>,
    file: File,
    key: SortKey,
    direction: SortOrder,
    git_changes_first: bool,
    behind: int,
)
    requires
        insertion_point(sorted, file, key, direction, git_changes_first) <= behind < sorted.len(),
    ensures
        file_order(key, direction, git_changes_first, sorted[behind], file) == Order::Greater,
    decreases sorted.len(),
{
    lemma_insertion_point_bounds(sorted, file, key, direction, git_changes_first);
    if sorted.len() > 0 && file_order(key, direction, git_changes_first, sorted.last(), file)
        == Order::Greater {
        if behind < sorted.len() - 1 {
            lemma_insertion_point_is_stable(
                sorted.drop_last(),
                file,
                key,
                direction,
                git_changes_first,
                behind,
            );
            assert(sorted.drop_last()[behind] == sorted[behind]);
        }
    }
}

/// Sorting keeps the files: each file is in the result as often as it was
/// in the list.
pub proof fn lemma_sorted_files_keeps_files(
    files: Seq<File>,
    key: SortKey,
    direction: SortOrder,
    git_changes_first: bool,
)
    ensures
        sorted_files(files, key, direction, git_changes_first).len() == files.len(),
        sorted_files(files, key, direction, git_changes_first).to_multiset()
            == files.to_multiset(),
    decreases files.len(),
{
    broadcast use vstd::seq_lib::group_to_multiset_ensures;

    if files.len() > 0 {
        let before = sorted_files(files.drop_last(), key, direction, git_changes_first);
        let at = insertion_point(before, files.last(), key, direction, git_changes_first);
        lemma_sorted_files_keeps_files(files.drop_last(), key, direction, git_changes_first);
        lemma_insertion_point_bounds(before, files.last(), key, direction, git_changes_first);
        vstd::seq_lib::to_multiset_insert(before, at, files.last());
        assert(files.drop_last().push(files.last()) =~= files);
    }
}

/// In the sorted list no file stands right before one that it has to come
/// after.
pub proof fn lemma_sorted_files_in_order(
    files: Seq<File>,
    key: SortKey,
    direction: SortOrder,
    git_changes_first: bool,
    i: int,
)
    requires
        0 <= i,
        i + 1 < files.len(),
    ensures
        file_order(
            key,
            direction,
            git_changes_first,
            sorted_files(files, key, direction, git_changes_first)[i],
            sorted_files(files, key, direction, git_changes_first)[i + 1],
        ) != Order::Greater,
    decreases files.len(),
{
    let before = sorted_files(files.drop_last(), key, direction, git_changes_first);
    let file = files.last();
    let at = insertion_point(before, file, key, direction, git_changes_first);
    lemma_sorted_files_keeps_files(files.drop_last(), key, direction, git_changes_first);
    lemma_insertion_point_bounds(before, file, key, direction, git_changes_first);
    lemma_insertion_point_neighbours(before, file, key, direction, git_changes_first);
    let after = before.insert(at, file);
    if i + 1 < at {
        lemma_sorted_files_in_order(files.drop_last(), key, direction, git_changes_first, i);
    } else if i + 1 == at {
        assert(after[i] == before[at - 1]);
        assert(after[i + 1] == file);
    } else if i == at {
        assert(after[i] == file);
        assert(after[i + 1] == before[at]);
        lemma_file_order_turned(key, direction, git_changes_first, file, before[at]);
    } else {
        lemma_sorted_files_in_order(files.drop_last(), key, direction, git_changes_first, i - 1);
        assert(after[i] == before[i - 1]);
        assert(after[i + 1] == before[i]);
    }
}

/// Where a byte string does not come after a second one, and the second not
/// after a third, the first does not come after the third.
pub proof fn lemma_bytes_order_transitive(a: Seq<u8>, b: Seq<u8>, c: Seq<u8>, from: int)
    requires
        0 <= from,
        bytes_order_from(a, b, from) != Order::Greater,
        bytes_order_from(b, c, from) != Order::Greater,
    ensures
        bytes_order_from(a, c, from) != Order::Greater,
        bytes_order_from(a, c, from) == Order::Equal ==> bytes_order_from(a, b, from)
            == Order::Equal && bytes_order_from(b, c, from) == Order::Equal,
    decreases a.len() - from,
{
    if from < a.len() && from < b.len() && from < c.len() && a[from] == b[from] && b[from]
        == c[from] {
        lemma_bytes_order_transitive(a, b, c, from + 1);
    }
}

/// Where a file does not have to come after a second one, and the second
/// not after a third, the first does not have to come after the third,
/// whatever the sort, unless it is by version.
pub proof fn lemma_file_order_transitive(
    key: SortKey,
    direction: SortOrder,
    git_changes_first: bool,
    a: File,
    b: File,
    c: File,
)
    requires
        key != SortKey::Version,
        file_order(key, direction, git_changes_first, a, b) != Order::Greater,
        file_order(key, direction, git_changes_first, b, c) != Order::Greater,
    ensures
        file_order(key, direction, git_changes_first, a, c) != Order::Greater,
{
    let x = a.entry.file_name@;
    let y = b.entry.file_name@;
    let z = c.entry.file_name@;
    lemma_bytes_order_turned(x, y, 0);
    lemma_bytes_order_turned(y, z, 0);
    lemma_bytes_order_turned(x, z, 0);
    if bytes_order(x, y) != Order::Greater && bytes_order(y, z) != Order::Greater {
        lemma_bytes_order_transitive(x, y, z, 0);
    }
    if bytes_order(z, y) != Order::Greater && bytes_order(y, x) != Order::Greater {
        lemma_bytes_order_transitive(z, y, x, 0);
    }
}

/// The sorted list is in order, unless the sort is by version: no file
/// stands before one that it has to come after.
pub proof fn lemma_sorted_files_sorted(
    files: Seq<File>,
    key: SortKey,
    direction: SortOrder,
    git_changes_first: bool,
    i: int,
    j: int,
)
    requires
        key != SortKey::Version,
        0 <= i < j < files.len(),
    ensures
        file_order(
            key,
            direction,
            git_changes_first,
            sorted_files(files, key, direction, git_changes_first)[i],
            sorted_files(files, key, direction, git_changes_first)[j],
        ) != Order::Greater,
    decreases j - i,
{
    let sorted = sorted_files(files, key, direction, git_changes_first);
    lemma_sorted_files_keeps_files(files, key, direction, git_changes_first);
    lemma_sorted_files_in_order(files, key, direction, git_changes_first, i);
    if i + 1 < j {
        lemma_sorted_files_sorted(files, key, direction, git_changes_first, i + 1, j);
        lemma_file_order_transitive(
            key,
            direction,
            git_changes_first,
            sorted[i],
            sorted[i + 1],
            sorted[j],
        );
    }
}

/// For each place of the sorted list, the place that its file had in the
/// list as it came.
pub open spec fn sorted_positions(
    files: Seq<File>,
    key: SortKey,
    direction: SortOrder,
    git_changes_first: bool,
) -> Seq<int>
    decreases files.len(),
{
    if files.len() == 0 {
        Seq::empty()
    } else {
        let before = sorted_files(files.drop_last(), key, direction, git_changes_first);
        sorted_positions(files.drop_last(), key, direction, git_changes_first).insert(
            insertion_point(before, files.last(), key, direction, git_changes_first),
            files.len() - 1,
        )
    }
}

/// The sorted list holds, at each of its places, the file of the place
/// that `sorted_positions` gives, and no place of the list as it came is
/// given twice.
pub proof fn lemma_sorted_positions(
    files: Seq<File>,
    key: SortKey,
    direction: SortOrder,
    git_changes_first: bool,
)
    ensures
        sorted_positions(files, key, direction, git_changes_first).len() == files.len(),
        sorted_files(files, key, direction, git_changes_first).len() == files.len(),
        forall|k: int|
            0 <= k < files.len() ==> {
                &&& 0 <= (#[trigger] sorted_positions(
                    files,
                    key,
                    direction,
                    git_changes_first,
                )[k]) < files.len()
                &&& sorted_files(files, key, direction, git_changes_first)[k]
                    == files[sorted_positions(files, key, direction, git_changes_first)[k]]
            },
        forall|j: int, k: int|
            0 <= j < k < files.len() ==> (#[trigger] sorted_positions(
                files,
                key,
                direction,
                git_changes_first,
            )[j]) != (#[trigger] sorted_positions(files, key, direction, git_changes_first)[k]),
    decreases files.len(),
{
    if files.len() > 0 {
        let shorter = files.drop_last();
        let before = sorted_files(shorter, key, direction, git_changes_first);
        let places = sorted_positions(shorter, key, direction, git_changes_first);
        let at = insertion_point(before, files.last(), key, direction, git_changes_first);
        lemma_sorted_positions(shorter, key, direction, git_changes_first);
        lemma_insertion_point_bounds(before, files.last(), key, direction, git_changes_first);
        let sorted = sorted_files(files, key, direction, git_changes_first);
        let positions = sorted_positions(files, key, direction, git_changes_first);
        assert forall|k: int| 0 <= k < files.len() implies {
            &&& 0 <= (#[trigger] positions[k]) < files.len()
            &&& sorted[k] == files[positions[k]]
        } by {
            if k < at {
                assert(positions[k] == places[k]);
                assert(sorted[k] == before[k]);
                assert(shorter[places[k]] == files[places[k]]);
            } else if k > at {
                assert(positions[k] == places[k - 1]);
                assert(sorted[k] == before[k - 1]);
                assert(shorter[places[k - 1]] == files[places[k - 1]]);
            }
        }
        assert forall|j: int, k: int| 0 <= j < k < files.len() implies (#[trigger] positions[j])
            != (#[trigger] positions[k]) by {
            let pj = if j < at {
                j
            } else {
                j - 1
            };
            let pk = if k < at {
                k
            } else {
                k - 1
            };
            if j != at {
                assert(positions[j] == places[pj]);
            }
            if k != at {
                assert(positions[k] == places[pk]);
            }
        }
    }
}

/// The sort is stable: a file stands before a file that came before it
/// only where the earlier file has to come after it.
pub proof fn lemma_sorted_files_stable(
    files: Seq<File>,
    key: SortKey,
    direction: SortOrder,
    git_changes_first: bool,
    a: int,
    b: int,
)
    requires
        0 <= a < b < files.len(),
        sorted_positions(files, key, direction, git_changes_first)[a] > sorted_positions(
            files,
            key,
            direction,
            git_changes_first,
        )[b],
    ensures
        file_order(
            key,
            direction,
            git_changes_first,
            sorted_files(files, key, direction, git_changes_first)[b],
            sorted_files(files, key, direction, git_changes_first)[a],
        ) == Order::Greater,
    decreases files.len(),
{
    let shorter = files.drop_last();
    let before = sorted_files(shorter, key, direction, git_changes_first);
    let places = sorted_positions(shorter, key, direction, git_changes_first);
    let at = insertion_point(before, files.last(), key, direction, git_changes_first);
    lemma_sorted_positions(shorter, key, direction, git_changes_first);
    lemma_insertion_point_bounds(before, files.last(), key, direction, git_changes_first);
    let sorted = sorted_files(files, key, direction, git_changes_first);
    let positions = sorted_positions(files, key, direction, git_changes_first);
    if a == at {
        assert(sorted[a] == files.last());
        assert(sorted[b] == before[b - 1]);
        lemma_insertion_point_is_stable(
            before,
            files.last(),
            key,
            direction,
            git_changes_first,
            b - 1,
        );
    } else if b == at {
        assert(positions[b] == files.len() - 1);
        let pa = if a < at {
            a
        } else {
            a - 1
        };
        assert(positions[a] == places[pa]);
    } else {
        let pa = if a < at {
            a
        } else {
            a - 1
        };
        let pb = if b < at {
            b
        } else {
            b - 1
        };
        assert(positions[a] == places[pa]);
        assert(positions[b] == places[pb]);
        assert(sorted[a] == before[pa]);
        assert(sorted[b] == before[pb]);
        lemma_sorted_files_stable(shorter, key, direction, git_changes_first, pa, pb);
    }
}

/// Files that stand equal keep the order in which they came.
pub proof fn lemma_sorted_files_keeps_equal_files(
    files: Seq<File>,
    key: SortKey,
    direction: SortOrder,
    git_changes_first: bool,
    a: int,
    b: int,
)
    requires
        0 <= a < b < files.len(),
        file_order(
            key,
            direction,
            git_changes_first,
            sorted_files(files, key, direction, git_changes_first)[a],
            sorted_files(files, key, direction, git_changes_first)[b],
        ) == Order::Equal,
    ensures
        sorted_positions(files, key, direction, git_changes_first)[a] < sorted_positions(
            files,
            key,
            direction,
            git_changes_first,
        )[b],
{
    let sorted = sorted_files(files, key, direction, git_changes_first);
    let positions = sorted_positions(files, key, direction, git_changes_first);
    lemma_sorted_positions(files, key, direction, git_changes_first);
    assert(positions[a] != positions[b]);
    if positions[a] > positions[b] {
        lemma_sorted_files_stable(files, key, direction, git_changes_first, a, b);
        lemma_file_order_turned(key, direction, git_changes_first, sorted[a], sorted[b]);
    }
}

/// Whether no file without changes stands before a file with changes.
pub open spec fn changes_stand_first(files: Seq<File>) -> bool {
    forall|i: int, j: int|
        0 <= i < j < files.len() ==> !((#[trigger] files[i]).git_changes is None && (
        #[trigger] files[j]).git_changes is Some)
}

/// Where files with changes come first, they do so whatever the key and
/// the direction of the sort: in the sorted list no file without changes
/// stands before a file with changes.
pub proof fn lemma_sorted_files_changes_first(
    files: Seq<File>,
    key: SortKey,
    direction: SortOrder,
)
    ensures
        changes_stand_first(sorted_files(files, key, direction, true)),
    decreases files.len(),
{
    if files.len() > 0 {
        let shorter = files.drop_last();
        let file = files.last();
        let before = sorted_files(shorter, key, direction, true);
        let at = insertion_point(before, file, key, direction, true);
        lemma_sorted_files_changes_first(shorter, key, direction);
        lemma_sorted_files_keeps_files(shorter, key, direction, true);
        lemma_insertion_point_bounds(before, file, key, direction, true);
        lemma_insertion_point_neighbours(before, file, key, direction, true);
        let sorted = before.insert(at, file);
        assert forall|i: int, j: int| 0 <= i < j < sorted.len() implies !((
        #[trigger] sorted[i]).git_changes is None && (#[trigger] sorted[j]).git_changes
            is Some) by {
            if i == at {
                assert(sorted[j] == before[j - 1]);
                lemma_insertion_point_is_stable(before, file, key, direction, true, j - 1);
            } else if j == at {
                assert(sorted[i] == before[i]);
                if before[i].git_changes is None && file.git_changes is Some {
                    assert(before[at - 1].git_changes is Some);
                    if i < at - 1 {
                        assert(!(before[i].git_changes is None && before[at - 1].git_changes
                            is Some));
                    }
                }
            } else {
                let pi = if i < at {
                    i
                } else {
                    i - 1
                };
                let pj = if j < at {
                    j
                } else {
                    j - 1
                };
                assert(sorted[i] == before[pi]);
                assert(sorted[j] == before[pj]);
                assert(!(before[pi].git_changes is None && before[pj].git_changes is Some));
            }
        }
    }
}

/// A descending sort by size ranks the larger before the smaller: of two
/// files that both have changes, or both have none, the one that stands
/// first in the sorted list is no smaller than the other. The size of a
/// directory is that of its tree, where that is known.
pub proof fn lemma_sorted_by_size_descending(
    files: Seq<File>,
    git_changes_first: bool,
    i: int,
    j: int,
)
    requires
        0 <= i < j < files.len(),
        !git_changes_first || (sorted_files(
            files,
            SortKey::Size,
            SortOrder::Desc,
            git_changes_first,
        )[i].git_changes is Some <==> sorted_files(
            files,
            SortKey::Size,
            SortOrder::Desc,
            git_changes_first,
        )[j].git_changes is Some),
    ensures
        deep_size(sorted_files(files, SortKey::Size, SortOrder::Desc, git_changes_first)[i])
            >= deep_size(
            sorted_files(files, SortKey::Size, SortOrder::Desc, git_changes_first)[j],
        ),
{
    lemma_sorted_files_sorted(files, SortKey::Size, SortOrder::Desc, git_changes_first, i, j);
}

/// The file before the insertion point does not have to come after the new
/// file, and the file at the insertion point has to.
proof fn lemma_insertion_point_neighbours(
    sorted: Seq<File>,
    file: File,
    key: SortKey,
    direction: SortOrder,
    git_changes_first: bool,
)
    ensures
        ({
            let at = insertion_point(sorted, file, key, direction, git_changes_first);
            &&& 0 < at <= sorted.len() ==> file_order(
                key,
                direction,
                git_changes_first,
                sorted[at - 1],
                file,
            ) != Order::Greater
            &&& 0 <= at < sorted.len() ==> file_order(
                key,
                direction,
                git_changes_first,
                sorted[at],
                file,
            ) == Order::Greater
        }),
    decreases sorted.len(),
{
    if sorted.len() > 0 && file_order(key, direction, git_changes_first, sorted.last(), file)
        == Order::Greater {
        lemma_insertion_point_neighbours(
            sorted.drop_last(),
            file,
            key,
            direction,
            git_changes_first,
        );
        lemma_insertion_point_bounds(sorted.drop_last(), file, key, direction, git_changes_first);
    }
}

/// What is known of the tree below a file.
pub fn tree_stats_of(file: &File) -> (r: Option<TreeInfo>)
    ensures
        r == tree_stats(*file),
{
    match &file.tree_info {
        Some(job) => match job.peek() {
            Some(info) => info,
            None => None,
        },
        None => None,
    }
}

fn directory_stats_of(file: &File) -> (r: Option<TreeInfo>)
    ensures
        r == directory_stats(*file),
{
    match file.entry.metadata.kind {
        FileKind::Directory => tree_stats_of(file),
        _ => None,
    }
}

fn compare_numbered(x: u64, a: &[u8], y: u64, b: &[u8]) -> (r: Order)
    ensures
        r == numbered_order(x, a@, y, b@),
{
    if x != y {
        compare_numbers(x, y)
    } else {
        compare_bytes(a, b)
    }
}

fn compare_keys(key: SortKey, a: &File, b: &File) -> (r: Order)
    ensures
        r == key_order(key, *a, *b),
{
    let name_a = a.entry.file_name.as_slice();
    let name_b = b.entry.file_name.as_slice();
    match key {
        SortKey::DeepModificationTime => {
            let x = match directory_stats_of(a) {
                Some(info) => info.mtime,
                None => a.entry.metadata.mtime,
            };
            let y = match directory_stats_of(b) {
                Some(info) => info.mtime,
                None => b.entry.metadata.mtime,
            };
            compare_numbered(x, name_a, y, name_b)
        },
        SortKey::Name => compare_bytes(name_a, name_b),
        SortKey::Size => {
            let x = match directory_stats_of(a) {
                Some(info) => info.disk_usage,
                None => a.entry.metadata.len,
            };
            let y = match directory_stats_of(b) {
                Some(info) => info.disk_usage,
                None => b.entry.metadata.len,
            };
            compare_numbered(x, name_a, y, name_b)
        },
        SortKey::ModificationTime => compare_numbered(
            a.entry.metadata.mtime,
            name_a,
            b.entry.metadata.mtime,
            name_b,
        ),
        SortKey::Version => version_order_of(name_a, name_b),
    }
}

/// How two files of a group stand to each other.
pub fn compare_files(
    key: SortKey,
    direction: SortOrder,
    git_changes_first: bool,
    a: &File,
    b: &File,
) -> (r: Order)
    ensures
        r == file_order(key, direction, git_changes_first, *a, *b),
{
    if git_changes_first && a.git_changes.is_some() && b.git_changes.is_none() {
        return Order::Less;
    }
    if git_changes_first && a.git_changes.is_none() && b.git_changes.is_some() {
        return Order::Greater;
    }
    let order = compare_keys(key, a, b);
    match direction {
        SortOrder::Desc => match order {
            Order::Less => Order::Greater,
            Order::Equal => Order::Equal,
            Order::Greater => Order::Less,
        },
        SortOrder::Asc => order,
    }
}

/// Sorts the files by what is known of them.
pub fn sort_files(
    files: &mut Vec<File>,
    key: SortKey,
    direction: SortOrder,
    git_changes_first: bool,
)
    ensures
        final(files)@ == sorted_files(old(files)@, key, direction, git_changes_first),
{
    let ghost orig = files@;
    let mut i: usize = 0;
    assert(orig.take(0) =~= Seq::<File>::empty());
    assert(files@.skip(0) =~= orig.skip(0));
    while i < files.len()
        invariant
            files@.len() == orig.len(),
            i <= orig.len(),
            files@.take(i as int) == sorted_files(
                orig.take(i as int),
                key,
                direction,
                git_changes_first,
            ),
            files@.skip(i as int) == orig.skip(i as int),
        decreases orig.len() - i,
    {
        let ghost sorted = files@.take(i as int);
        assert(files@[i as int] == files@.skip(i as int)[0]);
        let ghost before = files@;
        let file = files.remove(i);
        assert(file == orig[i as int]);
        assert(files@.skip(i as int) =~= before.skip(i + 1));
        assert(before.skip(i + 1) =~= orig.skip(i + 1)) by {
            assert forall|k: int| 0 <= k < orig.len() - i - 1 implies #[trigger] before.skip(
                i + 1,
            )[k] == orig.skip(i + 1)[k] by {
                assert(before.skip(i as int)[k + 1] == orig.skip(i as int)[k + 1]);
            }
        }
        assert(files@.take(i as int) =~= sorted);
        let mut j: usize = i;
        assert(sorted.take(j as int) =~= sorted);
        while j > 0 && compare_files(key, direction, git_changes_first, &files[j - 1], &file)
            == Order::Greater
            invariant
                j <= i,
                i < orig.len(),
                files@.len() == orig.len() - 1,
                sorted == files@.take(i as int),
                files@.skip(i as int) == orig.skip(i + 1),
                insertion_point(sorted, file, key, direction, git_changes_first)
                    == insertion_point(
                    sorted.take(j as int),
                    file,
                    key,
                    direction,
                    git_changes_first,
                ),
            decreases j,
        {
            assert(sorted.take(j as int).last() == files@[j - 1]);
            assert(sorted.take(j as int).drop_last() =~= sorted.take(j - 1));
            j -= 1;
        }
        proof {
            if j > 0 {
                assert(sorted.take(j as int).last() == files@[j - 1]);
            }
            assert(sorted.take(j as int).len() == j);
        }
        let ghost rest = files@.skip(i as int);
        files.insert(j, file);
        proof {
            let longer = orig.take(i + 1);
            assert(longer.drop_last() =~= orig.take(i as int));
            assert(longer.last() == file);
            assert(files@.take(i + 1) =~= sorted.insert(j as int, file));
            assert(files@.skip(i + 1) =~= rest);
        }
        i += 1;
    }
    assert(files@.take(i as int) =~= files@);
    assert(orig.take(i as int) =~= orig);
}

/// Whether a sort key speaks of what is below a file.
pub open spec fn is_deep(key: SortKey) -> bool {
    key == SortKey::DeepModificationTime || key == SortKey::Size
}

/// `after` holds the files of `before`, with more of their trees known:
/// nothing else differs, and what was known of a tree stays.
pub open spec fn settles(before: Seq<File>, after: Seq<File>) -> bool {
    &&& after.len() == before.len()
    &&& forall|k: int|
        #![trigger after[k]]
        0 <= k < before.len() ==> {
            &&& after[k].entry == before[k].entry
            &&& after[k].git_changes == before[k].git_changes
            &&& after[k].tree_info is Some <==> before[k].tree_info is Some
            &&& before[k].tree_info matches Some(job) ==> (job.settled() is Some
                ==> after[k].tree_info.unwrap().settled() == job.settled())
        }
}

/// Whether the trees of all the files are settled.
pub open spec fn all_settled(files: Seq<File>) -> bool {
    forall|k: int|
        0 <= k < files.len() ==> ((#[trigger] files[k]).tree_info matches Some(job)
            ==> job.settled() is Some)
}

/// The sort of a column: by name, in ascending order, unless the column
/// says otherwise.
pub open spec fn sort_spec_of(sort: Option<SortSpec>) -> SortSpec {
    match sort {
        Some(spec) => spec,
        None => SortSpec(SortKey::Name, SortOrder::Asc),
    }
}

/// Waits for the trees of all the files.
pub fn settle_files(files: &mut Vec<File>)
    ensures
        settles(old(files)@, final(files)@),
        all_settled(final(files)@),
{
    let ghost orig = files@;
    let mut i: usize = 0;
    while i < files.len()
        invariant
            i <= files@.len(),
            settles(orig, files@),
            forall|k: int|
                0 <= k < i ==> ((#[trigger] files@[k]).tree_info matches Some(job)
                    ==> job.settled() is Some),
        decreases files@.len() - i,
    {
        let ghost before = files@;
        let file = &mut files[i];
        match &mut file.tree_info {
            Some(job) => {
                job.get();
            },
            None => {},
        }
        assert(settles(orig, files@)) by {
            assert forall|k: int| 0 <= k < orig.len() implies {
                &&& (#[trigger] files@[k]).entry == orig[k].entry
                &&& files@[k].git_changes == orig[k].git_changes
                &&& files@[k].tree_info is Some <==> orig[k].tree_info is Some
                &&& orig[k].tree_info matches Some(job) ==> (job.settled() is Some
                    ==> files@[k].tree_info.unwrap().settled() == job.settled())
            } by {
                if k != i {
                    assert(files@[k] == before[k]);
                }
            }
        }
        i += 1;
    }
}

/// Whether `after` is the group `before` with its files sorted by the sort
/// of its column: where the sort looks below the files, the trees of all of
/// them were settled first, and the files are sorted by what is then known
/// of them.
pub open spec fn is_sorted_group(before: FilesGroup, after: FilesGroup) -> bool {
    &&& after.column == before.column
    &&& exists|settled: Seq<File>|
        {
            &&& #[trigger] settles(before.files@, settled)
            &&& is_deep(sort_spec_of(before.column.sort).0) ==> all_settled(settled)
            &&& after.files@ == sorted_files(
                settled,
                sort_spec_of(before.column.sort).0,
                sort_spec_of(before.column.sort).1,
                before.column.git_changes_first,
            )
        }
}

/// Sort the files in a `FilesGroup`, by the sort of its column.
///
/// Where the sort looks below the files, their trees are awaited first. The
/// files are then sorted by what is known of them.
pub fn sort(group: &mut FilesGroup)
    ensures
        is_sorted_group(*old(group), *final(group)),
{
    let SortSpec(key, direction) = match group.column.sort {
        Some(spec) => spec,
        None => SortSpec(SortKey::Name, SortOrder::Asc),
    };
    let git_changes_first = group.column.git_changes_first;
    match key {
        SortKey::DeepModificationTime | SortKey::Size => {
            settle_files(&mut group.files);
        },
        _ => {},
    }
    let ghost settled = group.files@;
    sort_files(&mut group.files, key, direction, git_changes_first);
    proof {
        assert(settles(old(group).files@, settled));
        assert(is_deep(key) ==> all_settled(settled));
        assert(group.files@ == sorted_files(settled, key, direction, git_changes_first));
        assert(SortSpec(key, direction) == sort_spec_of(old(group).column.sort));
        assert(git_changes_first == old(group).column.git_changes_first);
    }
}

} // verus!
