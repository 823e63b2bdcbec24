//! This module provides the [`analyze_path`] function.
//!
//! It takes the contents of a directory, and processes them according to the
//! configuration settings. Its output is used by [`render_groups`] to generate
//! the final columns.
//!
//! [`render_groups`]: super::render::render_groups

use vstd::prelude::*;

use crate::config::{Column, Info, Matcher, Root};
use crate::summarizer::gitdiff::{lookup, total_change, Change, Changes};
use crate::summarizer::matchers::{is_match, matched};
use crate::summarizer::sorting::{is_sorted_group, sort};
use crate::summarizer::{Analysis, Entry, File, FileKind, FileView, FilesGroup, Metadata};
use crate::summarizer::file_views;

verus! {

/// The stats of the changes, where there are any.
pub open spec fn stats_of(diff_stats: Option<Changes>) -> Option<Seq<(Seq<u8>, Change)>> {
    match diff_stats {
        Some(changes) => Some(changes@),
        None => None,
    }
}

/// The changes of an entry, where the changes of the directory are known
/// and hold some for the entry.
pub open spec fn change_of(stats: Option<Seq<(Seq<u8>, Change)>>, name: Seq<u8>) -> Option<Change> {
    match stats {
        Some(entries) => lookup(entries, name),
        None => None,
    }
}

/// Whether an entry belongs to the group of a column: no matcher of the
/// exclusions accepts it, and it matches the matchers of the column.
pub open spec fn belongs(
    column: Column,
    entry: Entry,
    stats: Option<Seq<(Seq<u8>, Change)>>,
    now: Option<u64>,
) -> bool {
    let change = change_of(stats, entry.file_name@);
    !matched(entry, change, true, column.exclude@, now) && matched(
        entry,
        change,
        column.include_hidden,
        column.matchers@,
        now,
    )
}

/// An entry as a file of a group: it has the changes of its name, and its
/// tree is not read yet.
pub open spec fn placed(entry: Entry, stats: Option<Seq<(Seq<u8>, Change)>>) -> FileView {
    FileView {
        entry: entry@,
        git_changes: change_of(stats, entry.file_name@),
        tree_info: None,
    }
}

/// The files of the group of a column: the entries that belong to it, in
/// the order of the entries.
pub open spec fn group_files(
    column: Column,
    entries: Seq<Entry>,
    stats: Option<Seq<(Seq<u8>, Change)>>,
    now: Option<u64>,
) -> Seq<FileView>
    decreases entries.len(),
{
    if entries.len() == 0 {
        Seq::empty()
    } else {
        let before = group_files(column, entries.drop_last(), stats, now);
        if belongs(column, entries.last(), stats, now) {
            before.push(placed(entries.last(), stats))
        } else {
            before
        }
    }
}

/// The number of entries that match the matchers of a counter. Counters
/// count hidden files too.
pub open spec fn counted(
    matchers: Seq<Matcher>,
    entries: Seq<Entry>,
    stats: Option<Seq<(Seq<u8>, Change)>>,
    now: Option<u64>,
) -> nat
    decreases entries.len(),
{
    if entries.len() == 0 {
        0
    } else {
        counted(matchers, entries.drop_last(), stats, now) + if matched(
            entries.last(),
            change_of(stats, entries.last().file_name@),
            true,
            matchers,
            now,
        ) {
            1nat
        } else {
            0nat
        }
    }
}

/// The sum of the sizes of the entries that are files.
pub open spec fn files_size(entries: Seq<Entry>) -> nat
    decreases entries.len(),
{
    if entries.len() == 0 {
        0
    } else {
        files_size(entries.drop_last()) + if entries.last().metadata.kind == FileKind::File {
            entries.last().metadata.len as nat
        } else {
            0nat
        }
    }
}

/// A size, held at `u64::MAX` where it does not fit.
pub open spec fn capped_size(size: nat) -> u64 {
    if size > u64::MAX {
        u64::MAX
    } else {
        size as u64
    }
}

/// Whether the groups are those of the columns, each with the entries that
/// belong to it.
pub open spec fn groups_of(
    groups: Seq<FilesGroup>,
    columns: Seq<Column>,
    entries: Seq<Entry>,
    stats: Option<Seq<(Seq<u8>, Change)>>,
    now: Option<u64>,
) -> bool {
    &&& groups.len() == columns.len()
    &&& forall|g: int|
        0 <= g < groups.len() ==> {
            &&& *(#[trigger] groups[g]).column == columns[g]
            &&& file_views(groups[g].files@) == group_files(columns[g], entries, stats, now)
        }
}

/// The counters of the info boxes.
pub open spec fn counters_of(info: Option<Info>) -> Seq<(String, Vec<Matcher>)> {
    match info {
        Some(i) => i.variables@,
        None => Seq::empty(),
    }
}

/// Whether the counts are those of the counters.
pub open spec fn counts_of(
    variables: Seq<(String, usize)>,
    counters: Seq<(String, Vec<Matcher>)>,
    entries: Seq<Entry>,
    stats: Option<Seq<(Seq<u8>, Change)>>,
    now: Option<u64>,
) -> bool {
    &&& variables.len() == counters.len()
    &&& forall|v: int|
        0 <= v < variables.len() ==> {
            &&& (#[trigger] variables[v]).0@ == counters[v].0@
            &&& variables[v].1 == counted(counters[v].1@, entries, stats, now)
        }
}

fn change_for(diff_stats: &Option<Changes>, name: &[u8]) -> (change: Option<Change>)
    ensures
        change == change_of(stats_of(*diff_stats), name@),
{
    match diff_stats {
        Some(changes) => changes.get(name),
        None => None,
    }
}

fn copy_of(entry: &Entry) -> (copy: Entry)
    ensures
        copy@ == entry@,
{
    Entry {
        file_name: vstd::slice::slice_to_vec(entry.file_name.as_slice()),
        metadata: entry.metadata,
        mime_type: entry.mime_type,
        ls_style: entry.ls_style,
    }
}

/// Finds the entries of the group of a column.
fn collect_group<'a>(
    column: &'a Column,
    entries: &Vec<Entry>,
    diff_stats: &Option<Changes>,
    now: Option<u64>,
) -> (group: FilesGroup<'a>)
    ensures
        *group.column == *column,
        file_views(group.files@) == group_files(*column, entries@, stats_of(*diff_stats), now),
{
    let ghost stats = stats_of(*diff_stats);
    let mut files: Vec<File> = Vec::new();
    let mut i: usize = 0;
    assert(entries@.take(0) =~= Seq::<Entry>::empty());
    assert(file_views(files@) =~= Seq::<FileView>::empty());
    while i < entries.len()
        invariant
            i <= entries@.len(),
            stats == stats_of(*diff_stats),
            file_views(files@) == group_files(*column, entries@.take(i as int), stats, now),
        decreases entries@.len() - i,
    {
        let entry = &entries[i];
        proof {
            let longer = entries@.take(i + 1);
            assert(longer.drop_last() =~= entries@.take(i as int));
            assert(longer.last() == *entry);
        }
        let change = change_for(diff_stats, entry.file_name.as_slice());
        let change_ref = match &change {
            Some(c) => Some(c),
            None => None,
        };
        if !is_match(entry, change_ref, true, &column.exclude, now) && is_match(
            entry,
            change_ref,
            column.include_hidden,
            &column.matchers,
            now,
        ) {
            let ghost before = file_views(files@);
            files.push(File { entry: copy_of(entry), git_changes: change, tree_info: None });
            assert(file_views(files@) =~= before.push(placed(*entry, stats)));
        }
        i += 1;
    }
    assert(entries@.take(i as int) =~= entries@);
    FilesGroup { column, files }
}

/// Counts the entries that match the matchers of a counter.
fn count_entries(
    matchers: &Vec<Matcher>,
    entries: &Vec<Entry>,
    diff_stats: &Option<Changes>,
    now: Option<u64>,
) -> (count: usize)
    ensures
        count == counted(matchers@, entries@, stats_of(*diff_stats), now),
{
    let ghost stats = stats_of(*diff_stats);
    let mut count: usize = 0;
    let mut i: usize = 0;
    assert(entries@.take(0) =~= Seq::<Entry>::empty());
    while i < entries.len()
        invariant
            i <= entries@.len(),
            stats == stats_of(*diff_stats),
            count == counted(matchers@, entries@.take(i as int), stats, now),
            count <= i,
        decreases entries@.len() - i,
    {
        let entry = &entries[i];
        proof {
            let longer = entries@.take(i + 1);
            assert(longer.drop_last() =~= entries@.take(i as int));
            assert(longer.last() == *entry);
        }
        let change = change_for(diff_stats, entry.file_name.as_slice());
        let change_ref = match &change {
            Some(c) => Some(c),
            None => None,
        };
        if is_match(entry, change_ref, true, matchers, now) {
            count += 1;
        }
        i += 1;
    }
    assert(entries@.take(i as int) =~= entries@);
    count
}

/// The sum of the sizes of the entries that are files.
fn size_of_files(entries: &Vec<Entry>) -> (size: u64)
    ensures
        size == capped_size(files_size(entries@)),
{
    let mut size: u64 = 0;
    let mut i: usize = 0;
    assert(entries@.take(0) =~= Seq::<Entry>::empty());
    while i < entries.len()
        invariant
            i <= entries@.len(),
            size == capped_size(files_size(entries@.take(i as int))),
        decreases entries@.len() - i,
    {
        let entry = &entries[i];
        proof {
            let longer = entries@.take(i + 1);
            assert(longer.drop_last() =~= entries@.take(i as int));
            assert(longer.last() == *entry);
        }
        if entry.metadata.kind == FileKind::File {
            size = size.saturating_add(entry.metadata.len);
        }
        i += 1;
    }
    assert(entries@.take(i as int) =~= entries@);
    size
}

/// Finds the groups of the columns.
fn collect_groups<'a>(
    columns: &'a Vec<Column>,
    entries: &Vec<Entry>,
    diff_stats: &Option<Changes>,
    now: Option<u64>,
) -> (groups: Vec<FilesGroup<'a>>)
    ensures
        groups_of(groups@, columns@, entries@, stats_of(*diff_stats), now),
{
    let mut groups: Vec<FilesGroup<'a>> = Vec::new();
    let mut g: usize = 0;
    while g < columns.len()
        invariant
            g <= columns@.len(),
            groups_of(groups@, columns@.take(g as int), entries@, stats_of(*diff_stats), now),
        decreases columns@.len() - g,
    {
        let group = collect_group(&columns[g], entries, diff_stats, now);
        groups.push(group);
        g += 1;
    }
    assert(columns@.take(g as int) =~= columns@);
    groups
}

/// Counts the entries of each counter.
fn count_variables(
    counters: &Vec<(String, Vec<Matcher>)>,
    entries: &Vec<Entry>,
    diff_stats: &Option<Changes>,
    now: Option<u64>,
) -> (variables: Vec<(String, usize)>)
    ensures
        counts_of(variables@, counters@, entries@, stats_of(*diff_stats), now),
{
    let mut variables: Vec<(String, usize)> = Vec::new();
    let mut v: usize = 0;
    while v < counters.len()
        invariant
            v <= counters@.len(),
            counts_of(
                variables@,
                counters@.take(v as int),
                entries@,
                stats_of(*diff_stats),
                now,
            ),
        decreases counters@.len() - v,
    {
        let count = count_entries(&counters[v].1, entries, diff_stats, now);
        variables.push((counters[v].0.clone(), count));
        v += 1;
    }
    assert(counters@.take(v as int) =~= counters@);
    variables
}

/// Analyzes the entries that were read from a directory.
///
/// Every entry goes to the group of every column that it belongs to. The
/// groups are not sorted yet, and no tree is read yet.
pub fn analyze_path<'a>(
    path: String,
    entries: &Vec<Entry>,
    diff_stats: &Option<Changes>,
    config: &'a Root,
    now: Option<u64>,
) -> (analysis: Analysis<'a>)
    ensures
        analysis.path == path,
        groups_of(analysis.groups@, config.columns@, entries@, stats_of(*diff_stats), now),
        counts_of(
            analysis.variables@,
            counters_of(config.info),
            entries@,
            stats_of(*diff_stats),
            now,
        ),
        analysis.changes == match stats_of(*diff_stats) {
            Some(stats) => Some(total_change(stats)),
            None => None,
        },
        analysis.disk_usage_files == capped_size(files_size(entries@)),
        config.wf() ==> analysis.wf(),
{
    // A group contains the column definition and the files for it.
    let groups = collect_groups(&config.columns, entries, diff_stats, now);
    // Find variables to track the entries.
    let variables = match &config.info {
        Some(info) => count_variables(&info.variables, entries, diff_stats, now),
        None => Vec::new(),
    };
    let changes = match diff_stats {
        Some(stats) => Some(stats.sum()),
        None => None,
    };
    Analysis { path, groups, variables, changes, disk_usage_files: size_of_files(entries) }
}

/// Whether the tree below a file is to be read: trees are read for
/// directories, where the collector of disk usage is enabled.
pub fn needs_tree_info(file: &File, config: &Root) -> (r: bool)
    ensures
        r == (config.collector.disk_usage && file.entry.metadata.kind == FileKind::Directory),
{
    config.collector.disk_usage && file.entry.metadata.kind == FileKind::Directory
}

/// Whether the groups are those of `before`, each sorted by the sort of its
/// column.
pub open spec fn sorted_groups(before: Seq<FilesGroup>, after: Seq<FilesGroup>) -> bool {
    &&& after.len() == before.len()
    &&& forall|g: int|
        0 <= g < before.len() ==> is_sorted_group(before[g], #[trigger] after[g])
}

/// Sorts the contents of every group.
pub fn sort_groups(analysis: &mut Analysis)
    ensures
        final(analysis).path == old(analysis).path,
        final(analysis).variables == old(analysis).variables,
        final(analysis).changes == old(analysis).changes,
        final(analysis).disk_usage_files == old(analysis).disk_usage_files,
        sorted_groups(old(analysis).groups@, final(analysis).groups@),
{
    let ghost before = analysis.groups@;
    let mut g: usize = 0;
    while g < analysis.groups.len()
        invariant
            g <= analysis.groups@.len(),
            analysis.groups@.len() == before.len(),
            analysis.path == old(analysis).path,
            analysis.variables == old(analysis).variables,
            analysis.changes == old(analysis).changes,
            analysis.disk_usage_files == old(analysis).disk_usage_files,
            forall|k: int| 0 <= k < g ==> is_sorted_group(before[k], #[trigger] analysis.groups@[k]),
            forall|k: int| g <= k < before.len() ==> analysis.groups@[k] == before[k],
        decreases analysis.groups@.len() - g,
    {
        sort(&mut analysis.groups[g]);
        g += 1;
    }
}

} // verus!
