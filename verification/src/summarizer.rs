//! Classification, sorting and rendering of the entries of a directory.

pub mod analyzer;
pub mod diskusage;
pub mod exts;
pub mod gitdiff;
pub mod info;
pub mod matchers;
pub mod render;
pub mod sorting;
pub mod treereader;

use vstd::prelude::*;

use crate::config;
use crate::config::MimeType;
use crate::display::styles::Style;
use crate::display::Screen;
use crate::summarizer::analyzer::{sort_groups, sorted_groups};
use crate::summarizer::gitdiff::Change;
use crate::summarizer::render::{render_groups, screen_of};
use crate::summarizer::sorting::{all_settled, settle_files, settles};
use crate::summarizer::treereader::{TreeInfo, TreeInfoJob};

verus! {

/// What an entry of a directory is.
#[derive(Clone, Copy, Debug, PartialEq, Eq, Structural)]
pub enum FileKind {
    BlockDev,
    CharDev,
    Directory,
    File,
    Fifo,
    Socket,
    SymLink,
    Other,
}

/// What the file system tells about an entry.
#[derive(Clone, Copy, Debug, PartialEq, Eq, Structural)]
pub struct Metadata {
    pub kind: FileKind,
    /// The permission bits.
    pub mode: u32,
    /// The size in bytes.
    pub len: u64,
    /// The time of the last modification, in seconds since the epoch.
    pub mtime: u64,
    /// The time of the last modification, in nanoseconds since the epoch,
    /// where it is known.
    pub modified: Option<u64>,
}

/// How two things stand to each other in an order.
#[derive(Clone, Copy, Debug, PartialEq, Eq, Structural)]
pub enum Order {
    Less,
    Equal,
    Greater,
}

/// One child of the directory, as it was read.
pub struct Entry {
    /// The name, which need not be valid text.
    pub file_name: Vec<u8>,
    pub metadata: Metadata,
    /// The class of the contents, as the extension of the name tells it.
    pub mime_type: Option<MimeType>,
    /// The style that the colour scheme of the environment gives the entry.
    pub ls_style: Option<Style>,
}

/// An entry that was put in a group.
pub struct File {
    pub entry: Entry,
    pub git_changes: Option<Change>,
    /// What the tree below the entry holds, where the entry is a directory
    /// and trees are read.
    pub tree_info: Option<TreeInfoJob>,
}

/// A column of the configuration with the entries that matched it.
pub struct FilesGroup<'a> {
    pub column: &'a config::Column,
    pub files: Vec<File>,
}

/// What an entry holds.
pub ghost struct EntryView {
    pub file_name: Seq<u8>,
    pub metadata: Metadata,
    pub mime_type: Option<MimeType>,
    pub ls_style: Option<Style>,
}

impl View for Entry {
    type V = EntryView;

    open spec fn view(&self) -> EntryView {
        EntryView {
            file_name: self.file_name@,
            metadata: self.metadata,
            mime_type: self.mime_type,
            ls_style: self.ls_style,
        }
    }
}

/// What a file of a group holds.
pub ghost struct FileView {
    pub entry: EntryView,
    pub git_changes: Option<Change>,
    /// Whether the tree below the file is read and, where it is, what is
    /// settled of it.
    pub tree_info: Option<Option<Option<TreeInfo>>>,
}

impl View for File {
    type V = FileView;

    open spec fn view(&self) -> FileView {
        FileView {
            entry: self.entry@,
            git_changes: self.git_changes,
            tree_info: match self.tree_info {
                Some(job) => Some(job.settled()),
                None => None,
            },
        }
    }
}

/// The views of a list of files.
pub open spec fn file_views(files: Seq<File>) -> Seq<FileView> {
    Seq::new(files.len(), |i: int| files[i]@)
}

/// Data collected by the analyzer.
pub struct Analysis<'a> {
    /// The directory that was read, as it is shown.
    pub path: String,
    pub groups: Vec<FilesGroup<'a>>,
    /// The counters of the info boxes, each with the number of entries that
    /// it counted. No name occurs twice.
    pub variables: Vec<(String, usize)>,
    /// The changes of the whole directory, where they are known.
    pub changes: Option<Change>,
    /// The sum of the sizes of the files of the directory.
    pub disk_usage_files: u64,
}

impl<'a> Analysis<'a> {
    /// No two counters have the same name.
    pub open spec fn wf(&self) -> bool {
        config::distinct_names(self.variables@)
    }
}

/// Whether the groups are those of `before` with the trees of all their
/// files settled.
pub open spec fn settled_groups(before: Seq<FilesGroup>, after: Seq<FilesGroup>) -> bool {
    &&& after.len() == before.len()
    &&& forall|g: int|
        0 <= g < before.len() ==> {
            &&& (#[trigger] after[g]).column == before[g].column
            &&& settles(before[g].files@, after[g].files@)
            &&& all_settled(after[g].files@)
        }
}

/// Whether `ready` is the analysis `before` made ready to be shown: its
/// groups were sorted, and the trees of all their files were settled then.
pub open spec fn is_ready(before: Analysis, ready: Analysis) -> bool {
    &&& ready.path == before.path
    &&& ready.variables == before.variables
    &&& ready.changes == before.changes
    &&& ready.disk_usage_files == before.disk_usage_files
    &&& exists|sorted: Seq<FilesGroup>|
        #[trigger] sorted_groups(before.groups@, sorted) && settled_groups(sorted, ready.groups@)
}

/// Waits for the trees of all the files of all the groups.
pub fn settle_groups(analysis: &mut Analysis)
    ensures
        final(analysis).path == old(analysis).path,
        final(analysis).variables == old(analysis).variables,
        final(analysis).changes == old(analysis).changes,
        final(analysis).disk_usage_files == old(analysis).disk_usage_files,
        settled_groups(old(analysis).groups@, final(analysis).groups@),
{
    let ghost before = analysis.groups@;
    let mut g: usize = 0;
    while g < analysis.groups.len()
        invariant
            g <= analysis.groups@.len(),
            analysis.groups@.len() == before.len(),
            analysis.path == old(analysis).path,
            analysis.variables == old(analysis).variables,
            analysis.changes == old(analysis).changes,
            analysis.disk_usage_files == old(analysis).disk_usage_files,
            forall|k: int|
                0 <= k < g ==> {
                    &&& (#[trigger] analysis.groups@[k]).column == before[k].column
                    &&& settles(before[k].files@, analysis.groups@[k].files@)
                    &&& all_settled(analysis.groups@[k].files@)
                },
            forall|k: int| g <= k < before.len() ==> analysis.groups@[k] == before[k],
        decreases analysis.groups@.len() - g,
    {
        let group = &mut analysis.groups[g];
        settle_files(&mut group.files);
        g += 1;
    }
}

/// Builds the elements required to display the columns defined in `config`
/// from what the analyzer found in a directory.
///
/// The groups are sorted, the trees that are still read are awaited, and
/// the screen is built from what is known then.
pub fn process(
    analysis: Analysis,
    config: &config::Root,
    home: &Option<String>,
    now: Option<u64>,
) -> (screen: Screen)
    ensures
        exists|ready: Analysis|
            #[trigger] is_ready(analysis, ready) && screen@ == screen_of(
                ready,
                *config,
                *home,
                now,
            ),
{
    let mut analysis = analysis;
    let ghost before = analysis;
    sort_groups(&mut analysis);
    let ghost sorted = analysis.groups@;
    settle_groups(&mut analysis);
    let screen = render_groups(&analysis, config, home, now);
    proof {
        assert(sorted_groups(before.groups@, sorted));
        assert(settled_groups(sorted, analysis.groups@));
        assert(is_ready(before, analysis));
    }
    screen
}

} // verus!
