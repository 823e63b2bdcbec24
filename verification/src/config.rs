//! The settings of a run: which entries go to which column, how they are
//! sorted and styled, and what the collectors may do.

pub mod loader;

use vstd::prelude::*;

use crate::display::styles;

pub use loader::load;

verus! {

/// A compiled set of globs of `globset`.
#[verifier::external_type_specification]
#[verifier::external_body]
pub struct ExGlobSet(globset::GlobSet);

/// The builder of a set of globs.
#[verifier::external_type_specification]
#[verifier::external_body]
pub struct ExGlobSetBuilder(globset::GlobSetBuilder);

/// The error of `globset`.
#[verifier::external_type_specification]
#[verifier::external_body]
pub struct ExGlobSetError(globset::Error);

/// Whether `globset` accepts `pattern` as a glob.
pub uninterp spec fn glob_parses(pattern: Seq<char>) -> bool;

/// The globs that were added to a builder, in the order in which they were
/// added.
pub uninterp spec fn builder_patterns(builder: globset::GlobSetBuilder) -> Seq<Seq<char>>;

/// Whether `globset` compiles a set from these globs, read with the default
/// options: it refuses sets whose automaton would be too large.
pub uninterp spec fn glob_set_compiles(patterns: Seq<Seq<char>>) -> bool;

/// Whether any glob of `set` matches the path `path`.
pub uninterp spec fn glob_set_accepts(set: globset::GlobSet, path: Seq<u8>) -> bool;

/// Whether any of these globs, read with the default options, matches the
/// path `path`.
pub uninterp spec fn patterns_accept(patterns: Seq<Seq<char>>, path: Seq<u8>) -> bool;

/// Whether `regex` matches anywhere in `text`.
pub uninterp spec fn regex_accepts(regex: Regex, text: Seq<char>) -> bool;

/// Parses one glob with the default options and adds it to a builder.
/// Returns whether the glob was well formed; a malformed one is not added.
///
/// Trusted: this is `globset::Glob::new`, followed by
/// `globset::GlobSetBuilder::add` where it succeeds. The contract gives a
/// name to the patterns that the parser accepts, and says that the builder
/// holds one more glob, at its end, where the pattern was accepted.
#[verifier::external_body]
fn add_glob(builder: &mut globset::GlobSetBuilder, pattern: &str) -> (added: bool)
    ensures
        added == glob_parses(pattern@),
        builder_patterns(*final(builder)) == if added {
            builder_patterns(*old(builder)).push(pattern@)
        } else {
            builder_patterns(*old(builder))
        },
{
    match globset::Glob::new(pattern) {
        Ok(glob) => {
            builder.add(glob);
            true
        },
        Err(_) => false,
    }
}

/// An empty builder.
///
/// Trusted: this is `globset::GlobSetBuilder::new`, which gives a builder
/// without globs.
pub assume_specification[ globset::GlobSetBuilder::new ]() -> (builder: globset::GlobSetBuilder)
    ensures
        builder_patterns(builder) == Seq::<Seq<char>>::empty(),
;

/// Compiles the globs of a builder.
///
/// Trusted: this is `globset::GlobSetBuilder::build`. Whether it succeeds,
/// and what the set that it gives matches, depends on the globs of the
/// builder alone, which are read with the default options wherever this
/// library adds them; the contract gives both a name.
pub assume_specification[ globset::GlobSetBuilder::build ](
    builder: &globset::GlobSetBuilder,
) -> (r: Result<globset::GlobSet, globset::Error>)
    ensures
        r is Ok <==> glob_set_compiles(builder_patterns(*builder)),
        r matches Ok(set) ==> forall|path: Seq<u8>|
            #[trigger] glob_set_accepts(set, path) == patterns_accept(
                builder_patterns(*builder),
                path,
            ),
;

/// Whether any glob of `set` matches `path`.
///
/// Trusted: this is `globset::GlobSet::is_match_candidate` on the candidate
/// that `globset::Candidate::from_bytes` makes of the path. The contract
/// gives the answer a name: it depends on the set and on the path alone.
#[verifier::external_body]
pub(crate) fn glob_set_is_match(set: &globset::GlobSet, path: &[u8]) -> (r: bool)
    ensures
        r == glob_set_accepts(*set, path@),
{
    set.is_match_candidate(&globset::Candidate::from_bytes(path))
}

/// Whether `regex` matches anywhere in `text`.
///
/// Trusted: this is `regex::Regex::is_match`. The contract gives the answer
/// a name: it depends on the expression and on the text alone.
#[verifier::external_body]
pub(crate) fn regex_is_match(regex: &Regex, text: &str) -> (r: bool)
    ensures
        r == regex_accepts(*regex, text@),
{
    regex.0.is_match(text)
}

/// The settings of a run.
pub struct Root {
    pub colors: Option<Colors>,
    pub grid: Grid,
    pub columns: Vec<Column>,
    pub info: Option<Info>,
    pub collector: Collector,
}

/// The colours of the output, and the style rules of the entries.
pub struct Colors {
    pub when: Option<ColorsWhen>,
    pub use_lscolors: LsColors,
    pub column_label: Option<Color>,
    pub name_ellipsis: Option<Color>,
    pub more_entries: Option<Color>,
    pub diff_added: Option<Color>,
    pub diff_deleted: Option<Color>,
    pub disk_usage: Option<Color>,
    pub styles: Vec<Style>,
    /// Files that hold more styles, relative to the configuration file.
    pub style_files: Vec<String>,
}

#[derive(Clone, Copy, Debug, PartialEq, Eq, Structural)]
/// When colours are used: always, never, or only on a terminal.
pub enum ColorsWhen {
    Auto,
    Always,
    Never,
}

#[derive(Debug, PartialEq, Eq)]
/// Where the colour scheme of the environment comes from.
pub enum LsColors {
    /// Whether to read the colour scheme from `LS_COLORS`.
    Bool(bool),
    /// The variable to read the colour scheme from.
    VarName(String),
}

/// A style rule: what to add to the entries that the matchers accept.
pub struct Style {
    pub matchers: Vec<Matcher>,
    pub color: Option<Color>,
    pub indicator: Option<Indicator>,
}

#[derive(Debug, PartialEq)]
/// A mark that a style rule puts beside the names of its entries.
pub enum Indicator {
    Plain(String),
    Attrs { text: String, color: Option<Color> },
}

impl Indicator {
    /// The text of the indicator, and its style.
    pub open spec fn spec_get(&self) -> (Seq<char>, Option<styles::Style>) {
        match self {
            Indicator::Plain(s) => (s@, None),
            Indicator::Attrs { text, color } => (
                text@,
                match color {
                    Some(c) => Some(c.style),
                    None => None,
                },
            ),
        }
    }

    /// The text of the indicator, and its style.
    pub fn get(&self) -> (r: (&str, Option<styles::Style>))
        ensures
            (r.0@, r.1) == self.spec_get(),
    {
        match self {
            Indicator::Plain(s) => (s.as_str(), None),
            Indicator::Attrs { text, color } => (
                text.as_str(),
                match color {
                    Some(c) => Some(c.style),
                    None => None,
                },
            ),
        }
    }
}

/// The limits of the grid. A limit of zero is no limit.
#[derive(Clone, Copy, Debug, PartialEq, Eq, Structural)]
pub struct Grid {
    pub max_rows: Option<usize>,
    pub max_name_width: Option<usize>,
    pub column_padding: Option<usize>,
}

impl Default for Grid {
    fn default() -> (grid: Grid)
        ensures
            grid == (Grid { max_rows: None, max_name_width: None, column_padding: None }),
    {
        Grid { max_rows: None, max_name_width: None, column_padding: None }
    }
}

/// A column of the output: the entries that go to it, and how they are
/// sorted and shown.
pub struct Column {
    pub include_hidden: bool,
    pub label: Option<String>,
    /// The limit on the width of the names of this column. Zero is no limit.
    pub max_name_width: Option<usize>,
    pub matchers: Vec<Matcher>,
    pub exclude: Vec<Matcher>,
    pub git_changes_first: bool,
    pub color: Option<Color>,
    pub sort: Option<SortSpec>,
}

#[derive(Clone, Copy, Debug, PartialEq, Eq, Structural)]
/// The sort of a column: its key and its direction.
pub struct SortSpec(pub SortKey, pub SortOrder);

#[derive(Clone, Copy, Debug, PartialEq, Eq, Structural)]
/// What the entries of a column are sorted by.
pub enum SortKey {
    DeepModificationTime,
    Name,
    Size,
    ModificationTime,
    Version,
}

#[derive(Clone, Copy, Debug, PartialEq, Eq, Structural)]
/// The direction of a sort.
pub enum SortOrder {
    Asc,
    Desc,
}

/// A condition on an entry. Matchers can be combined with `All` and `Not`.
pub enum Matcher {
    Any,
    All(Vec<Matcher>),
    Changes(Changes),
    Glob(Glob),
    Mime(MimeType),
    Not(Box<Matcher>),
    Regex(Regex),
    Type(FileType),
}

#[derive(Clone, Copy, Debug, PartialEq, Eq, Structural)]
/// The kinds of change that a `changes` matcher asks for.
pub enum Changes {
    /// The entry has changes in the repository.
    Git,
    /// The entry was modified less than this many nanoseconds ago.
    Duration(u64),
}

#[derive(Debug, PartialEq)]
/// A style, with the description that it was read from.
pub struct Color {
    pub original: String,
    pub style: styles::Style,
}

/// A set of globs, with the patterns that it was compiled from.
pub struct Glob {
    pub original: Vec<String>,
    pub globs: globset::GlobSet,
}

/// Why a list of globs can't be used.
#[derive(Clone, Copy, Debug, PartialEq, Eq, Structural)]
pub enum GlobError {
    /// The glob at this position is malformed.
    Pattern(usize),
    /// The globs are well formed, but can't be compiled together.
    Compile,
}

/// The views of a list of strings.
pub open spec fn texts(strings: Seq<String>) -> Seq<Seq<char>> {
    Seq::new(strings.len(), |i: int| strings[i]@)
}

/// The position of the first glob that is malformed, if there is one.
pub open spec fn first_malformed(globs: Seq<Seq<char>>) -> Option<int>
    decreases globs.len(),
{
    if globs.len() == 0 {
        None
    } else if !glob_parses(globs[0]) {
        Some(0)
    } else {
        match first_malformed(globs.skip(1)) {
            Some(i) => Some(i + 1),
            None => None,
        }
    }
}

/// The first malformed glob is malformed, and the globs before it are
/// well formed; where there is none, all the globs are well formed.
pub proof fn lemma_first_malformed(globs: Seq<Seq<char>>)
    ensures
        match first_malformed(globs) {
            Some(i) => {
                &&& 0 <= i < globs.len()
                &&& !glob_parses(globs[i])
                &&& forall|j: int| 0 <= j < i ==> glob_parses(#[trigger] globs[j])
            },
            None => forall|j: int| 0 <= j < globs.len() ==> glob_parses(#[trigger] globs[j]),
        },
    decreases globs.len(),
{
    if globs.len() > 0 && glob_parses(globs[0]) {
        let rest = globs.skip(1);
        lemma_first_malformed(rest);
        match first_malformed(rest) {
            Some(i) => {
                assert forall|j: int| 0 <= j < i + 1 implies glob_parses(#[trigger] globs[j]) by {
                    if j > 0 {
                        assert(globs[j] == rest[j - 1]);
                    }
                }
            },
            None => {
                assert forall|j: int| 0 <= j < globs.len() implies glob_parses(
                    #[trigger] globs[j],
                ) by {
                    if j > 0 {
                        assert(globs[j] == rest[j - 1]);
                    }
                }
            },
        }
    }
}

impl Glob {
    /// Compiles a list of globs.
    ///
    /// Fails with the position of the first malformed glob, if there is one.
    /// Where all the globs are well formed, it succeeds exactly where the
    /// outside compiler takes the globs, in their order, as a set. The set
    /// then matches what these globs match, and the globs are kept as they
    /// were written.
    pub fn new(globs: Vec<String>) -> (r: Result<Glob, GlobError>)
        ensures
            match r {
                Ok(glob) => {
                    &&& first_malformed(texts(globs@)) is None
                    &&& glob_set_compiles(texts(globs@))
                    &&& glob.original == globs
                    &&& forall|path: Seq<u8>|
                        #[trigger] glob_set_accepts(glob.globs, path) == patterns_accept(
                            texts(globs@),
                            path,
                        )
                },
                Err(GlobError::Pattern(i)) => first_malformed(texts(globs@)) == Some(i as int),
                Err(GlobError::Compile) => {
                    &&& first_malformed(texts(globs@)) is None
                    &&& !glob_set_compiles(texts(globs@))
                },
            },
    {
        let mut set = globset::GlobSetBuilder::new();
        let mut i: usize = 0;
        proof {
            lemma_first_malformed(texts(globs@));
            assert(texts(globs@).take(0) =~= Seq::<Seq<char>>::empty());
        }
        while i < globs.len()
            invariant
                i <= globs@.len(),
                builder_patterns(set) == texts(globs@).take(i as int),
                forall|j: int| 0 <= j < i ==> glob_parses(#[trigger] texts(globs@)[j]),
            decreases globs@.len() - i,
        {
            if !add_glob(&mut set, globs[i].as_str()) {
                proof {
                    lemma_first_malformed(texts(globs@));
                    assert(!glob_parses(texts(globs@)[i as int]));
                }
                return Err(GlobError::Pattern(i));
            }
            assert(glob_parses(texts(globs@)[i as int]));
            assert(texts(globs@).take(i as int).push(globs@[i as int]@) =~= texts(globs@).take(
                i + 1,
            ));
            i += 1;
        }
        proof {
            lemma_first_malformed(texts(globs@));
            assert(texts(globs@).take(i as int) =~= texts(globs@));
        }
        match set.build() {
            Ok(compiled) => Ok(Glob { original: globs, globs: compiled }),
            Err(_) => Err(GlobError::Compile),
        }
    }
}

/// What kind of thing an entry is, as the matchers see it.
#[derive(Clone, Copy, Debug, PartialEq, Eq, Structural)]
pub enum FileType {
    BlockDev,
    CharDev,
    Directory,
    Executable,
    File,
    Fifo,
    Socket,
    SymLink,
}

/// The class of a file's contents, as its extension tells it.
#[derive(Clone, Copy, Debug, PartialEq, Eq, Structural)]
pub enum MimeType {
    Application,
    Audio,
    Font,
    Image,
    Message,
    Model,
    Text,
    Video,
}

/// A compiled regular expression.
///
/// The expression is one of `regex`, which the library never looks into.
#[verifier::external_body]
pub struct Regex(pub regex::Regex);

/// The info boxes: their formats, and the counters that the formats can
/// show.
pub struct Info {
    pub left: Option<InfoContent>,
    pub right: Option<InfoContent>,
    pub column: Option<InfoContent>,
    /// The counters: each name with the matchers of the entries it counts.
    /// No name occurs twice.
    pub variables: Vec<(String, Vec<Matcher>)>,
}

/// Whether no name occurs twice among the named items.
pub open spec fn distinct_names<T>(items: Seq<(String, T)>) -> bool {
    forall|i: int, j: int|
        0 <= i < j < items.len() ==> (#[trigger] items[i]).0@ != (#[trigger] items[j]).0@
}

/// The position of the first item of that name, or the number of the items
/// where none has the name.
pub open spec fn name_position<T>(items: Seq<(String, T)>, name: Seq<char>) -> int
    decreases items.len(),
{
    if items.len() == 0 {
        0
    } else if items[0].0@ == name {
        0
    } else {
        1 + name_position(items.skip(1), name)
    }
}

/// The counters after the matchers of a name were set: the counter of that
/// name has the new matchers, or a new counter stands behind the others.
pub open spec fn with_variable(
    variables: Seq<(String, Vec<Matcher>)>,
    name: String,
    matchers: Vec<Matcher>,
) -> Seq<(String, Vec<Matcher>)> {
    let at = name_position(variables, name@);
    if 0 <= at < variables.len() {
        variables.update(at, (name, matchers))
    } else {
        variables.push((name, matchers))
    }
}

impl Info {
    /// No two counters have the same name.
    pub open spec fn wf(&self) -> bool {
        distinct_names(self.variables@)
    }

    /// Info boxes without formats and without counters.
    pub fn new() -> (info: Info)
        ensures
            info.left is None,
            info.right is None,
            info.column is None,
            info.variables@.len() == 0,
            info.wf(),
    {
        Info { left: None, right: None, column: None, variables: Vec::new() }
    }

    /// Sets the matchers of the counter `name`. A counter of that name gets
    /// the new matchers; otherwise a new counter is added behind the others.
    pub fn set_variable(&mut self, name: String, matchers: Vec<Matcher>)
        ensures
            final(self).left == old(self).left,
            final(self).right == old(self).right,
            final(self).column == old(self).column,
            final(self).variables@ == with_variable(old(self).variables@, name, matchers),
            old(self).wf() ==> final(self).wf(),
    {
        let ghost before = self.variables@;
        let mut i: usize = 0;
        assert(before.skip(0) =~= before);
        while i < self.variables.len()
            invariant
                i <= before.len(),
                before == old(self).variables@,
                self.variables@ == before,
                self.left == old(self).left,
                self.right == old(self).right,
                self.column == old(self).column,
                name_position(before, name@) == i + name_position(before.skip(i as int), name@),
                forall|j: int| 0 <= j < i ==> (#[trigger] before[j]).0@ != name@,
            decreases before.len() - i,
        {
            assert(before.skip(i as int)[0] == before[i as int]);
            assert(before.skip(i as int).skip(1) =~= before.skip(i + 1));
            if self.variables[i].0 == name {
                self.variables.set(i, (name, matchers));
                proof {
                    let after = self.variables@;
                    assert(after =~= with_variable(before, name, matchers));
                    if distinct_names(before) {
                        assert forall|a: int, b: int| 0 <= a < b < after.len() implies (
                        #[trigger] after[a]).0@ != (#[trigger] after[b]).0@ by {
                            assert(after[a].0@ == before[a].0@);
                            assert(after[b].0@ == before[b].0@);
                        }
                    }
                }
                return ;
            }
            i += 1;
        }
        self.variables.push((name, matchers));
        proof {
            let after = self.variables@;
            assert(before.skip(before.len() as int).len() == 0);
            assert(after =~= with_variable(before, name, matchers));
            if distinct_names(before) {
                assert forall|a: int, b: int| 0 <= a < b < after.len() implies (
                #[trigger] after[a]).0@ != (#[trigger] after[b]).0@ by {
                    assert(after[a] == before[a]);
                    if b < before.len() {
                        assert(after[b] == before[b]);
                    }
                }
            }
        }
    }
}

#[derive(Debug, PartialEq)]
/// The format of an info box, with or without a base style.
pub enum InfoContent {
    Plain(String),
    Attrs { text: String, color: Option<Color> },
}

impl InfoContent {
    /// The format of the box, and its base style.
    pub open spec fn spec_get(&self) -> (Seq<char>, Option<styles::Style>) {
        match self {
            InfoContent::Plain(s) => (s@, None),
            InfoContent::Attrs { text, color } => (
                text@,
                match color {
                    Some(c) => Some(c.style),
                    None => None,
                },
            ),
        }
    }

    /// The format of the box, and its base style.
    pub fn get(&self) -> (r: (&str, Option<styles::Style>))
        ensures
            (r.0@, r.1) == self.spec_get(),
    {
        match self {
            InfoContent::Plain(s) => (s.as_str(), None),
            InfoContent::Attrs { text, color } => (
                text.as_str(),
                match color {
                    Some(c) => Some(c.style),
                    None => None,
                },
            ),
        }
    }
}

#[derive(Clone, Copy, Debug, PartialEq, Eq, Structural)]
/// What the collectors may do, and for how long they are waited for.
pub struct Collector {
    pub disk_usage: bool,
    pub git_diff: bool,
    pub timeout: Option<Timeout>,
}

/// How long to wait for the collectors, in milliseconds.
#[derive(Clone, Copy, Debug, PartialEq, Eq, Structural)]
pub struct Timeout(pub u64);

/// The value of the settings that are on unless they are switched off.
pub fn default_true() -> (b: bool)
    ensures
        b,
{
    true
}

/// The column of the default configuration that shows the directories.
pub open spec fn is_directories_column(column: Column) -> bool {
    &&& !column.include_hidden
    &&& column.label is None
    &&& column.max_name_width is None
    &&& column.matchers@ == seq![Matcher::Type(FileType::Directory)]
    &&& column.exclude@.len() == 0
    &&& column.git_changes_first
    &&& column.color is None
    &&& column.sort is None
}

/// The column of the default configuration that shows everything else.
pub open spec fn is_everything_column(column: Column) -> bool {
    &&& column.include_hidden
    &&& column.label is None
    &&& column.max_name_width is None
    &&& column.matchers@ == seq![Matcher::Any]
    &&& column.exclude@.len() == 0
    &&& column.git_changes_first
    &&& column.color is None
    &&& column.sort is None
}

impl Root {
    /// The counters of the info boxes have different names.
    pub open spec fn wf(&self) -> bool {
        self.info matches Some(info) ==> info.wf()
    }
}

impl Default for Root {
    fn default() -> (root: Root)
        ensures
            root.colors is None,
            root.grid == (Grid { max_rows: None, max_name_width: None, column_padding: None }),
            root.collector == (Collector {
                disk_usage: true,
                git_diff: true,
                timeout: Some(Timeout(100)),
            }),
            root.info is None,
            root.wf(),
            root.columns@.len() == 2,
            is_directories_column(root.columns@[0]),
            is_everything_column(root.columns@[1]),
    {
        let mut columns: Vec<Column> = Vec::new();
        let mut directories: Vec<Matcher> = Vec::new();
        directories.push(Matcher::Type(FileType::Directory));
        assert(directories@ =~= seq![Matcher::Type(FileType::Directory)]);
        columns.push(
            Column {
                include_hidden: false,
                label: None,
                max_name_width: None,
                matchers: directories,
                exclude: Vec::new(),
                git_changes_first: true,
                color: None,
                sort: None,
            },
        );
        let mut everything: Vec<Matcher> = Vec::new();
        everything.push(Matcher::Any);
        assert(everything@ =~= seq![Matcher::Any]);
        columns.push(
            Column {
                include_hidden: true,
                label: None,
                max_name_width: None,
                matchers: everything,
                exclude: Vec::new(),
                git_changes_first: true,
                color: None,
                sort: None,
            },
        );
        Root {
            colors: None,
            grid: Grid::default(),
            collector: Collector::default(),
            info: None,
            columns,
        }
    }
}

impl Default for Collector {
    fn default() -> (collector: Collector)
        ensures
            collector == (Collector {
                disk_usage: true,
                git_diff: true,
                timeout: Some(Timeout(100)),
            }),
    {
        Collector { disk_usage: true, git_diff: true, timeout: Some(Timeout(100)) }
    }
}

impl Default for LsColors {
    fn default() -> (ls: LsColors)
        ensures
            ls == LsColors::Bool(true),
    {
        LsColors::Bool(true)
    }
}

impl Default for SortSpec {
    fn default() -> (spec: SortSpec)
        ensures
            spec == SortSpec(SortKey::Name, SortOrder::Asc),
    {
        SortSpec(SortKey::Name, SortOrder::Asc)
    }
}

} // verus!
