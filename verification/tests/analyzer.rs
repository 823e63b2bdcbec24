use summer::config::{
    Changes as ChangesMatcher, Column, FileType, Glob, Info, Matcher, Root, SortKey, SortOrder,
    SortSpec,
};
use summer::display::print;
use summer::summarizer::analyzer::{analyze_path, needs_tree_info, sort_groups};
use summer::summarizer::gitdiff::{Change, Changes, ChangesParser};
use summer::summarizer::treereader::{TreeInfo, TreeInfoJob};
use summer::summarizer::{process, settle_groups, Analysis, Entry, FileKind, Metadata};

fn entry(name: &str, kind: FileKind, len: u64) -> Entry {
    Entry {
        file_name: name.as_bytes().to_vec(),
        metadata: Metadata { kind, mode: 0o644, len, mtime: 10, modified: None },
        mime_type: None,
        ls_style: None,
    }
}

fn column(matchers: Vec<Matcher>, include_hidden: bool) -> Column {
    Column {
        include_hidden,
        label: None,
        max_name_width: None,
        matchers,
        exclude: vec![],
        git_changes_first: true,
        color: None,
        sort: None,
    }
}

fn glob(pattern: &str) -> Matcher {
    Matcher::Glob(Glob::new(vec![pattern.to_string()]).unwrap())
}

fn entries() -> Vec<Entry> {
    vec![
        entry("other", FileKind::File, 250),
        entry("src", FileKind::Directory, 4096),
        entry("README", FileKind::File, 6),
        entry(".X.txt", FileKind::File, 0),
        entry("target", FileKind::Directory, 4096),
        entry("CHANGES.txt", FileKind::File, 0),
    ]
}

fn names(analysis: &Analysis, group: usize) -> Vec<String> {
    analysis.groups[group]
        .files
        .iter()
        .map(|f| String::from_utf8_lossy(&f.entry.file_name).into_owned())
        .collect()
}

fn config() -> Root {
    let mut config = Root::default();
    config.columns = vec![
        column(vec![Matcher::Type(FileType::Directory)], false),
        column(vec![Matcher::Changes(ChangesMatcher::Git)], false),
        column(vec![glob("*.txt")], false),
        column(vec![Matcher::Any], true),
    ];
    config.info = Some(Info {
        left: None,
        right: None,
        column: None,
        variables: vec![
            ("dirs".to_string(), vec![Matcher::Type(FileType::Directory)]),
            ("txt".to_string(), vec![glob("*.txt")]),
            ("none".to_string(), vec![]),
        ],
    });
    config
}

#[test]
fn entries_go_to_every_group_that_they_belong_to() {
    let config = config();
    let diff = Changes::parse(b"5\t0\tsrc/a\x001\t2\tREADME\0");
    let analysis = analyze_path("/tmp/x".to_string(), &entries(), &diff, &config, None);
    assert_eq!(analysis.path, "/tmp/x");
    assert_eq!(analysis.groups.len(), 4);
    assert_eq!(names(&analysis, 0), vec!["src", "target"]);
    assert_eq!(names(&analysis, 1), vec!["src", "README"]);
    assert_eq!(names(&analysis, 2), vec!["CHANGES.txt"]);
    assert_eq!(
        names(&analysis, 3),
        vec!["other", "src", "README", ".X.txt", "target", "CHANGES.txt"]
    );
    assert_eq!(analysis.groups[0].files[0].git_changes, Some(Change::new(5, 0)));
    assert_eq!(analysis.groups[0].files[1].git_changes, None);
    assert_eq!(analysis.groups[1].files[1].git_changes, Some(Change::new(1, 2)));
    assert!(analysis.groups[0].files[0].tree_info.is_none());
    assert_eq!(analysis.changes, Some(Change::new(6, 2)));
    assert_eq!(analysis.disk_usage_files, 256);
    // Counters count hidden files too.
    assert_eq!(
        analysis.variables,
        vec![("dirs".to_string(), 2), ("txt".to_string(), 2), ("none".to_string(), 0)]
    );
}

#[test]
fn excluded_entries_are_left_out() {
    let mut config = Root::default();
    let mut all = column(vec![Matcher::Any], true);
    all.exclude = vec![glob("*.txt"), Matcher::Type(FileType::Directory)];
    config.columns = vec![all];
    let analysis = analyze_path(String::new(), &entries(), &None, &config, None);
    assert_eq!(names(&analysis, 0), vec!["other", "README"]);
    assert_eq!(analysis.changes, None);
    assert!(analysis.variables.is_empty());
}

#[test]
fn empty_directory() {
    let config = Root::default();
    let analysis = analyze_path(String::new(), &vec![], &None, &config, None);
    assert_eq!(analysis.groups.len(), 2);
    assert!(analysis.groups[0].files.is_empty());
    assert!(analysis.groups[1].files.is_empty());
    assert_eq!(analysis.disk_usage_files, 0);
}

#[test]
fn trees_are_read_for_directories() {
    let config = Root::default();
    let analysis = analyze_path(String::new(), &entries(), &None, &config, None);
    let src = &analysis.groups[0].files[0];
    let other = &analysis.groups[1].files[0];
    assert!(needs_tree_info(src, &config));
    assert!(!needs_tree_info(other, &config));
    let mut disabled = Root::default();
    disabled.collector.disk_usage = false;
    assert!(!needs_tree_info(src, &disabled));
}

#[test]
fn directories_ranked_by_size() {
    // `src` holds a (0 bytes) and b (2000 bytes); `target` holds c (100 bytes)
    // and d (50 bytes).
    let mut config = Root::default();
    let mut any = column(vec![Matcher::Any], true);
    any.sort = Some(SortSpec(SortKey::Size, SortOrder::Desc));
    config.columns = vec![any];
    let list = vec![entry("target", FileKind::Directory, 4096), entry("src", FileKind::Directory, 4096)];
    let mut analysis = analyze_path(String::new(), &list, &None, &config, None);
    for file in analysis.groups[0].files.iter_mut() {
        assert!(needs_tree_info(file, &config));
        let info = if file.entry.file_name == b"src" {
            TreeInfo::new(2000, 5)
        } else {
            TreeInfo::new(150, 9)
        };
        file.tree_info = Some(TreeInfoJob::done(Some(info)));
    }
    sort_groups(&mut analysis);
    assert_eq!(names(&analysis, 0), vec!["src", "target"]);
}

#[test]
fn settle_groups_waits_for_all_trees() {
    let config = Root::default();
    let list = vec![entry("a", FileKind::Directory, 1), entry("b", FileKind::Directory, 1)];
    let mut analysis = analyze_path(String::new(), &list, &None, &config, None);
    let (tx, rx) = std::sync::mpsc::channel();
    tx.send(Some(TreeInfo::new(7, 7))).unwrap();
    analysis.groups[0].files[0].tree_info = Some(TreeInfoJob::new(None, rx));
    settle_groups(&mut analysis);
    assert_eq!(
        analysis.groups[0].files[0].tree_info.as_ref().unwrap().peek(),
        Some(Some(TreeInfo::new(7, 7)))
    );
    assert!(analysis.groups[0].files[1].tree_info.is_none());
}

#[test]
fn process_sorts_and_renders() {
    let mut config = Root::default();
    config.columns[1].sort = Some(SortSpec(SortKey::Size, SortOrder::Desc));
    let diff = Changes::parse(b"10\t0\tCHANGELOG.md\0");
    let list = vec![
        entry("small", FileKind::File, 10),
        entry("src", FileKind::Directory, 4096),
        entry("CHANGELOG.md", FileKind::File, 20),
        entry("big", FileKind::File, 3000),
    ];
    let mut analysis = analyze_path("/x".to_string(), &list, &diff, &config, None);
    analysis.groups[0].files[0].tree_info =
        Some(TreeInfoJob::done(Some(TreeInfo::new(2000, 1))));
    let screen = process(analysis, &config, &None, None);
    let text = print(screen, &config, Some(80), false);
    assert_eq!(
        text,
        "2K src    +10 CHANGELOG.md\n              src         \n              big         \n              small       \n"
    );
}
