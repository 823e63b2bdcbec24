use summer::summarizer::render::format_size;

#[test]
fn check_size_formats() {
    assert_eq!(format_size(900), "900");
    assert_eq!(format_size(1024), "1K");
    assert_eq!(format_size(1100), "1K");
    assert_eq!(format_size(11111), "11K");
    assert_eq!(format_size((1 << 21) + 100), "2M");
}

use summer::config::{
    Color, Colors, Column as ColumnConfig, Glob, Indicator, Info, InfoContent, LsColors, Matcher,
    Root, Style as Rule,
};
use summer::display::grid::Align;
use summer::display::styles::{parse_style, Style};
use summer::display::{Column, Row};
use summer::summarizer::gitdiff::Change;
use summer::summarizer::render::{
    abbreviate_home, render_group, render_groups, render_info, shown_count,
};
use summer::summarizer::treereader::{TreeInfo, TreeInfoJob};
use summer::summarizer::{Analysis, Entry, File, FileKind, FilesGroup, Metadata};

fn file(name: &str) -> File {
    File {
        entry: Entry {
            file_name: name.as_bytes().to_vec(),
            metadata: Metadata {
                kind: FileKind::File,
                mode: 0o644,
                len: 1,
                mtime: 1,
                modified: None,
            },
            mime_type: None,
            ls_style: None,
        },
        git_changes: None,
        tree_info: None,
    }
}

fn changed(name: &str, insertions: u32, deletions: u32) -> File {
    let mut f = file(name);
    f.git_changes = Some(Change::new(insertions, deletions));
    f
}

fn dir(name: &str, info: Option<TreeInfo>) -> File {
    let mut f = file(name);
    f.entry.metadata.kind = FileKind::Directory;
    f.tree_info = Some(TreeInfoJob::done(info));
    f
}

fn column(label: Option<&str>) -> ColumnConfig {
    ColumnConfig {
        include_hidden: true,
        label: label.map(String::from),
        max_name_width: None,
        matchers: vec![Matcher::Any],
        exclude: vec![],
        git_changes_first: true,
        color: None,
        sort: None,
    }
}

fn colors(styles: Vec<Rule>) -> Colors {
    Colors {
        when: None,
        use_lscolors: LsColors::Bool(false),
        column_label: None,
        name_ellipsis: None,
        more_entries: None,
        diff_added: None,
        diff_deleted: None,
        disk_usage: None,
        styles,
        style_files: vec![],
    }
}

fn texts(row: &Row) -> Vec<String> {
    row.spans.iter().map(|s| s.text.clone()).collect()
}

fn column_texts(column: &Column) -> Vec<String> {
    column.rows.iter().map(|r| texts(r).concat()).collect()
}

fn render(files: Vec<File>, col: &ColumnConfig, config: &Root, labels: bool) -> Vec<Column> {
    let group = FilesGroup { column: col, files };
    let mut columns = Vec::new();
    render_group(&group, config, labels, false, None, &mut columns);
    columns
}

#[test]
fn names_only() {
    let col = column(None);
    let columns = render(vec![file("a"), file("bcd")], &col, &Root::default(), false);
    assert_eq!(columns.len(), 1);
    assert_eq!(column_texts(&columns[0]), vec!["a", "bcd"]);
    assert_eq!(columns[0].width, 3);
    assert_eq!(columns[0].height, 2);
    assert_eq!(columns[0].align, Align::Left);
    assert!(columns[0].has_files);
    assert_eq!(columns[0].style, None);
    assert_eq!(columns[0].rows[0].spans[0].style, None);
}

#[test]
fn side_columns_appear_only_with_data() {
    let col = column(None);
    let files = vec![changed("a", 3, 0), file("b"), changed("c", 0, 12)];
    let columns = render(files, &col, &Root::default(), false);
    // Added lines, space, deleted lines, space, names.
    assert_eq!(columns.len(), 5);
    assert_eq!(column_texts(&columns[0]), vec!["+3", "", ""]);
    assert_eq!(columns[0].align, Align::Right);
    assert_eq!(columns[0].width, 2);
    assert_eq!(columns[0].height, 3);
    assert!(!columns[0].has_files);
    assert_eq!(columns[0].rows[0].spans[0].style, parse_style("green"));
    assert_eq!(column_texts(&columns[1]), Vec::<String>::new());
    assert_eq!((columns[1].width, columns[1].height), (1, 3));
    assert_eq!(column_texts(&columns[2]), vec!["", "", "-12"]);
    assert_eq!(columns[2].rows[2].spans[0].style, parse_style("red"));
    assert_eq!((columns[3].width, columns[3].height), (1, 3));
    assert_eq!(column_texts(&columns[4]), vec!["a", "b", "c"]);

    // Only deletions: no column of added lines.
    let columns = render(vec![changed("a", 0, 1)], &col, &Root::default(), false);
    assert_eq!(columns.len(), 3);
    assert_eq!(column_texts(&columns[0]), vec!["-1"]);

    // Changes of no lines: no side column at all.
    let columns = render(vec![changed("a", 0, 0)], &col, &Root::default(), false);
    assert_eq!(columns.len(), 1);
}

#[test]
fn disk_usage_column() {
    let col = column(None);
    let files = vec![
        dir("src", Some(TreeInfo::new(2000, 1))),
        file("plain"),
        dir("empty", Some(TreeInfo::new(0, 0))),
        dir("late", None),
    ];
    let columns = render(files, &col, &Root::default(), false);
    assert_eq!(columns.len(), 3);
    assert_eq!(column_texts(&columns[0]), vec!["2K", "", "0", ""]);
    assert_eq!(columns[0].align, Align::Right);
    assert_eq!(column_texts(&columns[2]), vec!["src", "plain", "empty", "late"]);

    // Without any size to show, the column is left out.
    let files = vec![dir("empty", Some(TreeInfo::new(0, 0))), dir("late", None)];
    assert_eq!(render(files, &col, &Root::default(), false).len(), 1);
}

#[test]
fn configured_styles_of_side_columns() {
    let col = column(None);
    let mut config = Root::default();
    let mut palette = colors(vec![]);
    palette.diff_added =
        Some(Color { original: "blue".into(), style: parse_style("blue").unwrap() });
    palette.disk_usage =
        Some(Color { original: "bold".into(), style: parse_style("bold").unwrap() });
    config.colors = Some(palette);
    let mut f = changed("a", 1, 1);
    f.tree_info = Some(TreeInfoJob::done(Some(TreeInfo::new(5, 5))));
    let columns = render(vec![f], &col, &config, false);
    assert_eq!(columns.len(), 7);
    assert_eq!(columns[0].rows[0].spans[0].style, parse_style("blue"));
    assert_eq!(columns[2].rows[0].spans[0].style, parse_style("red"));
    assert_eq!(columns[4].rows[0].spans[0].style, parse_style("bold"));
    assert_eq!(column_texts(&columns[4]), vec!["5"]);
}

#[test]
fn labels_add_a_row_to_every_column() {
    let col = column(Some("Files"));
    let mut config = Root::default();
    let mut palette = colors(vec![]);
    palette.column_label =
        Some(Color { original: "ul".into(), style: parse_style("ul").unwrap() });
    config.colors = Some(palette);
    let columns = render(vec![changed("a", 1, 0)], &col, &config, true);
    assert_eq!(columns.len(), 3);
    assert_eq!(column_texts(&columns[0]), vec!["", "+1"]);
    assert_eq!(column_texts(&columns[2]), vec!["Files", "a"]);
    assert_eq!(columns[2].rows[0].spans[0].style, parse_style("ul"));
    assert_eq!(columns[2].height, 2);
    assert_eq!(columns[1].height, 2);

    // A group without a label, beside groups with labels.
    let bare = column(None);
    let columns = render(vec![file("a")], &bare, &config, true);
    assert_eq!(column_texts(&columns[0]), vec!["", "a"]);
    assert!(columns[0].rows[0].is_empty());
}

#[test]
fn groups_with_many_entries_are_summarized() {
    assert_eq!(shown_count(None, 10), 10);
    assert_eq!(shown_count(Some(0), 10), 10);
    assert_eq!(shown_count(Some(3), 3), 3);
    // One entry too many: the last row stands for two entries.
    assert_eq!(shown_count(Some(3), 4), 2);
    assert_eq!(shown_count(Some(3), 5), 2);
    assert_eq!(shown_count(Some(2), 3), 1);
    // A group of two entries is never summarized.
    assert_eq!(shown_count(Some(1), 2), 2);
    assert_eq!(shown_count(Some(1), 3), 0);
    assert_eq!(shown_count(Some(usize::MAX), 3), 3);

    let col = column(None);
    let mut config = Root::default();
    config.grid.max_rows = Some(3);
    let files = |n: usize| (0..n).map(|i| changed(&format!("f{}", i), i as u32, 0)).collect();
    let columns = render(files(5), &col, &config, false);
    assert_eq!(column_texts(&columns[2]), vec!["f0", "f1", "+3 entries"]);
    assert_eq!(columns[2].height, 3);
    // The side columns only hold the files that are shown.
    assert_eq!(column_texts(&columns[0]), vec!["", "+1"]);
    assert_eq!(columns[0].height, 3);

    // The names and the row for the rest never take more rows than the
    // maximum.
    let columns = render(files(4), &col, &config, false);
    assert_eq!(column_texts(&columns[2]), vec!["f0", "f1", "+2 entries"]);
    assert_eq!(columns[2].height, 3);

    let columns = render(files(3), &col, &config, false);
    assert_eq!(column_texts(&columns[2]), vec!["f0", "f1", "f2"]);

    // The only file with changes is not shown: no side column.
    let mut list: Vec<File> = (0..5).map(|i| file(&format!("f{}", i))).collect();
    list[4].git_changes = Some(Change::new(7, 7));
    let columns = render(list, &col, &config, false);
    assert_eq!(columns.len(), 1);
}

#[test]
fn names_are_quoted_and_truncated() {
    let mut col = column(None);
    let mut config = Root::default();
    config.grid.max_name_width = Some(5);
    let mut palette = colors(vec![]);
    palette.name_ellipsis =
        Some(Color { original: "dim".into(), style: parse_style("dim").unwrap() });
    config.colors = Some(palette);
    let columns = render(vec![file("abcdefgh"), file("a\nb"), file("abcde")], &col, &config, false);
    assert_eq!(texts(&columns[0].rows[0]), vec!["abcd", "…"]);
    assert_eq!(columns[0].rows[0].spans[1].style, parse_style("dim"));
    assert_eq!(columns[0].rows[0].width, 5);
    assert_eq!(texts(&columns[0].rows[1]), vec!["a", "…"]);
    assert_eq!(texts(&columns[0].rows[2]), vec!["abcde"]);
    assert_eq!(columns[0].width, 5);

    // The width of the column comes first.
    col.max_name_width = Some(3);
    let columns = render(vec![file("abcdefgh")], &col, &config, false);
    assert_eq!(texts(&columns[0].rows[0]), vec!["ab", "…"]);
}

#[test]
fn style_rules_combine_in_order() {
    let rule = |pattern: &str, color: Option<&str>, indicator: Option<&str>| Rule {
        matchers: vec![Matcher::Glob(Glob::new(vec![pattern.to_string()]).unwrap())],
        color: color.map(|c| Color { original: c.into(), style: parse_style(c).unwrap() }),
        indicator: indicator.map(|i| Indicator::Plain(i.to_string())),
    };
    let mut config = Root::default();
    config.colors = Some(colors(vec![
        rule("*.txt", Some("red bold"), Some("t")),
        rule("a*", Some("blue"), None),
        rule(".*", None, Some("h")),
        rule("*", Some("ul"), None),
    ]));
    let col = column(None);
    let group = FilesGroup { column: &col, files: vec![file("a.txt"), file(".x.txt"), file("b")] };
    let mut columns = Vec::new();
    render_group(&group, &config, false, true, None, &mut columns);
    assert_eq!(columns.len(), 2);
    // Indicators.
    assert_eq!(column_texts(&columns[0]), vec!["t", "th", ""]);
    assert_eq!(columns[0].align, Align::Right);
    assert!(!columns[0].has_files);
    // Names: later rules override the colour, and flags add up.
    let style = |row: usize| columns[1].rows[row].spans[0].style;
    assert_eq!(style(0), parse_style("blue bold ul"));
    assert_eq!(style(1), parse_style("red bold ul"));
    assert_eq!(style(2), parse_style("ul"));
}

#[test]
fn environment_style_is_the_base() {
    let mut f = file("a");
    f.entry.ls_style = parse_style("green");
    let col = column(None);
    let columns = render(vec![f], &col, &Root::default(), false);
    assert_eq!(columns[0].rows[0].spans[0].style, parse_style("green"));
}

#[test]
fn column_color_styles_all_columns_of_the_group() {
    let mut col = column(None);
    col.color = Some(Color { original: "cyan".into(), style: parse_style("cyan").unwrap() });
    let columns = render(vec![changed("a", 1, 0)], &col, &Root::default(), false);
    for c in &columns {
        assert_eq!(c.style, parse_style("cyan"));
    }
}

fn analysis<'a>(groups: Vec<FilesGroup<'a>>) -> Analysis<'a> {
    Analysis {
        path: "/home/user/project".to_string(),
        groups,
        variables: vec![("dirs".to_string(), 3), ("caps".to_string(), 4)],
        changes: Some(Change::new(7, 2)),
        disk_usage_files: 2048,
    }
}

#[test]
fn groups_are_parted_by_padding() {
    let first = column(None);
    let second = column(None);
    let third = column(None);
    let groups = vec![
        FilesGroup { column: &first, files: vec![file("a")] },
        FilesGroup { column: &second, files: vec![] },
        FilesGroup { column: &third, files: vec![file("b"), file("c")] },
    ];
    let mut config = Root::default();
    let screen = render_groups(&analysis(groups), &config, &None, None);
    assert_eq!(screen.columns.len(), 3);
    assert_eq!(column_texts(&screen.columns[0]), vec!["a"]);
    assert_eq!((screen.columns[1].width, screen.columns[1].height), (4, 0));
    assert!(!screen.columns[1].has_files);
    assert_eq!(column_texts(&screen.columns[2]), vec!["b", "c"]);
    assert!(screen.info_left.is_none());
    assert!(screen.info_right.is_none());
    assert!(screen.info_column.is_none());

    config.grid.column_padding = Some(2);
    let groups = vec![
        FilesGroup { column: &second, files: vec![] },
        FilesGroup { column: &first, files: vec![file("a")] },
        FilesGroup { column: &third, files: vec![file("b")] },
    ];
    let screen = render_groups(&analysis(groups), &config, &None, None);
    assert_eq!(screen.columns.len(), 3);
    assert_eq!(screen.columns[1].width, 2);
}

#[test]
fn labels_of_any_group_add_rows_to_all() {
    let first = column(None);
    let second = column(Some("Second"));
    let groups = vec![
        FilesGroup { column: &first, files: vec![file("a")] },
        FilesGroup { column: &second, files: vec![] },
    ];
    let screen = render_groups(&analysis(groups), &Root::default(), &None, None);
    assert_eq!(column_texts(&screen.columns[0]), vec!["", "a"]);
}

#[test]
fn indicators_of_any_group_add_columns_to_all() {
    let mut config = Root::default();
    config.colors = Some(colors(vec![Rule {
        matchers: vec![Matcher::Glob(Glob::new(vec!["*.txt".to_string()]).unwrap())],
        color: None,
        indicator: Some(Indicator::Attrs {
            text: "✎".to_string(),
            color: Some(Color { original: "red".into(), style: parse_style("red").unwrap() }),
        }),
    }]));
    let first = column(None);
    let second = column(None);
    let groups = vec![
        FilesGroup { column: &first, files: vec![file("a")] },
        FilesGroup { column: &second, files: vec![file("b.txt")] },
    ];
    let screen = render_groups(&analysis(groups), &config, &None, None);
    // Indicators and names for each group, and the padding between.
    assert_eq!(screen.columns.len(), 5);
    assert_eq!(column_texts(&screen.columns[0]), vec![""]);
    assert_eq!(column_texts(&screen.columns[3]), vec!["✎"]);
    assert_eq!(screen.columns[3].rows[0].spans[0].style, parse_style("red"));

    // Without any indicator, there is no such column.
    let groups = vec![FilesGroup { column: &first, files: vec![file("a")] }];
    let screen = render_groups(&analysis(groups), &config, &None, None);
    assert_eq!(screen.columns.len(), 1);
}

fn info(format: &str, color: Option<&str>) -> InfoContent {
    match color {
        Some(c) => InfoContent::Attrs {
            text: format.to_string(),
            color: Some(Color { original: c.into(), style: parse_style(c).unwrap() }),
        },
        None => InfoContent::Plain(format.to_string()),
    }
}

#[test]
fn info_box_with_all_specifiers() {
    let a = analysis(vec![]);
    let home = Some("/home/user".to_string());
    let column = render_info(&a, &info("%P|%p|%S|%+|%-|%V{dirs}|%V{none}|%%|%x", None), &home);
    assert_eq!(
        texts(&column.rows[0]),
        vec![
            "/home/user/project",
            "|",
            "~/project",
            "|",
            "2K",
            "|",
            "7",
            "|",
            "2",
            "|",
            "3",
            "|",
            "0",
            "|",
            "%",
            "|",
            "%x"
        ]
    );
    assert_eq!(column.height, 1);
    assert!(column.has_files);
    assert_eq!(column.style, None);
}

#[test]
fn info_box_without_changes() {
    let mut a = analysis(vec![]);
    a.changes = None;
    let column = render_info(&a, &info("[%+%-]", None), &None);
    assert_eq!(texts(&column.rows[0]), vec!["[", "]"]);
}

#[test]
fn info_box_lines() {
    let a = analysis(vec![]);
    let column = render_info(&a, &info("one\ntwo %S\n\nfour\n", None), &None);
    assert_eq!(column_texts(&column), vec!["one", "two 2K", "", "four", ""]);
    assert_eq!(column.height, 5);
    assert_eq!(column.width, 6);
    let empty = render_info(&a, &info("", None), &None);
    assert_eq!(empty.height, 0);
}

#[test]
fn info_box_styles() {
    let a = analysis(vec![]);
    let column = render_info(&a, &info("a%C{blue}b%C{bold}c%C{reset}d%C{ bold }e", Some("red")), &None);
    assert_eq!(column.style, parse_style("red"));
    let styles: Vec<Option<Style>> = column.rows[0].spans.iter().map(|s| s.style).collect();
    assert_eq!(texts(&column.rows[0]), vec!["a", "b", "c", "d", "e"]);
    assert_eq!(
        styles,
        vec![
            parse_style("red"),
            parse_style("blue"),
            parse_style("blue bold"),
            parse_style("red"),
            parse_style("red bold"),
        ]
    );
    // A description that is malformed is no specifier.
    let column = render_info(&a, &info("%C{nocolor}x", None), &None);
    assert_eq!(texts(&column.rows[0]), vec!["%C{nocolor}x"]);
}

#[test]
fn home_directory_is_abbreviated() {
    let home = |h: &str| Some(h.to_string());
    assert_eq!(abbreviate_home("/home/user/src", &home("/home/user")), "~/src");
    assert_eq!(abbreviate_home("/home/user", &home("/home/user")), "~");
    assert_eq!(abbreviate_home("/home/user2", &home("/home/user")), "~2");
    assert_eq!(abbreviate_home("/srv/www", &home("/home/user")), "/srv/www");
    assert_eq!(abbreviate_home("/home", &home("/home/user")), "/home");
    assert_eq!(abbreviate_home("/srv/www", &None), "/srv/www");
    assert_eq!(abbreviate_home("/héllo/x", &home("/héllo")), "~/x");
}

#[test]
fn screen_has_the_info_boxes_of_the_configuration() {
    let mut config = Root::default();
    config.info = Some(Info {
        left: Some(info("%p", None)),
        right: None,
        column: Some(info("%S\n%V{caps}", None)),
        variables: vec![],
    });
    let screen = render_groups(&analysis(vec![]), &config, &Some("/home".to_string()), None);
    assert_eq!(column_texts(screen.info_left.as_ref().unwrap()), vec!["~/user/project"]);
    assert!(screen.info_right.is_none());
    assert_eq!(column_texts(screen.info_column.as_ref().unwrap()), vec!["2K", "4"]);
}

#[test]
fn sizes_are_scaled_and_rounded() {
    assert_eq!(format_size(0), "0");
    assert_eq!(format_size(1023), "1023");
    assert_eq!(format_size(1535), "1K");
    // A half goes to the even neighbour.
    assert_eq!(format_size(1536), "2K");
    assert_eq!(format_size(2560), "2K");
    assert_eq!(format_size(2561), "3K");
    assert_eq!(format_size(1 << 20), "1024K");
    assert_eq!(format_size((1 << 20) + 1), "1M");
    assert_eq!(format_size(1 << 30), "1024M");
    assert_eq!(format_size((1 << 30) + 1024), "1G");
    assert_eq!(format_size(5 * (1 << 40)), "5T");
    assert_eq!(format_size(3 * (1 << 50)), "3P");
    assert_eq!(format_size(u64::MAX), "16E");
}
