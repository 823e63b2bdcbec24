use summer::config::{ColorsWhen, Colors, LsColors, Root};
use summer::display::styles::{parse_style, Style};
use summer::display::{
    compute_header, print, print_columns, terminal_width, use_colors, Column, Row, Screen,
};

fn row(spans: &[(&str, Option<Style>)]) -> Row {
    let mut row = Row::new();
    for (text, style) in spans {
        row.add_text(text.to_string(), *style);
    }
    row
}

fn names(rows: &[&str]) -> Column {
    let mut column = Column::new(true);
    for text in rows {
        column.push(row(&[(text, None)]));
    }
    column
}

fn side(rows: &[&str], height: usize) -> Column {
    let mut column = Column::new(false);
    for text in rows {
        if text.is_empty() {
            column.push(Row::new());
        } else {
            column.push(row(&[(text, None)]));
        }
    }
    column.align_right();
    column.set_height(height);
    column
}

fn screen(columns: Vec<Column>) -> Screen {
    Screen { columns, info_left: None, info_right: None, info_column: None }
}

fn colors(when: Option<ColorsWhen>) -> Colors {
    Colors {
        when,
        use_lscolors: LsColors::Bool(false),
        column_label: None,
        name_ellipsis: None,
        more_entries: None,
        diff_added: None,
        diff_deleted: None,
        disk_usage: None,
        styles: vec![],
        style_files: vec![],
    }
}

fn columns_text(width: Option<usize>, columns: &Vec<Column>, colors: bool) -> String {
    let mut out = String::new();
    print_columns(&mut out, width, columns, colors);
    out
}

#[test]
fn columns_are_aligned() {
    let columns = vec![
        side(&["+1", "", "+100"], 3),
        Column::padding(1, 3, None),
        names(&["a", "bcd", "ef"]),
        Column::padding(4, 0, None),
        names(&["x"]),
    ];
    let text = columns_text(Some(80), &columns, false);
    assert_eq!(text, "  +1 a      x\n     bcd     \n+100 ef      \n");
}

#[test]
fn nothing_is_written_without_entries() {
    assert_eq!(columns_text(Some(80), &vec![], false), "");
    // Columns that hold no entries give no lines.
    assert_eq!(columns_text(Some(80), &vec![side(&["+1"], 1)], false), "");
}

#[test]
fn columns_that_do_not_fit_are_dropped() {
    let columns = vec![names(&["abc"]), Column::padding(2, 0, None), names(&["defg"]), names(&["h"])];
    assert_eq!(columns_text(Some(10), &columns, false), "abc  defgh\n");
    assert_eq!(columns_text(Some(9), &columns, false), "abc  defg\n\n[1 more column]\n");
    assert_eq!(columns_text(Some(8), &columns, false), "abc  \n\n[2 more columns]\n");
    assert_eq!(columns_text(Some(4), &columns, false), "abc\n\n[2 more columns]\n");
    assert_eq!(columns_text(Some(2), &columns, false), "\n[3 more columns]\n");
    // Without a width, everything is written.
    assert_eq!(columns_text(None, &columns, false), "abc  defgh\n");
    assert_eq!(columns_text(Some(0), &columns, false), "abc  defgh\n");
    let wide = vec![Column::padding(78, 0, None), names(&["ab"]), names(&["c"])];
    let line = format!("{}abc\n", " ".repeat(78));
    assert_eq!(columns_text(None, &wide, false), line);
    assert_eq!(columns_text(Some(0), &wide, false), line);
    assert_eq!(columns_text(Some(81), &wide, false), line);
    assert_eq!(
        columns_text(Some(80), &wide, false),
        format!("{}ab\n\n[1 more column]\n", " ".repeat(78))
    );
}

#[test]
fn styles_are_written_with_colors() {
    let bold = parse_style("bold");
    let red = parse_style("red");
    let mut column = Column::new(true);
    column.push(row(&[("ab", bold), ("c", None)]));
    column.push(row(&[("d", None)]));
    let columns = vec![column];
    assert_eq!(columns_text(None, &columns, false), "abc\nd  \n");
    assert_eq!(columns_text(None, &columns, true), "\x1b[1mab\x1b[0mc\nd  \n");

    // The style of the column is laid under the spans and the padding.
    let mut column = Column::new(true);
    column.push(row(&[("ab", bold), ("c", None)]));
    column.push(row(&[("d", None)]));
    column.set_style(red);
    let text = columns_text(None, &vec![column], true);
    assert_eq!(
        text,
        "\x1b[1;31mab\x1b[0m\x1b[31mc\x1b[0m\n\x1b[31md\x1b[0m\x1b[31m  \x1b[0m\n"
    );
}

#[test]
fn padding_has_the_style_within_the_height() {
    let red = parse_style("red");
    let columns = vec![Column::padding(2, 1, red), names(&["a", "b"])];
    assert_eq!(columns_text(None, &columns, true), "\x1b[31m  \x1b[0ma\n  b\n");
    assert_eq!(columns_text(None, &columns, false), "  a\n  b\n");
}

#[test]
fn colors_are_used_as_configured() {
    assert!(use_colors(&None, true));
    assert!(!use_colors(&None, false));
    assert!(use_colors(&Some(colors(None)), true));
    assert!(!use_colors(&Some(colors(None)), false));
    assert!(use_colors(&Some(colors(Some(ColorsWhen::Auto))), true));
    assert!(!use_colors(&Some(colors(Some(ColorsWhen::Auto))), false));
    assert!(use_colors(&Some(colors(Some(ColorsWhen::Always))), false));
    assert!(!use_colors(&Some(colors(Some(ColorsWhen::Never))), true));
}

fn widths(columns: &Option<Vec<Column>>) -> Option<Vec<usize>> {
    columns.as_ref().map(|list| list.iter().map(|c| c.width).collect())
}

#[test]
fn header_puts_the_right_box_at_the_right() {
    assert_eq!(widths(&compute_header(Some(20), None, None)), None);
    assert_eq!(widths(&compute_header(Some(20), Some(names(&["left"])), None)), Some(vec![4]));
    assert_eq!(
        widths(&compute_header(Some(20), Some(names(&["left"])), Some(names(&["right"])))),
        Some(vec![4, 11, 5])
    );
    assert_eq!(
        widths(&compute_header(Some(20), None, Some(names(&["right"])))),
        Some(vec![15, 5])
    );
    assert_eq!(
        widths(&compute_header(Some(9), Some(names(&["left"])), Some(names(&["right"])))),
        Some(vec![4, 0, 5])
    );
    // The boxes do not fit: no space between them.
    assert_eq!(
        widths(&compute_header(Some(8), Some(names(&["left"])), Some(names(&["right"])))),
        Some(vec![4, 5])
    );
    assert_eq!(widths(&compute_header(Some(3), None, Some(names(&["right"])))), Some(vec![5]));
    // Without a width, the terminal is taken to have 80 columns.
    assert_eq!(
        widths(&compute_header(None, None, Some(names(&["right"])))),
        Some(vec![75, 5])
    );
}

#[test]
fn print_writes_header_and_columns() {
    let mut s = screen(vec![names(&["a", "bc"])]);
    s.info_left = Some(names(&["left"]));
    s.info_right = Some(names(&["r1", "r2"]));
    s.info_column = Some(names(&["info"]));
    let text = print(s, &Root::default(), Some(12), false);
    assert_eq!(text, "left      r1\n          r2\na       info\nbc          \n");
}

#[test]
fn print_leaves_out_an_info_column_that_does_not_fit() {
    let mut s = screen(vec![names(&["abcdef"])]);
    s.info_column = Some(names(&["info!"]));
    assert_eq!(print(s, &Root::default(), Some(10), false), "abcdef\n");
    let mut s = screen(vec![names(&["abcdef"])]);
    s.info_column = Some(names(&["info"]));
    assert_eq!(print(s, &Root::default(), Some(10), false), "abcdefinfo\n");
}

#[test]
fn print_uses_colors_on_terminals() {
    let mut column = Column::new(true);
    column.push(row(&[("a", parse_style("green"))]));
    let text = print(screen(vec![column]), &Root::default(), None, true);
    assert_eq!(text, "\x1b[32ma\x1b[0m\n");
    let mut column = Column::new(true);
    column.push(row(&[("a", parse_style("green"))]));
    let mut config = Root::default();
    config.colors = Some(colors(Some(ColorsWhen::Never)));
    assert_eq!(print(screen(vec![column]), &config, None, true), "a\n");
}

#[test]
fn column_operations() {
    let mut column = Column::new(true);
    assert_eq!((column.width, column.height(), column.rows.len()), (0, 0, 0));
    column.push(row(&[("abc", None)]));
    column.push(row(&[("a", None), ("bcd", None)]));
    column.push(row(&[]));
    assert_eq!((column.width, column.height(), column.rows.len()), (4, 3, 3));
    column.set_height(5);
    assert_eq!((column.height(), column.rows.len()), (5, 3));
    column.set_height(2);
    assert_eq!((column.height(), column.rows.len()), (2, 2));
    assert_eq!(column.width, 4);
    let padding = Column::padding(3, 7, parse_style("red"));
    assert_eq!((padding.width, padding.height(), padding.rows.len()), (3, 7, 0));
    assert!(!padding.has_files);
    assert_eq!(padding.style, parse_style("red"));
    assert!(Row::new().is_empty());
    assert!(!row(&[("", None)]).is_empty());
    assert_eq!(row(&[("Ａ", None), ("b", None)]).width, 3);
}

#[test]
fn terminal_width_from_the_environment() {
    assert_eq!(terminal_width(Some("120"), Some(80)), Some(120));
    assert_eq!(terminal_width(Some("+120"), None), Some(120));
    assert_eq!(terminal_width(Some("0120"), None), Some(120));
    // A width of zero is unknown, and the terminal is not asked.
    assert_eq!(terminal_width(Some("0"), Some(80)), None);
    // A value that is no number leaves the decision to the terminal.
    assert_eq!(terminal_width(Some(""), Some(80)), Some(80));
    assert_eq!(terminal_width(Some("wide"), Some(80)), Some(80));
    assert_eq!(terminal_width(Some("12 "), Some(80)), Some(80));
    assert_eq!(terminal_width(Some("-1"), Some(80)), Some(80));
    assert_eq!(terminal_width(Some("99999999999999999999999"), Some(80)), Some(80));
    assert_eq!(terminal_width(None, Some(80)), Some(80));
    assert_eq!(terminal_width(None, Some(0)), None);
    assert_eq!(terminal_width(None, None), None);
    assert_eq!(terminal_width(Some("x"), None), None);
}

#[test]
fn plain_styles_write_no_codes() {
    let mut column = Column::new(true);
    column.push(row(&[("a", Some(Style::new())), ("b", parse_style("bold"))]));
    assert_eq!(columns_text(None, &vec![column], true), "a\x1b[1mb\x1b[0m\n");
}
