//! This module provides the [`render_groups`] function. It takes the output
//! of the analyzer and prepares the columns to be printed by the [`display`]
//! module.
//!
//! [`display`]: crate::display

use vstd::prelude::*;

use crate::config;
use crate::config::{Color, Colors, InfoContent, Root};
use crate::display::grid::{
    column_cut, column_views, column_with, empty_column, empty_row, padding_column, row_with,
    optional_view, Align, Column, ColumnView, Row, RowView, Screen, ScreenView,
};
use crate::display::strings::{limit_of, quoted, QuotedString};
use crate::display::styles::{
    combine, combine_opt, combined, combined_opt, described_style, parse_style, plain, Style,
};
use crate::summarizer::exts::{decimal_text, push_decimal};
use crate::summarizer::gitdiff::Change;
use crate::summarizer::matchers::{is_match, matched};
use crate::summarizer::sorting::{tree_stats, tree_stats_of};
use crate::summarizer::treereader::TreeInfo;
use crate::summarizer::info::{chars_of, find_char, parse, text_of, token_views, tokens_of};
use crate::summarizer::info::{position_of_char, Token, TokenView};
use crate::summarizer::{Analysis, File, FilesGroup};

verus! {

/// Default padding between columns.
pub const DEFAULT_PADDING: usize = 4;

/// Sizes up to this many bytes are written in the unit that they have.
pub const UNIT_LIMIT: u64 = 0x100000;

/// The size after it was divided by 1024, dropping the rest, until it was
/// no more than 1024 times 1024.
pub open spec fn scaled_size(size: u64) -> u64
    decreases size,
{
    if size > UNIT_LIMIT {
        scaled_size(size / 1024)
    } else {
        size
    }
}

/// How often a size has to be divided to scale it.
pub open spec fn scale_steps(size: u64) -> nat
    decreases size,
{
    if size > UNIT_LIMIT {
        scale_steps(size / 1024) + 1
    } else {
        0
    }
}

/// The letter of the unit that is `steps` units above the kilobyte.
pub open spec fn unit_letter(steps: nat) -> char {
    if steps == 0 {
        'K'
    } else if steps == 1 {
        'M'
    } else if steps == 2 {
        'G'
    } else if steps == 3 {
        'T'
    } else if steps == 4 {
        'P'
    } else if steps == 5 {
        'E'
    } else if steps == 6 {
        'Z'
    } else {
        'Y'
    }
}

/// A number of 1024ths, rounded to the nearest whole; a half goes to the
/// even neighbour.
pub open spec fn rounded_units(size: u64) -> u64 {
    let whole = size / 1024;
    let rest = size % 1024;
    if rest > 512 || (rest == 512 && whole % 2 == 1) {
        (whole + 1) as u64
    } else {
        whole
    }
}

/// A size for people to read: the bytes as they are below 1024; above, the
/// size in the largest unit that leaves at most 1024 of them, without
/// decimal digits, and the letter of the unit.
pub open spec fn size_text(size: u64) -> Seq<char> {
    if size < 1024 {
        decimal_text(size as nat)
    } else {
        decimal_text(rounded_units(scaled_size(size)) as nat).push(
            unit_letter(scale_steps(size)),
        )
    }
}

fn unit_letter_of(steps: u8) -> (letter: char)
    ensures
        letter == unit_letter(steps as nat),
{
    if steps == 0 {
        'K'
    } else if steps == 1 {
        'M'
    } else if steps == 2 {
        'G'
    } else if steps == 3 {
        'T'
    } else if steps == 4 {
        'P'
    } else if steps == 5 {
        'E'
    } else if steps == 6 {
        'Z'
    } else {
        'Y'
    }
}

/// Writes a size for people to read, like `900`, `11K` or `2M`.
pub fn format_size(size: u64) -> (text: String)
    ensures
        text@ == size_text(size),
{
    let mut text = String::new();
    if size < 1024 {
        push_decimal(&mut text, size);
        assert(text@ =~= size_text(size));
        return text;
    }
    let mut scaled = size;
    let mut steps: u8 = 0;
    while scaled > UNIT_LIMIT
        invariant
            scaled_size(size) == scaled_size(scaled),
            scale_steps(size) == scale_steps(scaled) + steps,
            steps <= 6,
            scaled as int * pow1024(steps as nat) <= u64::MAX,
        decreases scaled,
    {
        assert(steps < 6) by {
            lemma_pow1024(steps as nat);
        }
        proof {
            lemma_pow1024(steps as nat);
            lemma_pow1024((steps + 1) as nat);
            assert((scaled / 1024) as int * pow1024((steps + 1) as nat) <= scaled as int
                * pow1024(steps as nat)) by (nonlinear_arith)
                requires
                    pow1024((steps + 1) as nat) == 1024 * pow1024(steps as nat),
                    pow1024(steps as nat) > 0,
                    scaled >= 0,
            ;
        }
        scaled = scaled / 1024;
        steps += 1;
    }
    let whole = scaled / 1024;
    let rest = scaled % 1024;
    let units = if rest > 512 || (rest == 512 && whole % 2 == 1) {
        whole + 1
    } else {
        whole
    };
    push_decimal(&mut text, units);
    text.push(unit_letter_of(steps));
    assert(text@ =~= size_text(size));
    text
}

/// 1024 to the power of `n`.
pub open spec fn pow1024(n: nat) -> int
    decreases n,
{
    if n == 0 {
        1
    } else {
        1024 * pow1024((n - 1) as nat)
    }
}

proof fn lemma_pow1024(n: nat)
    ensures
        pow1024(n) > 0,
        n == 6 ==> pow1024(n) == 0x1000000000000000,
        n >= 6 ==> pow1024(n) >= 0x1000000000000000,
    decreases n,
{
    reveal_with_fuel(pow1024, 7);
    if n > 6 {
        lemma_pow1024((n - 1) as nat);
    }
}


/// The styles of the fixed parts of the columns.
#[derive(Clone, Copy)]
pub struct Palette {
    pub column_label: Option<Style>,
    pub name_ellipsis: Option<Style>,
    pub more_entries: Option<Style>,
    pub diff_added: Option<Style>,
    pub diff_deleted: Option<Style>,
    pub disk_usage: Option<Style>,
}

/// The style of a colour of the configuration.
pub open spec fn color_style(color: Option<Color>) -> Option<Style> {
    match color {
        Some(c) => Some(c.style),
        None => None,
    }
}

/// The first of two styles that is there.
pub open spec fn style_or(first: Option<Style>, second: Option<Style>) -> Option<Style> {
    if first is Some {
        first
    } else {
        second
    }
}

/// The styles that the configuration gives the fixed parts. Added lines
/// are green and deleted lines are red unless the configuration says
/// otherwise.
pub open spec fn palette_of(colors: Option<Colors>) -> Palette {
    match colors {
        Some(c) => Palette {
            column_label: color_style(c.column_label),
            name_ellipsis: color_style(c.name_ellipsis),
            more_entries: color_style(c.more_entries),
            diff_added: style_or(color_style(c.diff_added), described_style("green"@)),
            diff_deleted: style_or(color_style(c.diff_deleted), described_style("red"@)),
            disk_usage: color_style(c.disk_usage),
        },
        None => Palette {
            column_label: None,
            name_ellipsis: None,
            more_entries: None,
            diff_added: described_style("green"@),
            diff_deleted: described_style("red"@),
            disk_usage: None,
        },
    }
}

fn style_of(color: &Option<Color>) -> (style: Option<Style>)
    ensures
        style == color_style(*color),
{
    match color {
        Some(c) => Some(c.style),
        None => None,
    }
}

fn or_described(style: Option<Style>, description: &str) -> (r: Option<Style>)
    ensures
        r == style_or(style, described_style(description@)),
{
    match style {
        Some(_) => style,
        None => parse_style(description),
    }
}

/// The styles of the fixed parts of the columns.
pub fn palette(colors: &Option<Colors>) -> (p: Palette)
    ensures
        p == palette_of(*colors),
{
    match colors {
        Some(c) => Palette {
            column_label: style_of(&c.column_label),
            name_ellipsis: style_of(&c.name_ellipsis),
            more_entries: style_of(&c.more_entries),
            diff_added: or_described(style_of(&c.diff_added), "green"),
            diff_deleted: or_described(style_of(&c.diff_deleted), "red"),
            disk_usage: style_of(&c.disk_usage),
        },
        None => Palette {
            column_label: None,
            name_ellipsis: None,
            more_entries: None,
            diff_added: parse_style("green"),
            diff_deleted: parse_style("red"),
            disk_usage: None,
        },
    }
}

/// The style rules of the configuration.
pub open spec fn rules_of(colors: Option<Colors>) -> Seq<config::Style> {
    match colors {
        Some(c) => c.styles@,
        None => Seq::empty(),
    }
}

/// Whether a group of `len` entries is summarized: it is where a maximum of
/// rows is set, the group has more entries than rows, and more than two
/// entries. The row that stands for the rest then never counts one entry
/// alone.
pub open spec fn is_summarized(max_rows: Option<usize>, len: nat) -> bool {
    limit_of(max_rows) is Some && limit_of(max_rows).unwrap() < len && len > 2
}

/// The number of entries of a group that get a row of their own: all of
/// them, or one less than the maximum of rows where the group is
/// summarized, so that the names and the row for the rest take no more
/// rows than the maximum.
pub open spec fn shown_len(max_rows: Option<usize>, len: nat) -> nat {
    if is_summarized(max_rows, len) {
        (limit_of(max_rows).unwrap() - 1) as nat
    } else {
        len
    }
}

/// A group that is summarized takes as many rows as the maximum: one less
/// for its entries, and one for the rest, which are two entries or more.
pub proof fn lemma_summarized_rows(max_rows: Option<usize>, len: nat)
    requires
        is_summarized(max_rows, len),
    ensures
        shown_len(max_rows, len) + 1 == limit_of(max_rows).unwrap(),
        len - shown_len(max_rows, len) >= 2,
{
}

/// A row with a sign and a count, or an empty row where the count is zero.
pub open spec fn count_row(sign: char, count: u32, style: Option<Style>) -> RowView {
    if count > 0 {
        row_with(empty_row(), seq![sign] + decimal_text(count as nat), style)
    } else {
        empty_row()
    }
}

/// The row of a file in the column of added lines.
pub open spec fn added_row(file: File, palette: Palette) -> RowView {
    match file.git_changes {
        Some(changes) => count_row('+', changes.insertions, palette.diff_added),
        None => empty_row(),
    }
}

/// The row of a file in the column of deleted lines.
pub open spec fn deleted_row(file: File, palette: Palette) -> RowView {
    match file.git_changes {
        Some(changes) => count_row('-', changes.deletions, palette.diff_deleted),
        None => empty_row(),
    }
}

/// The row of a file in the column of disk usage.
pub open spec fn usage_row(file: File, palette: Palette) -> RowView {
    match tree_stats(file) {
        Some(info) => row_with(empty_row(), size_text(info.disk_usage), palette.disk_usage),
        None => empty_row(),
    }
}

/// Whether a file has added lines to show.
pub open spec fn has_added(file: File) -> bool {
    file.git_changes matches Some(changes) && changes.insertions > 0
}

/// Whether a file has deleted lines to show.
pub open spec fn has_deleted(file: File) -> bool {
    file.git_changes matches Some(changes) && changes.deletions > 0
}

/// Whether a file has a disk usage to show.
pub open spec fn has_usage(file: File) -> bool {
    tree_stats(file) matches Some(info) && info.disk_usage > 0
}

/// Whether a style rule applies to a file. Rules apply to hidden files too.
pub open spec fn rule_applies(rule: config::Style, file: File, now: Option<u64>) -> bool {
    matched(file.entry, file.git_changes, true, rule.matchers@, now)
}

/// The style of the name of a file: `start`, with the colour of every rule
/// that applies laid over it, one rule after the other.
pub open spec fn name_style_from(
    start: Style,
    rules: Seq<config::Style>,
    file: File,
    now: Option<u64>,
) -> Style
    decreases rules.len(),
{
    if rules.len() == 0 {
        start
    } else {
        let before = name_style_from(start, rules.drop_last(), file, now);
        let rule = rules.last();
        if rule_applies(rule, file, now) && rule.color is Some {
            combined(before, rule.color.unwrap().style)
        } else {
            before
        }
    }
}

/// The style that the colour scheme of the environment gives a file, laid
/// over the plain style.
pub open spec fn base_style(file: File) -> Style {
    match file.entry.ls_style {
        Some(style) => combined(plain(), style),
        None => plain(),
    }
}

/// The style of the name of a file.
pub open spec fn name_style(rules: Seq<config::Style>, file: File, now: Option<u64>) -> Style {
    name_style_from(base_style(file), rules, file, now)
}

/// The row of indicators of a file: the indicator of every rule that
/// applies, one rule after the other.
pub open spec fn indicator_row(rules: Seq<config::Style>, file: File, now: Option<u64>) -> RowView
    decreases rules.len(),
{
    if rules.len() == 0 {
        empty_row()
    } else {
        let before = indicator_row(rules.drop_last(), file, now);
        let rule = rules.last();
        if rule_applies(rule, file, now) && rule.indicator is Some {
            row_with(
                before,
                rule.indicator.unwrap().spec_get().0,
                rule.indicator.unwrap().spec_get().1,
            )
        } else {
            before
        }
    }
}

/// Whether any rule gives the file an indicator.
pub open spec fn has_indicator(rules: Seq<config::Style>, file: File, now: Option<u64>) -> bool {
    exists|i: int|
        0 <= i < rules.len() && rule_applies(#[trigger] rules[i], file, now) && rules[i].indicator
            is Some
}

/// The mark that stands behind a name that was cut.
pub open spec fn ellipsis() -> Seq<char> {
    seq!['\u{2026}']
}

/// The row of a file in the column of names: the name, made fit to be
/// shown, in its style where that is not plain, and the ellipsis where the
/// name was cut.
pub open spec fn name_row(
    file: File,
    max_name_width: Option<usize>,
    rules: Seq<config::Style>,
    palette: Palette,
    now: Option<u64>,
) -> RowView {
    let q = quoted(file.entry.file_name@, max_name_width);
    let style = name_style(rules, file, now);
    let named = row_with(
        empty_row(),
        q.text,
        if style == plain() {
            None
        } else {
            Some(style)
        },
    );
    if q.truncated {
        row_with(named, ellipsis(), palette.name_ellipsis)
    } else {
        named
    }
}

/// The row that stands for the entries that got no row of their own.
pub open spec fn more_row(count: nat, palette: Palette) -> RowView {
    row_with(
        empty_row(),
        seq!['+'] + decimal_text(count) + " entries"@,
        palette.more_entries,
    )
}

/// The row of the label of a column.
pub open spec fn label_row(label: Option<String>, palette: Palette) -> RowView {
    match label {
        Some(text) => row_with(empty_row(), text@, palette.column_label),
        None => empty_row(),
    }
}

/// A column that is empty but for the row that stands beside the labels,
/// where there are labels.
pub open spec fn side_start(has_labels: bool) -> ColumnView {
    if has_labels {
        column_with(empty_column(false), empty_row())
    } else {
        empty_column(false)
    }
}

/// The column after the rows were added to it, one after the other.
pub open spec fn with_rows(start: ColumnView, rows: Seq<RowView>) -> ColumnView
    decreases rows.len(),
{
    if rows.len() == 0 {
        start
    } else {
        column_with(with_rows(start, rows.drop_last()), rows.last())
    }
}

/// A column is as wide as the widest of the rows that were added to it,
/// and as the column that they were added to.
pub proof fn lemma_with_rows_width(start: ColumnView, rows: Seq<RowView>, i: int)
    requires
        0 <= i < rows.len(),
    ensures
        rows[i].width <= with_rows(start, rows).width,
        start.width <= with_rows(start, rows).width,
        with_rows(start, rows).rows == start.rows + rows,
    decreases rows.len(),
{
    lemma_with_rows(start, rows.drop_last());
    if i < rows.len() - 1 {
        lemma_with_rows_width(start, rows.drop_last(), i);
    }
    assert(start.rows + rows.drop_last() + seq![rows.last()] =~= start.rows + rows);
}

/// Adding rows to a column keeps its rows and puts the new rows behind
/// them; the column does not get narrower.
pub proof fn lemma_with_rows(start: ColumnView, rows: Seq<RowView>)
    ensures
        start.width <= with_rows(start, rows).width,
        with_rows(start, rows).rows == start.rows + rows,
        with_rows(start, rows).align == start.align,
        with_rows(start, rows).has_files == start.has_files,
        with_rows(start, rows).style == start.style,
    decreases rows.len(),
{
    if rows.len() > 0 {
        lemma_with_rows(start, rows.drop_last());
        assert(start.rows + rows.drop_last() + seq![rows.last()] =~= start.rows + rows);
    } else {
        assert(start.rows + rows =~= start.rows);
    }
}

/// The rows of the files in the column of added lines.
pub open spec fn added_rows(files: Seq<File>, palette: Palette) -> Seq<RowView> {
    Seq::new(files.len(), |i: int| added_row(files[i], palette))
}

/// The rows of the files in the column of deleted lines.
pub open spec fn deleted_rows(files: Seq<File>, palette: Palette) -> Seq<RowView> {
    Seq::new(files.len(), |i: int| deleted_row(files[i], palette))
}

/// The rows of the files in the column of disk usage.
pub open spec fn usage_rows(files: Seq<File>, palette: Palette) -> Seq<RowView> {
    Seq::new(files.len(), |i: int| usage_row(files[i], palette))
}

/// The rows of the files in the column of indicators.
pub open spec fn indicator_rows(
    files: Seq<File>,
    rules: Seq<config::Style>,
    now: Option<u64>,
) -> Seq<RowView> {
    Seq::new(files.len(), |i: int| indicator_row(rules, files[i], now))
}

/// The rows of the files in the column of names.
pub open spec fn name_rows(
    files: Seq<File>,
    max_name_width: Option<usize>,
    rules: Seq<config::Style>,
    palette: Palette,
    now: Option<u64>,
) -> Seq<RowView> {
    Seq::new(files.len(), |i: int| name_row(files[i], max_name_width, rules, palette, now))
}

/// A side column as it goes into the grid, with the space that parts it
/// from the next column: it is aligned to the right, has the style of the
/// group, and is as high as the names.
pub open spec fn side_columns(
    column: ColumnView,
    height: usize,
    style: Option<Style>,
) -> Seq<ColumnView> {
    seq![
        column_cut(ColumnView { align: Align::Right, style, ..column }, height),
        padding_column(1, height, style),
    ]
}

/// The files of a group that get a row of their own.
pub open spec fn shown_files(files: Seq<File>, max_rows: Option<usize>) -> Seq<File> {
    files.take(shown_len(max_rows, files.len()) as int)
}

/// The maximum width of the names of a column: the one of the column, or
/// the one of the grid where the column has none.
pub open spec fn name_width_of(column: config::Column, config: Root) -> Option<usize> {
    if column.max_name_width is Some {
        column.max_name_width
    } else {
        config.grid.max_name_width
    }
}

/// The column of names of a group, before it gets the style of the group.
pub open spec fn names_column(
    files: Seq<File>,
    column: config::Column,
    config: Root,
    has_labels: bool,
    now: Option<u64>,
) -> ColumnView {
    let palette = palette_of(config.colors);
    let rules = rules_of(config.colors);
    let shown = shown_files(files, config.grid.max_rows);
    let start = if has_labels {
        column_with(empty_column(true), label_row(column.label, palette))
    } else {
        empty_column(true)
    };
    let named = with_rows(
        start,
        name_rows(shown, name_width_of(column, config), rules, palette, now),
    );
    if is_summarized(config.grid.max_rows, files.len()) {
        column_with(named, more_row((files.len() - shown.len()) as nat, palette))
    } else {
        named
    }
}

/// Whether any of the files has added lines to show.
pub open spec fn any_added(files: Seq<File>) -> bool {
    exists|i: int| 0 <= i < files.len() && has_added(#[trigger] files[i])
}

/// Whether any of the files has deleted lines to show.
pub open spec fn any_deleted(files: Seq<File>) -> bool {
    exists|i: int| 0 <= i < files.len() && has_deleted(#[trigger] files[i])
}

/// Whether any of the files has a disk usage to show.
pub open spec fn any_usage(files: Seq<File>) -> bool {
    exists|i: int| 0 <= i < files.len() && has_usage(#[trigger] files[i])
}

/// The columns of a group, as they follow each other in the grid:
///
/// * the added lines, the deleted lines and the disk usage, each only where
///   a file that is shown has something to show there, and each followed by
///   a space;
/// * the indicators, where there are indicators in the grid;
/// * the names.
pub open spec fn group_columns(
    files: Seq<File>,
    column: config::Column,
    config: Root,
    has_labels: bool,
    has_indicators: bool,
    now: Option<u64>,
) -> Seq<ColumnView> {
    let palette = palette_of(config.colors);
    let rules = rules_of(config.colors);
    let shown = shown_files(files, config.grid.max_rows);
    let style = color_style(column.color);
    let names = names_column(files, column, config, has_labels, now);
    let start = side_start(has_labels);
    let added = if any_added(shown) {
        side_columns(with_rows(start, added_rows(shown, palette)), names.height, style)
    } else {
        Seq::empty()
    };
    let deleted = if any_deleted(shown) {
        side_columns(with_rows(start, deleted_rows(shown, palette)), names.height, style)
    } else {
        Seq::empty()
    };
    let usage = if any_usage(shown) {
        side_columns(with_rows(start, usage_rows(shown, palette)), names.height, style)
    } else {
        Seq::empty()
    };
    let indicators = if has_indicators {
        seq![
            ColumnView {
                align: Align::Right,
                style,
                ..with_rows(start, indicator_rows(shown, rules, now))
            },
        ]
    } else {
        Seq::empty()
    };
    added + deleted + usage + indicators + seq![ColumnView { style, ..names }]
}

fn has_added_lines(file: &File) -> (r: bool)
    ensures
        r == has_added(*file),
{
    match file.git_changes {
        Some(changes) => changes.insertions > 0,
        None => false,
    }
}

fn has_deleted_lines(file: &File) -> (r: bool)
    ensures
        r == has_deleted(*file),
{
    match file.git_changes {
        Some(changes) => changes.deletions > 0,
        None => false,
    }
}

fn has_disk_usage(file: &File) -> (r: bool)
    ensures
        r == has_usage(*file),
{
    match tree_stats_of(file) {
        Some(info) => info.disk_usage > 0,
        None => false,
    }
}

/// Which of the side columns the first `count` files have something for.
fn side_columns_needed(files: &Vec<File>, count: usize) -> (r: (bool, bool, bool))
    requires
        count <= files@.len(),
    ensures
        r.0 == any_added(files@.take(count as int)),
        r.1 == any_deleted(files@.take(count as int)),
        r.2 == any_usage(files@.take(count as int)),
{
    let mut added = false;
    let mut deleted = false;
    let mut usage = false;
    let ghost shown = files@.take(count as int);
    let mut i: usize = 0;
    while i < count
        invariant
            i <= count <= files@.len(),
            shown == files@.take(count as int),
            added == exists|k: int| 0 <= k < i && has_added(#[trigger] shown[k]),
            deleted == exists|k: int| 0 <= k < i && has_deleted(#[trigger] shown[k]),
            usage == exists|k: int| 0 <= k < i && has_usage(#[trigger] shown[k]),
        decreases count - i,
    {
        let file = &files[i];
        assert(shown[i as int] == *file);
        if has_added_lines(file) {
            added = true;
        }
        if has_deleted_lines(file) {
            deleted = true;
        }
        if has_disk_usage(file) {
            usage = true;
        }
        i += 1;
    }
    (added, deleted, usage)
}

fn count_row_of(sign: char, count: u32, style: Option<Style>) -> (row: Row)
    ensures
        row@ == count_row(sign, count, style),
{
    let mut row = Row::new();
    if count > 0 {
        let mut text = String::new();
        text.push(sign);
        push_decimal(&mut text, count as u64);
        assert(text@ =~= seq![sign] + decimal_text(count as nat));
        row.add_text(text, style);
    }
    row
}

fn added_row_of(file: &File, palette: &Palette) -> (row: Row)
    ensures
        row@ == added_row(*file, *palette),
{
    match file.git_changes {
        Some(changes) => count_row_of('+', changes.insertions, palette.diff_added),
        None => Row::new(),
    }
}

fn deleted_row_of(file: &File, palette: &Palette) -> (row: Row)
    ensures
        row@ == deleted_row(*file, *palette),
{
    match file.git_changes {
        Some(changes) => count_row_of('-', changes.deletions, palette.diff_deleted),
        None => Row::new(),
    }
}

fn usage_row_of(file: &File, palette: &Palette) -> (row: Row)
    ensures
        row@ == usage_row(*file, *palette),
{
    let mut row = Row::new();
    match tree_stats_of(file) {
        Some(info) => {
            row.add_text(format_size(info.disk_usage), palette.disk_usage);
        },
        None => {},
    }
    row
}

/// The style of the name of a file, and its row of indicators.
fn file_styles(file: &File, rules: &Vec<config::Style>, now: Option<u64>) -> (r: (Style, Row))
    ensures
        r.0 == name_style(rules@, *file, now),
        r.1@ == indicator_row(rules@, *file, now),
{
    let mut style = Style::new();
    match file.entry.ls_style {
        Some(ls_style) => {
            style = combine(style, ls_style);
        },
        None => {},
    }
    let mut indicator = Row::new();
    let mut i: usize = 0;
    assert(rules@.take(0) =~= Seq::<config::Style>::empty());
    while i < rules.len()
        invariant
            i <= rules@.len(),
            style == name_style(rules@.take(i as int), *file, now),
            indicator@ == indicator_row(rules@.take(i as int), *file, now),
        decreases rules@.len() - i,
    {
        let rule = &rules[i];
        proof {
            let longer = rules@.take(i + 1);
            assert(longer.drop_last() =~= rules@.take(i as int));
            assert(longer.last() == *rule);
        }
        let change = match &file.git_changes {
            Some(c) => Some(c),
            None => None,
        };
        if is_match(&file.entry, change, true, &rule.matchers, now) {
            match &rule.color {
                Some(color) => {
                    style = combine(style, color.style);
                },
                None => {},
            }
            match &rule.indicator {
                Some(ind) => {
                    let (text, ind_style) = ind.get();
                    indicator.add_text(text.to_owned(), ind_style);
                },
                None => {},
            }
        }
        i += 1;
    }
    assert(rules@.take(i as int) =~= rules@);
    (style, indicator)
}

fn name_row_of(
    file: &File,
    style: Style,
    max_name_width: Option<usize>,
    rules: Ghost<Seq<config::Style>>,
    palette: &Palette,
    now: Option<u64>,
) -> (row: Row)
    requires
        style == name_style(rules@, *file, now),
    ensures
        row@ == name_row(*file, max_name_width, rules@, *palette, now),
{
    let mut row = Row::new();
    let name_style = if style.is_plain() {
        None
    } else {
        Some(style)
    };
    let quoted_name = QuotedString::new(file.entry.file_name.as_slice(), max_name_width);
    row.add_text(quoted_name.to_string(), name_style);
    if quoted_name.is_truncated() {
        let mut mark = String::new();
        mark.push('\u{2026}');
        assert(mark@ =~= ellipsis());
        row.add_text(mark, palette.name_ellipsis);
    }
    row
}

fn more_row_of(count: usize, palette: &Palette) -> (row: Row)
    ensures
        row@ == more_row(count as nat, *palette),
{
    let mut text = String::new();
    text.push('+');
    push_decimal(&mut text, count as u64);
    text.append(" entries");
    assert(text@ =~= seq!['+'] + decimal_text(count as nat) + " entries"@);
    let mut row = Row::new();
    row.add_text(text, palette.more_entries);
    row
}

fn label_row_of(label: &Option<String>, palette: &Palette) -> (row: Row)
    ensures
        row@ == label_row(*label, *palette),
{
    let mut row = Row::new();
    match label {
        Some(text) => {
            row.add_text(text.clone(), palette.column_label);
        },
        None => {},
    }
    row
}

fn side_start_of(has_labels: bool) -> (column: Column)
    ensures
        column@ == side_start(has_labels),
{
    let mut column = Column::new(false);
    if has_labels {
        column.push(Row::new());
    }
    column
}

/// Puts a side column in the grid, with the space behind it.
fn push_side_column(
    columns: &mut Vec<Column>,
    column: Column,
    height: usize,
    style: Option<Style>,
)
    ensures
        column_views(final(columns)@) == column_views(old(columns)@) + side_columns(
            column@,
            height,
            style,
        ),
{
    let mut column = column;
    column.align_right();
    column.set_style(style);
    column.set_height(height);
    columns.push(column);
    columns.push(Column::padding(1, height, style));
    assert(column_views(columns@) =~= column_views(old(columns)@) + side_columns(
        column@,
        height,
        style,
    ));
}

/// The number of files of a group that get a row of their own.
pub fn shown_count(max_rows: Option<usize>, len: usize) -> (count: usize)
    ensures
        count == shown_len(max_rows, len as nat),
        count <= len,
{
    match max_rows {
        Some(max) if max > 0 && max < len && len > 2 => max - 1,
        _ => len,
    }
}

/// The columns of a group with their rows, before they are put in the grid.
pub struct GroupColumns {
    pub added: Column,
    pub deleted: Column,
    pub usage: Column,
    pub indicators: Column,
    pub names: Column,
}

/// Builds the rows of the first `count` files of a group.
fn build_rows(
    files: &Vec<File>,
    count: usize,
    has_labels: bool,
    label: &Option<String>,
    max_name_width: Option<usize>,
    rules: &Vec<config::Style>,
    palette: &Palette,
    now: Option<u64>,
) -> (built: GroupColumns)
    requires
        count <= files@.len(),
    ensures
        built.added@ == with_rows(
            side_start(has_labels),
            added_rows(files@.take(count as int), *palette),
        ),
        built.deleted@ == with_rows(
            side_start(has_labels),
            deleted_rows(files@.take(count as int), *palette),
        ),
        built.usage@ == with_rows(
            side_start(has_labels),
            usage_rows(files@.take(count as int), *palette),
        ),
        built.indicators@ == with_rows(
            side_start(has_labels),
            indicator_rows(files@.take(count as int), rules@, now),
        ),
        built.names@ == with_rows(
            if has_labels {
                column_with(empty_column(true), label_row(*label, *palette))
            } else {
                empty_column(true)
            },
            name_rows(files@.take(count as int), max_name_width, rules@, *palette, now),
        ),
{
    let ghost shown = files@.take(count as int);
    let mut added_column = side_start_of(has_labels);
    let mut deleted_column = side_start_of(has_labels);
    let mut usage_column = side_start_of(has_labels);
    let mut indicators_column = side_start_of(has_labels);
    let mut names_column = Column::new(true);
    if has_labels {
        names_column.push(label_row_of(label, palette));
    }
    let ghost side = side_start(has_labels);
    let ghost names_start = names_column@;

    let mut i: usize = 0;
    assert(shown.take(0) =~= Seq::<File>::empty());
    assert(added_rows(shown.take(0), *palette) =~= Seq::<RowView>::empty());
    assert(deleted_rows(shown.take(0), *palette) =~= Seq::<RowView>::empty());
    assert(usage_rows(shown.take(0), *palette) =~= Seq::<RowView>::empty());
    assert(indicator_rows(shown.take(0), rules@, now) =~= Seq::<RowView>::empty());
    assert(name_rows(shown.take(0), max_name_width, rules@, *palette, now) =~= Seq::<
        RowView,
    >::empty());
    while i < count
        invariant
            i <= count <= files@.len(),
            shown == files@.take(count as int),
            added_column@ == with_rows(side, added_rows(shown.take(i as int), *palette)),
            deleted_column@ == with_rows(side, deleted_rows(shown.take(i as int), *palette)),
            usage_column@ == with_rows(side, usage_rows(shown.take(i as int), *palette)),
            indicators_column@ == with_rows(
                side,
                indicator_rows(shown.take(i as int), rules@, now),
            ),
            names_column@ == with_rows(
                names_start,
                name_rows(shown.take(i as int), max_name_width, rules@, *palette, now),
            ),
        decreases count - i,
    {
        let file = &files[i];
        proof {
            let longer = shown.take(i + 1);
            let before = shown.take(i as int);
            assert(longer.last() == *file);
            assert(added_rows(longer, *palette).drop_last() =~= added_rows(before, *palette));
            assert(deleted_rows(longer, *palette).drop_last() =~= deleted_rows(
                before,
                *palette,
            ));
            assert(usage_rows(longer, *palette).drop_last() =~= usage_rows(before, *palette));
            assert(indicator_rows(longer, rules@, now).drop_last() =~= indicator_rows(
                before,
                rules@,
                now,
            ));
            assert(name_rows(longer, max_name_width, rules@, *palette, now).drop_last()
                =~= name_rows(before, max_name_width, rules@, *palette, now));
        }
        added_column.push(added_row_of(file, palette));
        deleted_column.push(deleted_row_of(file, palette));
        usage_column.push(usage_row_of(file, palette));
        let (style, indicator) = file_styles(file, rules, now);
        indicators_column.push(indicator);
        names_column.push(name_row_of(file, style, max_name_width, Ghost(rules@), palette, now));
        i += 1;
    }
    assert(shown.take(i as int) =~= shown);
    GroupColumns {
        added: added_column,
        deleted: deleted_column,
        usage: usage_column,
        indicators: indicators_column,
        names: names_column,
    }
}

/// A side column in the grid, where there is one.
pub open spec fn optional_side(
    column: Option<ColumnView>,
    height: usize,
    style: Option<Style>,
) -> Seq<ColumnView> {
    match column {
        Some(c) => side_columns(c, height, style),
        None => Seq::empty(),
    }
}

/// The column of indicators in the grid, where there is one: it is aligned
/// to the right and has the style of the group.
pub open spec fn optional_indicators(
    column: Option<ColumnView>,
    style: Option<Style>,
) -> Seq<ColumnView> {
    match column {
        Some(c) => seq![ColumnView { align: Align::Right, style, ..c }],
        None => Seq::empty(),
    }
}

/// The columns of a group in the order of the grid, given the columns with
/// their rows.
pub open spec fn arranged(
    added: Option<ColumnView>,
    deleted: Option<ColumnView>,
    usage: Option<ColumnView>,
    indicators: Option<ColumnView>,
    names: ColumnView,
    style: Option<Style>,
) -> Seq<ColumnView> {
    optional_side(added, names.height, style) + optional_side(deleted, names.height, style)
        + optional_side(usage, names.height, style) + optional_indicators(indicators, style)
        + seq![ColumnView { style, ..names }]
}

fn push_optional_side(
    columns: &mut Vec<Column>,
    column: Option<Column>,
    height: usize,
    style: Option<Style>,
)
    ensures
        column_views(final(columns)@) == column_views(old(columns)@) + optional_side(
            optional_view(column),
            height,
            style,
        ),
{
    match column {
        Some(c) => {
            push_side_column(columns, c, height, style);
        },
        None => {
            assert(column_views(columns@) =~= column_views(columns@) + Seq::<
                ColumnView,
            >::empty());
        },
    }
}

fn push_optional_indicators(
    columns: &mut Vec<Column>,
    column: Option<Column>,
    style: Option<Style>,
)
    ensures
        column_views(final(columns)@) == column_views(old(columns)@) + optional_indicators(
            optional_view(column),
            style,
        ),
{
    match column {
        Some(c) => {
            let mut c = c;
            c.align_right();
            c.set_style(style);
            columns.push(c);
            assert(column_views(columns@) =~= column_views(old(columns)@) + seq![c@]);
        },
        None => {
            assert(column_views(columns@) =~= column_views(columns@) + Seq::<
                ColumnView,
            >::empty());
        },
    }
}

fn push_names(columns: &mut Vec<Column>, names: Column, style: Option<Style>)
    ensures
        column_views(final(columns)@) == column_views(old(columns)@) + seq![
            ColumnView { style, ..names@ },
        ],
{
    let mut names = names;
    names.set_style(style);
    columns.push(names);
    assert(column_views(columns@) =~= column_views(old(columns)@) + seq![names@]);
}

/// Puts the columns of a group in the grid.
fn arrange(
    columns: &mut Vec<Column>,
    added: Option<Column>,
    deleted: Option<Column>,
    usage: Option<Column>,
    indicators: Option<Column>,
    names: Column,
    style: Option<Style>,
)
    ensures
        column_views(final(columns)@) == column_views(old(columns)@) + arranged(
            optional_view(added),
            optional_view(deleted),
            optional_view(usage),
            optional_view(indicators),
            names@,
            style,
        ),
{
    let height = names.height();
    let ghost start = column_views(columns@);
    let ghost a = optional_side(optional_view(added), height, style);
    let ghost d = optional_side(optional_view(deleted), height, style);
    let ghost u = optional_side(optional_view(usage), height, style);
    let ghost i = optional_indicators(optional_view(indicators), style);
    let ghost n = seq![ColumnView { style, ..names@ }];
    push_optional_side(columns, added, height, style);
    push_optional_side(columns, deleted, height, style);
    push_optional_side(columns, usage, height, style);
    push_optional_indicators(columns, indicators, style);
    push_names(columns, names, style);
    assert(column_views(columns@) == start + a + d + u + i + n);
    assert(start + a + d + u + i + n =~= start + (a + d + u + i + n));
}

/// Adds the columns of a group to the grid.
pub fn render_group(
    group: &FilesGroup,
    config: &Root,
    has_labels: bool,
    has_indicators: bool,
    now: Option<u64>,
    columns: &mut Vec<Column>,
)
    ensures
        column_views(final(columns)@) == column_views(old(columns)@) + group_columns(
            group.files@,
            *group.column,
            *config,
            has_labels,
            has_indicators,
            now,
        ),
{
    let files = &group.files;
    let len = files.len();
    // Truncate the column height if `max_rows` is set.
    let count = shown_count(config.grid.max_rows, len);
    let palette = palette(&config.colors);
    let no_rules: Vec<config::Style> = Vec::new();
    let rules: &Vec<config::Style> = match &config.colors {
        Some(colors) => &colors.styles,
        None => &no_rules,
    };
    assert(rules@ =~= rules_of(config.colors));
    let max_name_width = match group.column.max_name_width {
        Some(width) => Some(width),
        None => config.grid.max_name_width,
    };

    // For git changes and disk, create columns only if there are
    // data for them.
    let (want_added, want_deleted, want_usage) = side_columns_needed(files, count);
    let built = build_rows(
        files,
        count,
        has_labels,
        &group.column.label,
        max_name_width,
        rules,
        &palette,
        now,
    );
    let GroupColumns { added, deleted, usage, indicators, names } = built;
    let mut names = names;
    if count < len {
        names.push(more_row_of(len - count, &palette));
    }
    arrange(
        columns,
        if want_added {
            Some(added)
        } else {
            None
        },
        if want_deleted {
            Some(deleted)
        } else {
            None
        },
        if want_usage {
            Some(usage)
        } else {
            None
        },
        if has_indicators {
            Some(indicators)
        } else {
            None
        },
        names,
        style_of(&group.column.color),
    );
}


/// What an info box can tell of the directory.
pub ghost struct InfoFacts {
    /// The directory, as it is shown.
    pub path: Seq<char>,
    /// The home directory of the user, where it is known.
    pub home: Option<Seq<char>>,
    /// The counters with their counts.
    pub variables: Seq<(Seq<char>, usize)>,
    pub changes: Option<Change>,
    pub disk_usage_files: u64,
}

/// An info box while it is built: the rows that are complete, the row
/// that is written, and the style that is in force.
pub ghost struct InfoState {
    pub column: ColumnView,
    pub row: RowView,
    pub style: Option<Style>,
}

/// The count of the first counter of that name, or zero where there is no
/// such counter.
pub open spec fn variable_count(variables: Seq<(Seq<char>, usize)>, name: Seq<char>) -> usize
    decreases variables.len(),
{
    if variables.len() == 0 {
        0
    } else if variables[0].0 == name {
        variables[0].1
    } else {
        variable_count(variables.skip(1), name)
    }
}

/// Where no name occurs twice among the counters, the count of a name is
/// the count of the one counter of that name.
pub proof fn lemma_variable_count(variables: Seq<(Seq<char>, usize)>, at: int)
    requires
        0 <= at < variables.len(),
        forall|i: int, j: int|
            0 <= i < j < variables.len() ==> (#[trigger] variables[i]).0 != (
            #[trigger] variables[j]).0,
    ensures
        variable_count(variables, variables[at].0) == variables[at].1,
    decreases variables.len(),
{
    if at > 0 {
        let rest = variables.skip(1);
        assert(variables[0].0 != variables[at].0);
        assert forall|i: int, j: int| 0 <= i < j < rest.len() implies (#[trigger] rest[i]).0 != (
        #[trigger] rest[j]).0 by {
            assert(rest[i] == variables[i + 1]);
            assert(rest[j] == variables[j + 1]);
        }
        assert(rest[at - 1] == variables[at]);
        lemma_variable_count(rest, at - 1);
    }
}

/// Whether a text starts with another.
pub open spec fn starts_with(text: Seq<char>, prefix: Seq<char>) -> bool {
    prefix.len() <= text.len() && text.take(prefix.len() as int) == prefix
}

/// The path with the home directory at its start written as `~`.
pub open spec fn home_path(path: Seq<char>, home: Option<Seq<char>>) -> Seq<char> {
    match home {
        Some(h) => if starts_with(path, h) {
            seq!['~'] + path.skip(h.len() as int)
        } else {
            path
        },
        None => path,
    }
}

/// The box after the text from `from` on was written to it: every line
/// break in the text completes a row.
pub open spec fn text_written(state: InfoState, text: Seq<char>, from: int) -> InfoState
    decreases text.len() - from,
{
    let line_end = find_char(text, from, '\n');
    if 0 <= from <= line_end < text.len() {
        text_written(
            InfoState {
                column: column_with(
                    state.column,
                    row_with(state.row, text.subrange(from, line_end), state.style),
                ),
                row: empty_row(),
                style: state.style,
            },
            text,
            line_end + 1,
        )
    } else {
        InfoState {
            row: row_with(state.row, text.subrange(from, text.len() as int), state.style),
            ..state
        }
    }
}

/// The box with one more span in the row that is written.
pub open spec fn span_written(state: InfoState, text: Seq<char>) -> InfoState {
    InfoState { row: row_with(state.row, text, state.style), ..state }
}

/// The box after a token was applied to it.
pub open spec fn token_applied(
    state: InfoState,
    token: TokenView,
    base_style: Option<Style>,
    facts: InfoFacts,
) -> InfoState {
    match token {
        TokenView::Text(text) => text_written(state, text, 0),
        TokenView::Variable(name) => span_written(
            state,
            decimal_text(variable_count(facts.variables, name) as nat),
        ),
        TokenView::Style(next) => InfoState {
            style: combined_opt(state.style, Some(next)),
            ..state
        },
        TokenView::StyleReset => InfoState { style: base_style, ..state },
        TokenView::Path => span_written(state, facts.path),
        TokenView::PathHome => span_written(state, home_path(facts.path, facts.home)),
        TokenView::DiskUsage => span_written(state, size_text(facts.disk_usage_files)),
        TokenView::AddedLines => match facts.changes {
            Some(changes) => span_written(state, decimal_text(changes.insertions as nat)),
            None => state,
        },
        TokenView::DeletedLines => match facts.changes {
            Some(changes) => span_written(state, decimal_text(changes.deletions as nat)),
            None => state,
        },
    }
}

/// The box after the tokens were applied to it, one after the other.
pub open spec fn tokens_applied(
    state: InfoState,
    tokens: Seq<TokenView>,
    base_style: Option<Style>,
    facts: InfoFacts,
) -> InfoState
    decreases tokens.len(),
{
    if tokens.len() == 0 {
        state
    } else {
        token_applied(
            tokens_applied(state, tokens.drop_last(), base_style, facts),
            tokens.last(),
            base_style,
            facts,
        )
    }
}

/// The column of an info box: the tokens of its format are applied to an
/// empty box in its base style, and the row that is written at the end is
/// added unless it is empty.
pub open spec fn info_column(
    format: Seq<char>,
    base_style: Option<Style>,
    facts: InfoFacts,
) -> ColumnView {
    let start = InfoState {
        column: ColumnView { style: base_style, ..empty_column(true) },
        row: empty_row(),
        style: base_style,
    };
    let end = tokens_applied(start, tokens_of(format), base_style, facts);
    if end.row.spans.len() > 0 {
        column_with(end.column, end.row)
    } else {
        end.column
    }
}

/// The views of the counters.
pub open spec fn variable_views(variables: Seq<(String, usize)>) -> Seq<(Seq<char>, usize)> {
    Seq::new(variables.len(), |i: int| (variables[i].0@, variables[i].1))
}

/// What the info boxes can tell of an analysis.
pub open spec fn facts_of(analysis: Analysis, home: Option<String>) -> InfoFacts {
    InfoFacts {
        path: analysis.path@,
        home: match home {
            Some(h) => Some(h@),
            None => None,
        },
        variables: variable_views(analysis.variables@),
        changes: analysis.changes,
        disk_usage_files: analysis.disk_usage_files,
    }
}

fn count_of(variables: &Vec<(String, usize)>, name: &String) -> (count: usize)
    ensures
        count == variable_count(variable_views(variables@), name@),
{
    let ghost views = variable_views(variables@);
    let mut i: usize = 0;
    assert(views.skip(0) =~= views);
    while i < variables.len()
        invariant
            i <= variables@.len(),
            views == variable_views(variables@),
            variable_count(views, name@) == variable_count(views.skip(i as int), name@),
        decreases variables@.len() - i,
    {
        assert(views.skip(i as int)[0] == views[i as int]);
        assert(views.skip(i as int).skip(1) =~= views.skip(i + 1));
        if variables[i].0 == *name {
            return variables[i].1;
        }
        i += 1;
    }
    0
}

/// The path with the home directory at its start written as `~`.
pub fn abbreviate_home(path: &str, home: &Option<String>) -> (text: String)
    ensures
        text@ == home_path(
            path@,
            match home {
                Some(h) => Some(h@),
                None => None,
            },
        ),
{
    let chars = chars_of(path);
    match home {
        Some(h) => {
            let prefix = chars_of(h.as_str());
            if prefix.len() <= chars.len() {
                let mut i: usize = 0;
                while i < prefix.len()
                    invariant
                        i <= prefix@.len() <= chars@.len(),
                        chars@ == path@,
                        prefix@ == h@,
                        *home == Some(*h),
                        forall|k: int| 0 <= k < i ==> chars@[k] == prefix@[k],
                    decreases prefix@.len() - i,
                {
                    if chars[i] != prefix[i] {
                        assert(chars@.take(prefix@.len() as int)[i as int] != prefix@[i as int]);
                        assert(chars@.subrange(0, chars@.len() as int) =~= chars@);
                        return text_of(&chars, 0, chars.len());
                    }
                    i += 1;
                }
                assert(chars@.take(prefix@.len() as int) =~= prefix@);
                let mut text = String::new();
                text.push('~');
                let rest = text_of(&chars, prefix.len(), chars.len());
                text.append(rest.as_str());
                assert(text@ =~= seq!['~'] + chars@.skip(prefix@.len() as int));
                text
            } else {
                assert(chars@.subrange(0, chars@.len() as int) =~= chars@);
                text_of(&chars, 0, chars.len())
            }
        },
        None => {
            assert(chars@.subrange(0, chars@.len() as int) =~= chars@);
            text_of(&chars, 0, chars.len())
        },
    }
}

/// Writes a text to an info box. Every line break completes a row.
fn write_text(column: &mut Column, row: &mut Row, text: &str, style: Option<Style>)
    ensures
        (InfoState { column: final(column)@, row: final(row)@, style }) == text_written(
            InfoState { column: old(column)@, row: old(row)@, style },
            text@,
            0,
        ),
{
    let chars = chars_of(text);
    let mut from: usize = 0;
    loop
        invariant_except_break
            from <= chars@.len(),
            chars@ == text@,
            text_written(InfoState { column: old(column)@, row: old(row)@, style }, text@, 0)
                == text_written(InfoState { column: column@, row: row@, style }, text@, from as int),
        ensures
            (InfoState { column: column@, row: row@, style }) == text_written(
                InfoState { column: old(column)@, row: old(row)@, style },
                text@,
                0,
            ),
        decreases chars@.len() - from,
    {
        let line_end = position_of_char(&chars, from, '\n');
        proof {
            crate::summarizer::info::lemma_find_char(chars@, from as int, '\n');
        }
        if line_end < chars.len() {
            row.add_text(text_of(&chars, from, line_end), style);
            let mut complete = Row::new();
            core::mem::swap(row, &mut complete);
            column.push(complete);
            from = line_end + 1;
        } else {
            row.add_text(text_of(&chars, from, chars.len()), style);
            break;
        }
    }
}


/// Writes a span to the row of an info box.
fn write_span(row: &mut Row, text: String, style: Option<Style>, column: Ghost<ColumnView>)
    ensures
        (InfoState { column: column@, row: final(row)@, style }) == span_written(
            InfoState { column: column@, row: old(row)@, style },
            text@,
        ),
{
    row.add_text(text, style);
}

/// Applies a token to an info box.
fn apply_token(
    column: &mut Column,
    row: &mut Row,
    style: &mut Option<Style>,
    token: &Token,
    base_style: Option<Style>,
    analysis: &Analysis,
    home: &Option<String>,
)
    ensures
        (InfoState { column: final(column)@, row: final(row)@, style: *final(style) })
            == token_applied(
            InfoState { column: old(column)@, row: old(row)@, style: *old(style) },
            token@,
            base_style,
            facts_of(*analysis, *home),
        ),
{
    let current = *style;
    match token {
        Token::Text(text) => {
            write_text(column, row, text.as_str(), current);
        },
        Token::Variable(name) => {
            let count = count_of(&analysis.variables, name);
            write_span(row, crate::summarizer::exts::decimal(count as u64), current, Ghost(column@));
        },
        Token::Style(next) => {
            *style = combine_opt(current, Some(*next));
        },
        Token::StyleReset => {
            *style = base_style;
        },
        Token::Path => {
            write_span(row, analysis.path.clone(), current, Ghost(column@));
        },
        Token::PathHome => {
            write_span(row, abbreviate_home(analysis.path.as_str(), home), current, Ghost(column@));
        },
        Token::DiskUsage => {
            write_span(row, format_size(analysis.disk_usage_files), current, Ghost(column@));
        },
        Token::AddedLines => {
            match analysis.changes {
                Some(changes) => {
                    write_span(
                        row,
                        crate::summarizer::exts::decimal(changes.insertions as u64),
                        current,
                        Ghost(column@),
                    );
                },
                None => {},
            }
        },
        Token::DeletedLines => {
            match analysis.changes {
                Some(changes) => {
                    write_span(
                        row,
                        crate::summarizer::exts::decimal(changes.deletions as u64),
                        current,
                        Ghost(column@),
                    );
                },
                None => {},
            }
        },
    }
}

/// Builds the column of an info box.
pub fn render_info(analysis: &Analysis, info: &InfoContent, home: &Option<String>) -> (column:
    Column)
    ensures
        column@ == info_column(
            info.spec_get().0,
            info.spec_get().1,
            facts_of(*analysis, *home),
        ),
{
    let (text, base_style) = info.get();
    let mut style = base_style;
    let mut column = Column::new(true);
    let mut row = Row::new();
    column.set_style(base_style);
    let tokens = parse(text);
    let ghost start = InfoState { column: column@, row: row@, style };
    let ghost views = token_views(tokens@);
    let ghost facts = facts_of(*analysis, *home);
    let mut i: usize = 0;
    assert(views.take(0) =~= Seq::<TokenView>::empty());
    while i < tokens.len()
        invariant
            i <= tokens@.len(),
            views == token_views(tokens@),
            facts == facts_of(*analysis, *home),
            (InfoState { column: column@, row: row@, style }) == tokens_applied(
                start,
                views.take(i as int),
                base_style,
                facts,
            ),
        decreases tokens@.len() - i,
    {
        proof {
            let longer = views.take(i + 1);
            assert(longer.drop_last() =~= views.take(i as int));
            assert(longer.last() == tokens@[i as int]@);
        }
        apply_token(&mut column, &mut row, &mut style, &tokens[i], base_style, analysis, home);
        i += 1;
    }
    assert(views.take(i as int) =~= views);
    if !row.is_empty() {
        column.push(row);
    }
    column
}

/// The width of the space between two groups.
pub open spec fn padding_of(config: Root) -> usize {
    match config.grid.column_padding {
        Some(padding) => padding,
        None => DEFAULT_PADDING,
    }
}

/// Whether any of the groups has a label.
pub open spec fn any_label(groups: Seq<FilesGroup>) -> bool {
    exists|i: int| 0 <= i < groups.len() && (#[trigger] groups[i]).column.label is Some
}

/// Whether any of the files gets an indicator.
pub open spec fn files_have_indicator(
    files: Seq<File>,
    rules: Seq<config::Style>,
    now: Option<u64>,
) -> bool {
    exists|i: int| 0 <= i < files.len() && has_indicator(rules, #[trigger] files[i], now)
}

/// Whether any file that is shown, of any group, gets an indicator.
pub open spec fn any_indicator(groups: Seq<FilesGroup>, config: Root, now: Option<u64>) -> bool {
    exists|i: int|
        0 <= i < groups.len() && files_have_indicator(
            shown_files((#[trigger] groups[i]).files@, config.grid.max_rows),
            rules_of(config.colors),
            now,
        )
}

/// The columns of the groups, one group after the other: a group without
/// files has no columns, and a space parts the columns of a group from the
/// columns before them.
pub open spec fn groups_columns(
    groups: Seq<FilesGroup>,
    config: Root,
    has_labels: bool,
    has_indicators: bool,
    now: Option<u64>,
) -> Seq<ColumnView>
    decreases groups.len(),
{
    if groups.len() == 0 {
        Seq::empty()
    } else {
        let before = groups_columns(groups.drop_last(), config, has_labels, has_indicators, now);
        let group = groups.last();
        if group.files@.len() == 0 {
            before
        } else {
            before + (if before.len() > 0 {
                seq![padding_column(padding_of(config), 0, None)]
            } else {
                Seq::empty()
            }) + group_columns(
                group.files@,
                *group.column,
                config,
                has_labels,
                has_indicators,
                now,
            )
        }
    }
}

/// An info box of the configuration, where the configuration has it.
pub open spec fn optional_info(
    content: Option<InfoContent>,
    facts: InfoFacts,
) -> Option<ColumnView> {
    match content {
        Some(info) => Some(info_column(info.spec_get().0, info.spec_get().1, facts)),
        None => None,
    }
}

/// The screen of an analysis: the columns of its groups, and the info
/// boxes of the configuration.
pub open spec fn screen_of(
    analysis: Analysis,
    config: Root,
    home: Option<String>,
    now: Option<u64>,
) -> ScreenView {
    let facts = facts_of(analysis, home);
    ScreenView {
        columns: groups_columns(
            analysis.groups@,
            config,
            any_label(analysis.groups@),
            any_indicator(analysis.groups@, config, now),
            now,
        ),
        info_left: match config.info {
            Some(info) => optional_info(info.left, facts),
            None => None,
        },
        info_right: match config.info {
            Some(info) => optional_info(info.right, facts),
            None => None,
        },
        info_column: match config.info {
            Some(info) => optional_info(info.column, facts),
            None => None,
        },
    }
}

fn file_has_indicator(file: &File, rules: &Vec<config::Style>, now: Option<u64>) -> (r: bool)
    ensures
        r == has_indicator(rules@, *file, now),
{
    let mut i: usize = 0;
    while i < rules.len()
        invariant
            i <= rules@.len(),
            forall|k: int|
                0 <= k < i ==> !(rule_applies(#[trigger] rules@[k], *file, now)
                    && rules@[k].indicator is Some),
        decreases rules@.len() - i,
    {
        let rule = &rules[i];
        let change = match &file.git_changes {
            Some(c) => Some(c),
            None => None,
        };
        if rule.indicator.is_some() && is_match(&file.entry, change, true, &rule.matchers, now) {
            return true;
        }
        i += 1;
    }
    false
}

fn group_has_indicator(
    files: &Vec<File>,
    count: usize,
    rules: &Vec<config::Style>,
    now: Option<u64>,
) -> (r: bool)
    requires
        count <= files@.len(),
    ensures
        r == files_have_indicator(files@.take(count as int), rules@, now),
{
    let ghost shown = files@.take(count as int);
    let mut i: usize = 0;
    while i < count
        invariant
            i <= count <= files@.len(),
            shown == files@.take(count as int),
            forall|k: int| 0 <= k < i ==> !has_indicator(rules@, #[trigger] shown[k], now),
        decreases count - i,
    {
        assert(shown[i as int] == files@[i as int]);
        if file_has_indicator(&files[i], rules, now) {
            return true;
        }
        i += 1;
    }
    false
}

/// Whether any of the groups has a label, and whether any file that is
/// shown gets an indicator.
fn grid_features(groups: &Vec<FilesGroup>, config: &Root, now: Option<u64>) -> (r: (bool, bool))
    ensures
        r.0 == any_label(groups@),
        r.1 == any_indicator(groups@, *config, now),
{
    let no_rules: Vec<config::Style> = Vec::new();
    let rules: &Vec<config::Style> = match &config.colors {
        Some(colors) => &colors.styles,
        None => &no_rules,
    };
    assert(rules@ =~= rules_of(config.colors));
    let mut has_labels = false;
    let mut has_indicators = false;
    let mut i: usize = 0;
    while i < groups.len()
        invariant
            i <= groups@.len(),
            rules@ == rules_of(config.colors),
            has_labels == exists|k: int|
                0 <= k < i && (#[trigger] groups@[k]).column.label is Some,
            has_indicators == exists|k: int|
                0 <= k < i && files_have_indicator(
                    shown_files((#[trigger] groups@[k]).files@, config.grid.max_rows),
                    rules_of(config.colors),
                    now,
                ),
        decreases groups@.len() - i,
    {
        let group = &groups[i];
        if group.column.label.is_some() {
            has_labels = true;
        }
        let count = shown_count(config.grid.max_rows, group.files.len());
        if group_has_indicator(&group.files, count, rules, now) {
            has_indicators = true;
        }
        i += 1;
    }
    (has_labels, has_indicators)
}

/// Builds the columns of the groups.
fn render_columns(
    groups: &Vec<FilesGroup>,
    config: &Root,
    has_labels: bool,
    has_indicators: bool,
    now: Option<u64>,
) -> (columns: Vec<Column>)
    ensures
        column_views(columns@) == groups_columns(
            groups@,
            *config,
            has_labels,
            has_indicators,
            now,
        ),
{
    let padding = match config.grid.column_padding {
        Some(padding) => padding,
        None => DEFAULT_PADDING,
    };
    let mut columns: Vec<Column> = Vec::new();
    let mut i: usize = 0;
    assert(groups@.take(0) =~= Seq::<FilesGroup>::empty());
    assert(column_views(columns@) =~= Seq::<ColumnView>::empty());
    while i < groups.len()
        invariant
            i <= groups@.len(),
            padding == padding_of(*config),
            column_views(columns@) == groups_columns(
                groups@.take(i as int),
                *config,
                has_labels,
                has_indicators,
                now,
            ),
        decreases groups@.len() - i,
    {
        let group = &groups[i];
        proof {
            let longer = groups@.take(i + 1);
            assert(longer.drop_last() =~= groups@.take(i as int));
            assert(longer.last() == *group);
        }
        if !group.files.is_empty() {
            let ghost before = column_views(columns@);
            if !columns.is_empty() {
                columns.push(Column::padding(padding, 0, None));
                assert(column_views(columns@) =~= before + seq![
                    padding_column(padding, 0, None),
                ]);
            } else {
                assert(column_views(columns@) =~= before + Seq::<ColumnView>::empty());
            }
            render_group(group, config, has_labels, has_indicators, now, &mut columns);
        }
        i += 1;
    }
    assert(groups@.take(i as int) =~= groups@);
    columns
}

fn render_optional_info(
    analysis: &Analysis,
    content: &Option<InfoContent>,
    home: &Option<String>,
) -> (column: Option<Column>)
    ensures
        optional_view(column) == optional_info(*content, facts_of(*analysis, *home)),
{
    match content {
        Some(info) => Some(render_info(analysis, info, home)),
        None => None,
    }
}

/// Builds the screen of an analysis. Trees that are not settled count as
/// unavailable.
pub fn render_groups(
    analysis: &Analysis,
    config: &Root,
    home: &Option<String>,
    now: Option<u64>,
) -> (screen: Screen)
    ensures
        screen@ == screen_of(*analysis, *config, *home, now),
{
    let (has_labels, has_indicators) = grid_features(&analysis.groups, config, now);
    let columns = render_columns(&analysis.groups, config, has_labels, has_indicators, now);
    let (info_left, info_right, info_column) = match &config.info {
        Some(info) => (
            render_optional_info(analysis, &info.left, home),
            render_optional_info(analysis, &info.right, home),
            render_optional_info(analysis, &info.column, home),
        ),
        None => (None, None, None),
    };
    Screen { columns, info_left, info_right, info_column }
}

} // verus!
