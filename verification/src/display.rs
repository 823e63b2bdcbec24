//! This module provides the [`print()`] function, which takes an instance of
//! [`Screen`], and writes the required text (including ANSI escape codes) to
//! display it.

pub mod grid;
pub mod strings;
pub mod styles;

use vstd::prelude::*;
use vstd::string::{StringExecFns, StringSliceAdditionalSpecFns};

use crate::config::{Colors, ColorsWhen, Root};
use crate::display::grid::{
    column_views, optional_view, padding_column, Align, ColumnView, RowView, ScreenView, SpanView,
};
use crate::display::strings::limit_of;
use crate::display::styles::{
    combine_opt, combined_opt, prefix_of, prefix_text, suffix_of, suffix_text, Style,
};
use crate::summarizer::exts::{decimal_number, decimal_text, parse_decimal, push_decimal};

pub use grid::{Column, Row, Screen, Span};
pub use strings::QuotedString;

verus! {

/// Terminal width when the value can't be read from the TTY.
pub const DEFAULT_WIDTH: usize = 80;

/// The width of the terminal, given the value of the variable `COLUMNS`
/// (where it is set to some text) and the width that the terminal reports
/// (where it reports one).
///
/// A value of `COLUMNS` that is a number decides alone: it is the width, or
/// the width is unknown where it is zero. Otherwise the terminal decides,
/// and a width of zero is unknown too.
pub open spec fn width_of_terminal(columns: Option<Seq<u8>>, reported: Option<u16>) -> Option<
    usize,
> {
    let set = match columns {
        Some(text) => decimal_number(text, usize::MAX as u64),
        None => None,
    };
    match set {
        Some(width) => if width == 0 {
            None
        } else {
            Some(width as usize)
        },
        None => match reported {
            Some(width) => if width == 0 {
                None
            } else {
                Some(width as usize)
            },
            None => None,
        },
    }
}

/// Returns the terminal width.
///
/// 1. It checks the value of the `COLUMNS` environment variable.
/// 2. Then, it takes the window size that the TTY reported.
/// 3. If none of the above works, returns `None`.
pub fn terminal_width(columns: Option<&str>, reported: Option<u16>) -> (width: Option<usize>)
    ensures
        width == width_of_terminal(
            match columns {
                Some(text) => Some(text.spec_bytes()),
                None => None,
            },
            reported,
        ),
{
    let set = match columns {
        Some(text) => parse_decimal(text.as_bytes(), usize::MAX as u64),
        None => None,
    };
    match set {
        Some(width) => if width == 0 {
            None
        } else {
            Some(width as usize)
        },
        None => match reported {
            Some(width) => if width == 0 {
                None
            } else {
                Some(width as usize)
            },
            None => None,
        },
    }
}

/// A run of spaces.
pub open spec fn spaces(count: nat) -> Seq<char> {
    Seq::new(count, |i: int| ' ')
}

/// A text with the codes of its style around it, where colours are used
/// and the text has a style.
pub open spec fn painted(text: Seq<char>, style: Option<Style>, use_colors: bool) -> Seq<char> {
    match style {
        Some(s) => if use_colors {
            prefix_text(s) + text + suffix_text(s)
        } else {
            text
        },
        None => text,
    }
}

/// The space that fills a column on a line: nothing for no width; for the
/// lines within the height of the column, the spaces have its style.
pub open spec fn padding_text(column: ColumnView, line: nat, width: nat, use_colors: bool) -> Seq<
    char,
> {
    if width == 0 {
        Seq::empty()
    } else {
        painted(
            spaces(width),
            if column.height > line {
                column.style
            } else {
                None
            },
            use_colors,
        )
    }
}

/// The spans of a row, each in its own style laid over the style of the
/// column.
pub open spec fn spans_text(
    spans: Seq<SpanView>,
    column_style: Option<Style>,
    use_colors: bool,
) -> Seq<char>
    decreases spans.len(),
{
    if spans.len() == 0 {
        Seq::empty()
    } else {
        spans_text(spans.drop_last(), column_style, use_colors) + painted(
            spans.last().text,
            combined_opt(column_style, spans.last().style),
            use_colors,
        )
    }
}

/// The width that a row leaves free in its column.
pub open spec fn free_width(column: ColumnView, row: RowView) -> nat {
    if column.width > row.width {
        (column.width - row.width) as nat
    } else {
        0
    }
}

/// What a column shows on a line: its row of that line, with the free
/// width before it where the column is aligned to the right, and behind it
/// where it is aligned to the left; or only space where it has no such row.
pub open spec fn cell_text(column: ColumnView, line: nat, use_colors: bool) -> Seq<char> {
    if line >= column.rows.len() {
        padding_text(column, line, column.width as nat, use_colors)
    } else {
        let row = column.rows[line as int];
        let text = spans_text(row.spans, column.style, use_colors);
        let padding = padding_text(column, line, free_width(column, row), use_colors);
        match column.align {
            Align::Right => padding + text,
            Align::Left => text + padding,
        }
    }
}

/// What the columns show on a line, without the end of the line.
pub open spec fn cells_text(columns: Seq<ColumnView>, line: nat, use_colors: bool) -> Seq<char>
    decreases columns.len(),
{
    if columns.len() == 0 {
        Seq::empty()
    } else {
        cells_text(columns.drop_last(), line, use_colors) + cell_text(
            columns.last(),
            line,
            use_colors,
        )
    }
}

/// The first `count` lines of the columns.
pub open spec fn lines_text(columns: Seq<ColumnView>, count: nat, use_colors: bool) -> Seq<char>
    decreases count,
{
    if count == 0 {
        Seq::empty()
    } else {
        lines_text(columns, (count - 1) as nat, use_colors) + cells_text(
            columns,
            (count - 1) as nat,
            use_colors,
        ).push('\n')
    }
}

/// The number of columns from `from` on that fit in a width of which
/// `used` is taken: columns are counted while they fit.
pub open spec fn fitting_from(columns: Seq<ColumnView>, from: int, used: int, max: int) -> int
    decreases columns.len() - from,
{
    if 0 <= from < columns.len() && used + columns[from].width <= max {
        fitting_from(columns, from + 1, used + columns[from].width, max)
    } else {
        from
    }
}

/// The number of columns that are written: all of them where the width of
/// the terminal is unknown; otherwise the first ones that fit in it
/// together.
pub open spec fn fitting(columns: Seq<ColumnView>, width: Option<usize>) -> int {
    match limit_of(width) {
        Some(max) => fitting_from(columns, 0, 0, max as int),
        None => columns.len() as int,
    }
}

/// The number of lines of the columns: the number of rows of the longest
/// column that holds entries.
pub open spec fn lines_count(columns: Seq<ColumnView>) -> nat
    decreases columns.len(),
{
    if columns.len() == 0 {
        0
    } else {
        let before = lines_count(columns.drop_last());
        let column = columns.last();
        if column.has_files && column.rows.len() > before {
            column.rows.len()
        } else {
            before
        }
    }
}

/// The number of columns that hold entries.
pub open spec fn files_columns(columns: Seq<ColumnView>) -> nat
    decreases columns.len(),
{
    if columns.len() == 0 {
        0
    } else {
        files_columns(columns.drop_last()) + if columns.last().has_files {
            1nat
        } else {
            0nat
        }
    }
}

/// The note that tells how many columns with entries were left out.
pub open spec fn more_text(count: nat) -> Seq<char> {
    if count == 0 {
        Seq::empty()
    } else {
        "\n["@ + decimal_text(count) + " more column"@ + (if count == 1 {
            Seq::empty()
        } else {
            seq!['s']
        }) + "]\n"@
    }
}

/// The text of a list of columns on a terminal of the given width: the
/// lines of the columns that fit, and a note on the columns with entries
/// that did not.
pub open spec fn columns_text(
    columns: Seq<ColumnView>,
    width: Option<usize>,
    use_colors: bool,
) -> Seq<char> {
    let count = fitting(columns, width);
    let written = columns.take(count);
    lines_text(written, lines_count(written), use_colors) + more_text(
        files_columns(columns.skip(count)),
    )
}

/// Whether colours are used: always or never where the configuration says
/// so, and on a terminal otherwise.
pub open spec fn uses_colors(colors: Option<Colors>, is_terminal: bool) -> bool {
    match colors {
        Some(c) => match c.when {
            Some(ColorsWhen::Always) => true,
            Some(ColorsWhen::Never) => false,
            _ => is_terminal,
        },
        None => is_terminal,
    }
}

/// The width by which the info boxes are placed: that of the terminal, or
/// 80 columns where the width of the terminal is unknown or zero.
pub open spec fn width_or_default(width: Option<usize>) -> usize {
    match limit_of(width) {
        Some(w) => w,
        None => DEFAULT_WIDTH,
    }
}

/// The columns of the header: the left box, the right box, and between
/// them the space that puts the right box at the right end of the
/// terminal. There is no such space where there is no right box, or where
/// the boxes do not fit in the width.
pub open spec fn header_columns(
    width: Option<usize>,
    info_left: Option<ColumnView>,
    info_right: Option<ColumnView>,
) -> Option<Seq<ColumnView>> {
    let w = width_or_default(width);
    match (info_left, info_right) {
        (None, None) => None,
        (Some(l), None) => Some(seq![l]),
        (Some(l), Some(r)) => Some(
            if l.width + r.width <= w {
                seq![l, padding_column((w - l.width - r.width) as usize, 0, None), r]
            } else {
                seq![l, r]
            },
        ),
        (None, Some(r)) => Some(
            if r.width <= w {
                seq![padding_column((w - r.width) as usize, 0, None), r]
            } else {
                seq![r]
            },
        ),
    }
}

/// The sum of the widths of the columns.
pub open spec fn total_width(columns: Seq<ColumnView>) -> nat
    decreases columns.len(),
{
    if columns.len() == 0 {
        0
    } else {
        total_width(columns.drop_last()) + columns.last().width as nat
    }
}

/// The main columns: the columns of the screen and, where it fits in the
/// width, the info column at the right end of the terminal.
pub open spec fn main_columns(
    width: Option<usize>,
    columns: Seq<ColumnView>,
    info_column: Option<ColumnView>,
) -> Seq<ColumnView> {
    let w = width_or_default(width);
    match info_column {
        Some(info) => if total_width(columns) + info.width <= w {
            columns + seq![
                padding_column((w - total_width(columns) - info.width) as usize, 0, None),
                info,
            ]
        } else {
            columns
        },
        None => columns,
    }
}

/// The text of a screen: the header, where there is one, and the main
/// columns.
pub open spec fn screen_text(
    screen: ScreenView,
    colors: Option<Colors>,
    width: Option<usize>,
    is_terminal: bool,
) -> Seq<char> {
    let use_colors = uses_colors(colors, is_terminal);
    (match header_columns(width, screen.info_left, screen.info_right) {
        Some(header) => columns_text(header, width, use_colors),
        None => Seq::empty(),
    }) + columns_text(
        main_columns(width, screen.columns, screen.info_column),
        width,
        use_colors,
    )
}


proof fn lemma_fitting_from(columns: Seq<ColumnView>, from: int, max: int)
    requires
        0 <= from <= columns.len(),
        total_width(columns.take(from)) <= max,
    ensures
        ({
            let count = fitting_from(columns, from, total_width(columns.take(from)) as int, max);
            &&& from <= count <= columns.len()
            &&& total_width(columns.take(count)) <= max
            &&& count < columns.len() ==> total_width(columns.take(count + 1)) > max
        }),
    decreases columns.len() - from,
{
    if from < columns.len() {
        assert(columns.take(from + 1).drop_last() =~= columns.take(from));
        if total_width(columns.take(from)) + columns[from].width <= max {
            lemma_fitting_from(columns, from + 1, max);
        }
    }
}

/// All the columns are written where the width of the terminal is
/// unknown. Where it is known, the columns that are written fit in it, and
/// the first column that is left out, if there is one, does not fit beside
/// them.
pub proof fn lemma_written_columns_fit(columns: Seq<ColumnView>, width: Option<usize>)
    ensures
        0 <= fitting(columns, width) <= columns.len(),
        limit_of(width) is None ==> fitting(columns, width) == columns.len(),
        limit_of(width) matches Some(max) ==> {
            &&& total_width(columns.take(fitting(columns, width))) <= max
            &&& fitting(columns, width) < columns.len() ==> total_width(
                columns.take(fitting(columns, width) + 1),
            ) > max
        },
{
    assert(columns.take(0) =~= Seq::<ColumnView>::empty());
    match limit_of(width) {
        Some(max) => {
            lemma_fitting_from(columns, 0, max as int);
        },
        None => {},
    }
}

fn push_spaces(out: &mut String, count: usize)
    ensures
        final(out)@ == old(out)@ + spaces(count as nat),
{
    let mut i: usize = 0;
    assert(out@ =~= old(out)@ + spaces(0));
    while i < count
        invariant
            i <= count,
            out@ == old(out)@ + spaces(i as nat),
        decreases count - i,
    {
        out.push(' ');
        assert(out@ =~= old(out)@ + spaces((i + 1) as nat));
        i += 1;
    }
}

/// Writes a text in a style.
fn paint(out: &mut String, text: &str, style: Option<Style>, use_colors: bool)
    ensures
        final(out)@ == old(out)@ + painted(text@, style, use_colors),
{
    match style {
        Some(s) => {
            if use_colors {
                out.append(prefix_of(&s).as_str());
                out.append(text);
                out.append(suffix_of(&s).as_str());
                assert(out@ =~= old(out)@ + painted(text@, style, use_colors));
            } else {
                out.append(text);
            }
        },
        None => {
            out.append(text);
        },
    }
}

/// Writes the space that fills a column on a line.
fn write_padding(out: &mut String, column: &Column, line: usize, width: usize, use_colors: bool)
    ensures
        final(out)@ == old(out)@ + padding_text(column@, line as nat, width as nat, use_colors),
{
    if width == 0 {
        assert(out@ =~= old(out)@ + Seq::<char>::empty());
        return ;
    }
    let mut blank = String::new();
    push_spaces(&mut blank, width);
    assert(blank@ =~= spaces(width as nat));
    let style = if column.height > line {
        column.style
    } else {
        None
    };
    paint(out, blank.as_str(), style, use_colors);
}

/// Writes the spans of a row.
fn write_spans(out: &mut String, row: &Row, column_style: Option<Style>, use_colors: bool)
    ensures
        final(out)@ == old(out)@ + spans_text(row@.spans, column_style, use_colors),
{
    let mut i: usize = 0;
    let ghost spans = row@.spans;
    assert(spans.take(0) =~= Seq::<SpanView>::empty());
    assert(out@ =~= old(out)@ + Seq::<char>::empty());
    while i < row.spans.len()
        invariant
            i <= row.spans@.len(),
            spans == row@.spans,
            out@ == old(out)@ + spans_text(spans.take(i as int), column_style, use_colors),
        decreases row.spans@.len() - i,
    {
        let span = &row.spans[i];
        let ghost before = out@;
        proof {
            let longer = spans.take(i + 1);
            assert(longer.drop_last() =~= spans.take(i as int));
            assert(longer.last() == span@);
        }
        paint(out, span.text.as_str(), combine_opt(column_style, span.style), use_colors);
        assert(out@ =~= old(out)@ + spans_text(spans.take(i + 1), column_style, use_colors));
        i += 1;
    }
    assert(spans.take(i as int) =~= spans);
}

/// Writes what a column shows on a line.
fn write_cell(out: &mut String, column: &Column, line: usize, use_colors: bool)
    ensures
        final(out)@ == old(out)@ + cell_text(column@, line as nat, use_colors),
{
    if line >= column.rows.len() {
        write_padding(out, column, line, column.width, use_colors);
    } else {
        let row = &column.rows[line];
        assert(column@.rows[line as int] == row@);
        let free = if column.width > row.width {
            column.width - row.width
        } else {
            0
        };
        match column.align {
            Align::Right => {
                write_padding(out, column, line, free, use_colors);
                write_spans(out, row, column.style, use_colors);
            },
            Align::Left => {
                write_spans(out, row, column.style, use_colors);
                write_padding(out, column, line, free, use_colors);
            },
        }
        assert(out@ =~= old(out)@ + cell_text(column@, line as nat, use_colors));
    }
}

/// Writes a line of the first `count` columns.
fn write_line(out: &mut String, columns: &Vec<Column>, count: usize, line: usize, use_colors: bool)
    requires
        count <= columns@.len(),
    ensures
        final(out)@ == old(out)@ + cells_text(
            column_views(columns@).take(count as int),
            line as nat,
            use_colors,
        ).push('\n'),
{
    let ghost written = column_views(columns@).take(count as int);
    let mut i: usize = 0;
    assert(written.take(0) =~= Seq::<ColumnView>::empty());
    assert(out@ =~= old(out)@ + Seq::<char>::empty());
    while i < count
        invariant
            i <= count <= columns@.len(),
            written == column_views(columns@).take(count as int),
            out@ == old(out)@ + cells_text(written.take(i as int), line as nat, use_colors),
        decreases count - i,
    {
        proof {
            let longer = written.take(i + 1);
            assert(longer.drop_last() =~= written.take(i as int));
            assert(longer.last() == columns@[i as int]@);
        }
        write_cell(out, &columns[i], line, use_colors);
        assert(out@ =~= old(out)@ + cells_text(written.take(i + 1), line as nat, use_colors));
        i += 1;
    }
    assert(written.take(i as int) =~= written);
    out.push('\n');
    assert(out@ =~= old(out)@ + cells_text(written, line as nat, use_colors).push('\n'));
}

/// The number of columns that are written.
fn count_fitting(columns: &Vec<Column>, width: Option<usize>) -> (count: usize)
    ensures
        count == fitting(column_views(columns@), width),
        count <= columns@.len(),
{
    let max = match width {
        Some(0) | None => {
            return columns.len();
        },
        Some(max) => max,
    };
    let ghost views = column_views(columns@);
    let mut used: usize = 0;
    let mut i: usize = 0;
    while i < columns.len() && columns[i].width <= max - used
        invariant
            i <= columns@.len(),
            used <= max,
            views == column_views(columns@),
            fitting_from(views, 0, 0, max as int) == fitting_from(
                views,
                i as int,
                used as int,
                max as int,
            ),
        decreases columns@.len() - i,
    {
        used += columns[i].width;
        i += 1;
    }
    i
}

/// The number of lines of the first `count` columns.
fn count_lines(columns: &Vec<Column>, count: usize) -> (lines: usize)
    requires
        count <= columns@.len(),
    ensures
        lines == lines_count(column_views(columns@).take(count as int)),
{
    let ghost written = column_views(columns@).take(count as int);
    let mut lines: usize = 0;
    let mut i: usize = 0;
    assert(written.take(0) =~= Seq::<ColumnView>::empty());
    while i < count
        invariant
            i <= count <= columns@.len(),
            written == column_views(columns@).take(count as int),
            lines == lines_count(written.take(i as int)),
        decreases count - i,
    {
        proof {
            let longer = written.take(i + 1);
            assert(longer.drop_last() =~= written.take(i as int));
            assert(longer.last() == columns@[i as int]@);
        }
        if columns[i].has_files && columns[i].rows.len() > lines {
            lines = columns[i].rows.len();
        }
        i += 1;
    }
    assert(written.take(i as int) =~= written);
    lines
}

/// The number of columns from `from` on that hold entries.
fn count_files_columns(columns: &Vec<Column>, from: usize) -> (count: usize)
    requires
        from <= columns@.len(),
    ensures
        count == files_columns(column_views(columns@).skip(from as int)),
{
    let ghost hidden = column_views(columns@).skip(from as int);
    let mut count: usize = 0;
    let mut i: usize = from;
    assert(hidden.take(0) =~= Seq::<ColumnView>::empty());
    while i < columns.len()
        invariant
            from <= i <= columns@.len(),
            hidden == column_views(columns@).skip(from as int),
            count == files_columns(hidden.take(i - from)),
            count <= i - from,
        decreases columns@.len() - i,
    {
        proof {
            let longer = hidden.take(i - from + 1);
            assert(longer.drop_last() =~= hidden.take(i - from));
            assert(longer.last() == columns@[i as int]@);
        }
        if columns[i].has_files {
            count += 1;
        }
        i += 1;
    }
    assert(hidden.take(i - from) =~= hidden);
    count
}

/// Writes the note on the columns that were left out.
fn write_more(out: &mut String, count: usize)
    ensures
        final(out)@ == old(out)@ + more_text(count as nat),
{
    if count == 0 {
        assert(out@ =~= old(out)@ + Seq::<char>::empty());
        return ;
    }
    out.append("\n[");
    push_decimal(out, count as u64);
    out.append(" more column");
    if count != 1 {
        out.push('s');
    }
    out.append("]\n");
    assert(out@ =~= old(out)@ + more_text(count as nat));
}

/// Writes the columns that fit in the width of the terminal, line by line,
/// and a note on the columns with entries that did not fit.
pub fn print_columns(
    out: &mut String,
    width: Option<usize>,
    columns: &Vec<Column>,
    use_colors: bool,
)
    ensures
        final(out)@ == old(out)@ + columns_text(column_views(columns@), width, use_colors),
{
    // Discard columns if the total width exceeds the terminal width.
    let count = count_fitting(columns, width);
    let lines = count_lines(columns, count);
    let ghost written = column_views(columns@).take(count as int);
    let mut line: usize = 0;
    assert(out@ =~= old(out)@ + Seq::<char>::empty());
    while line < lines
        invariant
            line <= lines,
            count <= columns@.len(),
            written == column_views(columns@).take(count as int),
            out@ == old(out)@ + lines_text(written, line as nat, use_colors),
        decreases lines - line,
    {
        write_line(out, columns, count, line, use_colors);
        assert(out@ =~= old(out)@ + lines_text(written, (line + 1) as nat, use_colors));
        line += 1;
    }
    let more_columns = count_files_columns(columns, count);
    write_more(out, more_columns);
    assert(out@ =~= old(out)@ + columns_text(column_views(columns@), width, use_colors));
}

/// Whether colours are used.
pub fn use_colors(colors: &Option<Colors>, is_terminal: bool) -> (r: bool)
    ensures
        r == uses_colors(*colors, is_terminal),
{
    match colors {
        Some(c) => match c.when {
            Some(ColorsWhen::Always) => true,
            Some(ColorsWhen::Never) => false,
            _ => is_terminal,
        },
        None => is_terminal,
    }
}

fn known_width(width: Option<usize>) -> (w: usize)
    ensures
        w == width_or_default(width),
{
    match width {
        Some(0) | None => DEFAULT_WIDTH,
        Some(w) => w,
    }
}

/// The columns of the header.
pub fn compute_header(
    terminal_width: Option<usize>,
    info_left: Option<Column>,
    info_right: Option<Column>,
) -> (header: Option<Vec<Column>>)
    ensures
        match header {
            Some(columns) => header_columns(
                terminal_width,
                optional_view(info_left),
                optional_view(info_right),
            ) == Some(column_views(columns@)),
            None => header_columns(
                terminal_width,
                optional_view(info_left),
                optional_view(info_right),
            ) is None,
        },
{
    let width = known_width(terminal_width);
    let mut columns: Vec<Column> = Vec::new();
    match (info_left, info_right) {
        (None, None) => {
            return None;
        },
        (Some(l), None) => {
            columns.push(l);
            assert(column_views(columns@) =~= seq![l@]);
        },
        (Some(l), Some(r)) => {
            if l.width <= width && r.width <= width - l.width {
                let padding = width - l.width - r.width;
                columns.push(l);
                columns.push(Column::padding(padding, 0, None));
                columns.push(r);
                assert(column_views(columns@) =~= seq![
                    l@,
                    padding_column(padding, 0, None),
                    r@,
                ]);
            } else {
                columns.push(l);
                columns.push(r);
                assert(column_views(columns@) =~= seq![l@, r@]);
            }
        },
        (None, Some(r)) => {
            if r.width <= width {
                columns.push(Column::padding(width - r.width, 0, None));
                columns.push(r);
                assert(column_views(columns@) =~= seq![
                    padding_column((width - r.width) as usize, 0, None),
                    r@,
                ]);
            } else {
                columns.push(r);
                assert(column_views(columns@) =~= seq![r@]);
            }
        },
    }
    Some(columns)
}

/// The sum of the widths of the columns, where it is no more than `max`.
fn width_within(columns: &Vec<Column>, max: usize) -> (r: Option<usize>)
    ensures
        match r {
            Some(total) => total == total_width(column_views(columns@)) && total <= max,
            None => total_width(column_views(columns@)) > max,
        },
{
    let ghost views = column_views(columns@);
    let mut total: usize = 0;
    let mut i: usize = 0;
    assert(views.take(0) =~= Seq::<ColumnView>::empty());
    while i < columns.len()
        invariant
            i <= columns@.len(),
            views == column_views(columns@),
            total == total_width(views.take(i as int)),
            total <= max,
        decreases columns@.len() - i,
    {
        proof {
            let longer = views.take(i + 1);
            assert(longer.drop_last() =~= views.take(i as int));
            assert(longer.last() == columns@[i as int]@);
            lemma_total_width_grows(views, i + 1);
        }
        if columns[i].width > max - total {
            return None;
        }
        total += columns[i].width;
        i += 1;
    }
    assert(views.take(i as int) =~= views);
    Some(total)
}

/// The widths of all the columns sum to no less than the widths of the
/// first of them.
proof fn lemma_total_width_grows(columns: Seq<ColumnView>, count: int)
    requires
        0 <= count <= columns.len(),
    ensures
        total_width(columns.take(count)) <= total_width(columns),
    decreases columns.len() - count,
{
    if count < columns.len() {
        lemma_total_width_grows(columns, count + 1);
        assert(columns.take(count + 1).drop_last() =~= columns.take(count));
    } else {
        assert(columns.take(count) =~= columns);
    }
}

/// Adds the info column to the main columns, where it fits.
fn add_info_column(columns: &mut Vec<Column>, info_column: Option<Column>, width: Option<usize>)
    ensures
        column_views(final(columns)@) == main_columns(
            width,
            column_views(old(columns)@),
            optional_view(info_column),
        ),
{
    match info_column {
        Some(info) => {
            let w = known_width(width);
            if info.width <= w {
                match width_within(columns, w - info.width) {
                    Some(total) => {
                        let padding = w - info.width - total;
                        columns.push(Column::padding(padding, 0, None));
                        columns.push(info);
                        assert(column_views(columns@) =~= column_views(old(columns)@) + seq![
                            padding_column(padding, 0, None),
                            info@,
                        ]);
                    },
                    None => {},
                }
            }
        },
        None => {},
    }
}

/// Lays the screen out as text, for a terminal of the given width.
///
/// Where the width is unknown, or zero, all the columns are written, and
/// the info boxes are placed as on a terminal of 80 columns.
pub fn print(screen: Screen, config: &Root, width: Option<usize>, is_terminal: bool) -> (text:
    String)
    ensures
        text@ == screen_text(screen@, config.colors, width, is_terminal),
{
    let colors = use_colors(&config.colors, is_terminal);
    let Screen { columns, info_left, info_right, info_column } = screen;
    let mut out = String::new();

    // Header columns.
    match compute_header(width, info_left, info_right) {
        Some(header) => {
            print_columns(&mut out, width, &header, colors);
        },
        None => {},
    }

    // Main columns.
    let mut columns = columns;
    add_info_column(&mut columns, info_column, width);
    print_columns(&mut out, width, &columns, colors);
    assert(out@ =~= screen_text(screen@, config.colors, width, is_terminal));
    out
}

} // verus!
