//! This module contains elements to build the output of the program.
//!
//! The main type is [`Screen`], which can contain any number of columns, and
//! the definitions for the info boxes.

use vstd::prelude::*;

use crate::display::strings::{str_width, text_width};
use crate::display::styles::Style;

verus! {

/// Data to be written to the screen.
pub struct Screen {
    pub columns: Vec<Column>,
    pub info_left: Option<Column>,
    pub info_right: Option<Column>,
    pub info_column: Option<Column>,
}

/// A column of rows. The column is as wide as its widest row.
#[derive(Debug)]
pub struct Column {
    pub align: Align,
    /// The width of the widest row.
    pub width: usize,
    /// The number of lines that the column reaches down.
    pub height: usize,
    /// Whether the rows of the column stand for entries.
    pub has_files: bool,
    pub style: Option<Style>,
    pub rows: Vec<Row>,
}

/// A row of spans, with the sum of their widths.
#[derive(Default, Debug)]
pub struct Row {
    pub spans: Vec<Span>,
    /// The sum of the widths of the spans.
    pub width: usize,
}

/// A piece of text in one style.
#[derive(Debug)]
pub struct Span {
    pub text: String,
    pub style: Option<Style>,
}

/// The side of a column that its rows are aligned to.
#[derive(Clone, Copy, Debug, PartialEq, Eq, Structural)]
pub enum Align {
    Left,
    Right,
}

/// What a span holds.
pub ghost struct SpanView {
    pub text: Seq<char>,
    pub style: Option<Style>,
}

/// What a row holds.
pub ghost struct RowView {
    pub spans: Seq<SpanView>,
    pub width: usize,
}

/// What a column holds.
pub ghost struct ColumnView {
    pub align: Align,
    pub width: usize,
    pub height: usize,
    pub has_files: bool,
    pub style: Option<Style>,
    pub rows: Seq<RowView>,
}

impl View for Span {
    type V = SpanView;

    open spec fn view(&self) -> SpanView {
        SpanView { text: self.text@, style: self.style }
    }
}

impl View for Row {
    type V = RowView;

    open spec fn view(&self) -> RowView {
        RowView { spans: Seq::new(self.spans@.len(), |i: int| self.spans@[i]@), width: self.width }
    }
}

impl View for Column {
    type V = ColumnView;

    open spec fn view(&self) -> ColumnView {
        ColumnView {
            align: self.align,
            width: self.width,
            height: self.height,
            has_files: self.has_files,
            style: self.style,
            rows: Seq::new(self.rows@.len(), |i: int| self.rows@[i]@),
        }
    }
}

/// What a screen holds.
pub ghost struct ScreenView {
    pub columns: Seq<ColumnView>,
    pub info_left: Option<ColumnView>,
    pub info_right: Option<ColumnView>,
    pub info_column: Option<ColumnView>,
}

/// The view of a column that may be absent.
pub open spec fn optional_view(column: Option<Column>) -> Option<ColumnView> {
    match column {
        Some(c) => Some(c@),
        None => None,
    }
}

impl View for Screen {
    type V = ScreenView;

    open spec fn view(&self) -> ScreenView {
        ScreenView {
            columns: column_views(self.columns@),
            info_left: optional_view(self.info_left),
            info_right: optional_view(self.info_right),
            info_column: optional_view(self.info_column),
        }
    }
}

/// The views of a list of columns.
pub open spec fn column_views(columns: Seq<Column>) -> Seq<ColumnView> {
    Seq::new(columns.len(), |i: int| columns[i]@)
}

/// The sum of two sizes, held at the largest size where it does not fit.
pub open spec fn capped_add(a: usize, b: usize) -> usize {
    if a + b > usize::MAX {
        usize::MAX
    } else {
        (a + b) as usize
    }
}

/// A column without rows.
pub open spec fn empty_column(has_files: bool) -> ColumnView {
    ColumnView {
        align: Align::Left,
        width: 0,
        height: 0,
        has_files,
        style: None,
        rows: Seq::empty(),
    }
}

/// A column that holds only spaces.
pub open spec fn padding_column(width: usize, height: usize, style: Option<Style>) -> ColumnView {
    ColumnView { align: Align::Left, width, height, has_files: false, style, rows: Seq::empty() }
}

/// A row without spans.
pub open spec fn empty_row() -> RowView {
    RowView { spans: Seq::empty(), width: 0 }
}

/// The row with one more span at its end.
pub open spec fn row_with(row: RowView, text: Seq<char>, style: Option<Style>) -> RowView {
    RowView {
        spans: row.spans.push(SpanView { text, style }),
        width: capped_add(row.width, text_width(text)),
    }
}

/// The column with one more row at its end: the column is as wide as its
/// widest row, and one line higher than before.
pub open spec fn column_with(column: ColumnView, row: RowView) -> ColumnView {
    ColumnView {
        width: if row.width > column.width {
            row.width
        } else {
            column.width
        },
        height: capped_add(column.height, 1),
        rows: column.rows.push(row),
        ..column
    }
}

/// The column cut to a height: rows below the height are dropped.
pub open spec fn column_cut(column: ColumnView, height: usize) -> ColumnView {
    ColumnView {
        height,
        rows: if height < column.rows.len() {
            column.rows.take(height as int)
        } else {
            column.rows
        },
        ..column
    }
}

impl Column {
    /// Creates a column without rows.
    pub fn new(has_files: bool) -> (column: Column)
        ensures
            column@ == empty_column(has_files),
    {
        let column = Column {
            align: Align::Left,
            width: 0,
            height: 0,
            has_files,
            style: None,
            rows: Vec::new(),
        };
        assert(column@.rows =~= Seq::empty());
        column
    }

    /// Creates a column to contains only spaces.
    pub fn padding(width: usize, height: usize, style: Option<Style>) -> (column: Column)
        ensures
            column@ == padding_column(width, height, style),
    {
        let column = Column {
            align: Align::Left,
            width,
            height,
            has_files: false,
            style,
            rows: Vec::new(),
        };
        assert(column@.rows =~= Seq::empty());
        column
    }

    /// The number of lines that the column reaches down.
    pub fn height(&self) -> (height: usize)
        ensures
            height == self@.height,
    {
        self.height
    }

    /// Aligns the rows of the column to the right.
    pub fn align_right(&mut self)
        ensures
            final(self)@ == (ColumnView { align: Align::Right, ..old(self)@ }),
    {
        self.align = Align::Right;
    }

    /// Sets the style that lies under the spans and the padding of the
    /// column.
    pub fn set_style(&mut self, style: Option<Style>)
        ensures
            final(self)@ == (ColumnView { style, ..old(self)@ }),
    {
        self.style = style;
    }

    /// Sets the height of the column. Rows below the height are dropped.
    pub fn set_height(&mut self, height: usize)
        ensures
            final(self)@ == column_cut(old(self)@, height),
    {
        self.height = height;
        self.rows.truncate(height);
        assert(self@.rows =~= column_cut(old(self)@, height).rows);
    }

    /// Adds a row at the end of the column.
    pub fn push(&mut self, row: Row)
        ensures
            final(self)@ == column_with(old(self)@, row@),
    {
        if row.width > self.width {
            self.width = row.width;
        }
        self.height = self.height.saturating_add(1);
        self.rows.push(row);
        assert(self@.rows =~= column_with(old(self)@, row@).rows);
    }
}

impl Row {
    /// Creates a row without spans.
    pub fn new() -> (row: Row)
        ensures
            row@ == empty_row(),
    {
        let row = Row { spans: Vec::new(), width: 0 };
        assert(row@.spans =~= Seq::empty());
        row
    }

    /// Adds a span at the end of the row.
    pub fn add_text(&mut self, text: String, style: Option<Style>)
        ensures
            final(self)@ == row_with(old(self)@, text@, style),
    {
        self.width = self.width.saturating_add(str_width(text.as_str()));
        self.spans.push(Span { text, style });
        assert(self@.spans =~= row_with(old(self)@, text@, style).spans);
    }

    /// Whether the row has no spans.
    pub fn is_empty(&self) -> (r: bool)
        ensures
            r == (self@.spans.len() == 0),
    {
        self.spans.is_empty()
    }
}

} // verus!
