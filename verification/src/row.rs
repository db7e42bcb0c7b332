//! Rows of measured cells.
//!
//! A [`Row`] is an append-only builder: each added cell is rendered to text
//! and measured once, at insertion.  A finished row is handed to
//! [`crate::table::Table::add_row`], which consumes it.

use vstd::prelude::*;
use crate::width_string::CellView;
use crate::width_string::WidthString;
use crate::width_string::display_width_of;

verus! {

/// The views of a sequence of cells, element by element.
pub open spec fn cells_view(cs: Seq<WidthString>) -> Seq<CellView> {
    Seq::new(cs.len(), |i: int| cs[i]@)
}

/// Every cell's cached width is the display width of its text.
pub open spec fn cells_wf(cs: Seq<CellView>) -> bool {
    forall|i: int|
        0 <= i < cs.len() ==> #[trigger] cs[i].width == display_width_of(cs[i].text)
}

/// Builder for one table row: an ordered sequence of measured cells.
#[derive(Clone)]
pub struct Row(pub(crate) Vec<WidthString>);

impl View for Row {
    type V = Seq<CellView>;

    closed spec fn view(&self) -> Seq<CellView> {
        cells_view(self.0@)
    }
}

impl Row {
    /// Every cell of this row carries its measured display width.
    pub open spec fn wf(self) -> bool {
        cells_wf(self@)
    }

    /// A row's value is the cells it holds, in order.
    pub(crate) proof fn lemma_view(&self)
        ensures
            self@ == cells_view(self.0@),
    {
    }

    /// Makes a new, empty table row.
    pub fn new() -> (r: Row)
        ensures
            r@ == Seq::<CellView>::empty(),
            r.wf(),
    {
        let cells: Vec<WidthString> = Vec::new();
        proof {
            assert(cells_view(cells@) =~= Seq::<CellView>::empty());
        }
        Row(cells)
    }

    /// Appends a cell holding `value` rendered to text, measured on insertion.
    pub fn add_cell<S: core::fmt::Display>(&mut self, value: S)
        ensures
            final(self)@.len() == old(self)@.len() + 1,
            final(self)@.drop_last() == old(self)@,
            final(self)@.last().width == display_width_of(final(self)@.last().text),
            exists|s: String|
                vstd::string::to_string_from_display_ensures::<S>(&value, s)
                    && final(self)@.last().text == s@,
            old(self).wf() ==> final(self).wf(),
    {
        let cell = WidthString::new(value);
        self.0.push(cell);
        proof {
            assert(final(self)@ =~= old(self)@.push(cell@));
            assert(final(self)@.drop_last() =~= old(self)@);
        }
    }

    /// Like [`Row::add_cell`], but consumes and returns the row, so that
    /// calls can chain.
    pub fn with_cell<S: core::fmt::Display>(self, value: S) -> (r: Row)
        ensures
            r@.len() == self@.len() + 1,
            r@.drop_last() == self@,
            r@.last().width == display_width_of(r@.last().text),
            exists|s: String|
                vstd::string::to_string_from_display_ensures::<S>(&value, s) && r@.last().text
                    == s@,
            self.wf() ==> r.wf(),
    {
        let mut row = self;
        row.add_cell(value);
        row
    }

    /// Builds a whole row from an ordered sequence of strings, in order.
    /// No column-count check happens here; the table checks on insertion.
    pub fn from_cells(values: Vec<&str>) -> (r: Row)
        ensures
            r@.len() == values@.len(),
            forall|i: int|
                0 <= i < values@.len() ==> #[trigger] r@[i].text == values@[i]@ && r@[i].width
                    == display_width_of(values@[i]@),
            r.wf(),
    {
        let mut cells: Vec<WidthString> = Vec::new();
        let mut k: usize = 0;
        while k < values.len()
            invariant
                k <= values@.len(),
                cells@.len() == k,
                forall|i: int|
                    0 <= i < k ==> #[trigger] cells_view(cells@)[i].text == values@[i]@
                        && cells_view(cells@)[i].width == display_width_of(values@[i]@),
            decreases values@.len() - k,
        {
            let ghost pre = cells_view(cells@);
            let cell = WidthString::from_str(values[k]);
            cells.push(cell);
            proof {
                assert(cells_view(cells@) =~= pre.push(cell@));
            }
            k = k + 1;
        }
        Row(cells)
    }

    /// The number of cells in this row.
    pub fn len(&self) -> (n: usize)
        ensures
            n == self@.len(),
    {
        self.0.len()
    }
}

/// A stored table line: either a row of cells, padded and aligned by the
/// table's format, or a full-width heading that bypasses it.
#[derive(Clone)]
pub enum InternalRow {
    /// One cell per column of the table.
    Cells(Vec<WidthString>),
    /// A line emitted verbatim.
    Heading(String),
}

/// The mathematical value of an [`InternalRow`].
pub ghost enum RowView {
    Cells(Seq<CellView>),
    Heading(Seq<char>),
}

impl View for InternalRow {
    type V = RowView;

    open spec fn view(&self) -> RowView {
        match self {
            InternalRow::Cells(cs) => RowView::Cells(cells_view(cs@)),
            InternalRow::Heading(s) => RowView::Heading(s@),
        }
    }
}

/// The views of a sequence of stored lines, element by element.
pub open spec fn rows_view(rs: Seq<InternalRow>) -> Seq<RowView> {
    Seq::new(rs.len(), |i: int| rs[i]@)
}

} // verus!
