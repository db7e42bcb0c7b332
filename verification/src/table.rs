//! The table: a compiled row format, the accumulated column widths, and the
//! stored rows, rendered on demand.
//!
//! Each column's width is the running maximum display width of the cells
//! placed in it so far; it is updated on every [`Table::add_row`], never
//! recomputed at render time.

use vstd::prelude::*;
use vstd::string::StringExecFns;
use crate::column_spec::ColumnSpec;
use crate::column_spec::Error;
use crate::column_spec::ErrorView;
use crate::column_spec::TokenView;
use crate::column_spec::lemma_parse_column_count;
use crate::column_spec::parse_row_spec;
use crate::column_spec::spec_align_count;
use crate::column_spec::spec_parse;
use crate::column_spec::tokens_view;
use crate::row::InternalRow;
use crate::row::Row;
use crate::row::RowView;
use crate::row::cells_wf;
use crate::row::rows_view;
use crate::width_string::CellView;
use crate::width_string::push_char;

verus! {

/// The widths of a sequence, element by element, as mathematical naturals.
pub open spec fn widths_view(ws: Seq<usize>) -> Seq<nat> {
    Seq::new(ws.len(), |i: int| ws[i] as nat)
}

/// The larger of two widths.
pub open spec fn max_nat(a: nat, b: nat) -> nat {
    if a >= b {
        a
    } else {
        b
    }
}

/// The running maximum display width of column `i` over the stored lines:
/// the widest `i`-th cell of any cells row, and 0 where there is none.
/// Headings never contribute.
pub open spec fn col_max(rows: Seq<RowView>, i: int) -> nat
    decreases rows.len(),
{
    if rows.len() == 0 {
        0
    } else {
        let prev = col_max(rows.drop_last(), i);
        match rows.last() {
            RowView::Cells(cells) => if 0 <= i < cells.len() {
                max_nat(prev, cells[i].width)
            } else {
                prev
            },
            RowView::Heading(_) => prev,
        }
    }
}

/// `n` spaces, and none where `n` is negative.
pub open spec fn spec_pad(n: int) -> Seq<char>
    decreases n,
{
    if n <= 0 {
        Seq::empty()
    } else {
        spec_pad(n - 1).push(' ')
    }
}

/// One cells row rendered against the format, from the current token on.
/// `j` is the cursor over both the column widths and the row's cells; it
/// advances only at alignment tokens.  A cell the row does not have renders
/// as empty text of width 0, and padding never goes negative.
pub open spec fn spec_render_cells(
    format: Seq<TokenView>,
    widths: Seq<nat>,
    cells: Seq<CellView>,
    j: int,
) -> Seq<char>
    decreases format.len(),
{
    if format.len() == 0 {
        Seq::empty()
    } else {
        match format[0] {
            TokenView::Literal(s) => s + spec_render_cells(format.skip(1), widths, cells, j),
            TokenView::Left => {
                let text = if 0 <= j < cells.len() {
                    cells[j].text
                } else {
                    Seq::empty()
                };
                let w: int = if 0 <= j < cells.len() {
                    cells[j].width as int
                } else {
                    0
                };
                let cw: int = if 0 <= j < widths.len() {
                    widths[j] as int
                } else {
                    0
                };
                let pad = if format.len() > 1 {
                    spec_pad(cw - w)
                } else {
                    Seq::empty()
                };
                text + pad + spec_render_cells(format.skip(1), widths, cells, j + 1)
            },
            TokenView::Right => {
                let text = if 0 <= j < cells.len() {
                    cells[j].text
                } else {
                    Seq::empty()
                };
                let w: int = if 0 <= j < cells.len() {
                    cells[j].width as int
                } else {
                    0
                };
                let cw: int = if 0 <= j < widths.len() {
                    widths[j] as int
                } else {
                    0
                };
                spec_pad(cw - w) + text + spec_render_cells(format.skip(1), widths, cells, j + 1)
            },
        }
    }
}

/// One stored line rendered: a cells row against the format, a heading
/// verbatim; either way one line terminator follows.
pub open spec fn spec_render_row(format: Seq<TokenView>, widths: Seq<nat>, row: RowView) -> Seq<
    char,
> {
    match row {
        RowView::Cells(cells) => spec_render_cells(format, widths, cells, 0).push('\n'),
        RowView::Heading(s) => s.push('\n'),
    }
}

/// The whole table rendered: every stored line in order, one terminator each.
pub open spec fn spec_render(format: Seq<TokenView>, widths: Seq<nat>, rows: Seq<RowView>) -> Seq<
    char,
>
    decreases rows.len(),
{
    if rows.len() == 0 {
        Seq::empty()
    } else {
        spec_render(format, widths, rows.drop_last()) + spec_render_row(
            format,
            widths,
            rows.last(),
        )
    }
}

/// Appends `n` spaces.
fn push_spaces(out: &mut String, n: usize)
    ensures
        final(out)@ == old(out)@ + spec_pad(n as int),
{
    let ghost base = out@;
    let mut k: usize = 0;
    proof {
        assert(base + spec_pad(0) =~= base);
    }
    while k < n
        invariant
            k <= n,
            out@ == base + spec_pad(k as int),
        decreases n - k,
    {
        push_char(out, ' ');
        proof {
            assert(base + spec_pad(k as int + 1) =~= (base + spec_pad(k as int)).push(' '));
        }
        k = k + 1;
    }
}

/// The mathematical value of a [`Table`].
pub ghost struct TableView {
    pub n_columns: nat,
    pub format: Seq<TokenView>,
    pub rows: Seq<RowView>,
    pub column_widths: Seq<nat>,
}

/// Builder for a formatted table.
///
/// Construct it with [`Table::new`] or [`Table::new_safe`], fill it with
/// [`Table::add_row`] and [`Table::add_heading`], and produce the text with
/// [`Table::render`].
#[derive(Clone)]
pub struct Table {
    n_columns: usize,
    format: Vec<ColumnSpec>,
    rows: Vec<InternalRow>,
    column_widths: Vec<usize>,
}

impl View for Table {
    type V = TableView;

    closed spec fn view(&self) -> TableView {
        TableView {
            n_columns: self.n_columns as nat,
            format: tokens_view(self.format@),
            rows: rows_view(self.rows@),
            column_widths: widths_view(self.column_widths@),
        }
    }
}

impl Table {
    /// The table's invariant: one width per column, the column count is the
    /// number of alignment tokens, every stored cells row has exactly one
    /// cell per column with its measured width, and every column width is
    /// the running maximum over the stored rows.
    pub open spec fn wf(self) -> bool {
        &&& self@.column_widths.len() == self@.n_columns
        &&& spec_align_count(self@.format) == self@.n_columns
        &&& forall|k: int|
            0 <= k < self@.rows.len() ==> (#[trigger] self@.rows[k] matches RowView::Cells(cells)
                ==> cells.len() == self@.n_columns && cells_wf(cells))
        &&& forall|i: int|
            0 <= i < self@.column_widths.len() ==> #[trigger] self@.column_widths[i] == col_max(
                self@.rows,
                i,
            )
    }

    /// Like [`Table::new`], but reports a malformed template to the caller
    /// instead of failing: returns `Ok` exactly when the template parses.
    pub fn new_safe(row_spec: &str) -> (r: Result<Table, Error>)
        ensures
            r matches Ok(t) ==> t.wf() && spec_parse(row_spec@) == Ok::<_, ErrorView>(
                (t@.format, t@.n_columns),
            ) && t@.rows == Seq::<RowView>::empty() && t@.column_widths == Seq::new(
                t@.n_columns,
                |i: int| 0nat,
            ),
            r matches Err(e) ==> spec_parse(row_spec@) == Err::<(Seq<TokenView>, nat), _>(e@),
    {
        match parse_row_spec(row_spec) {
            Err(e) => Err(e),
            Ok((format, n_columns)) => {
                let mut column_widths: Vec<usize> = Vec::new();
                let mut k: usize = 0;
                while k < n_columns
                    invariant
                        k <= n_columns,
                        column_widths@.len() == k,
                        forall|i: int| 0 <= i < k ==> column_widths@[i] == 0,
                    decreases n_columns - k,
                {
                    column_widths.push(0);
                    k = k + 1;
                }
                let rows: Vec<InternalRow> = Vec::new();
                let table = Table { n_columns, format, rows, column_widths };
                proof {
                    lemma_parse_column_count(
                        row_spec@,
                        tokens_view(table.format@),
                        n_columns as nat,
                    );
                    assert(table@.rows =~= Seq::<RowView>::empty());
                    assert(table@.column_widths =~= Seq::new(table@.n_columns, |i: int| 0nat));
                    assert forall|i: int|
                        0 <= i < table@.column_widths.len() implies #[trigger] table@.column_widths[i]
                        == col_max(table@.rows, i) by {
                        assert(col_max(table@.rows, i) == 0);
                    }
                }
                Ok(table)
            },
        }
    }

    /// Constructs a table whose rows follow `row_spec`: `{:<}` is a
    /// left-aligned column, `{:>}` a right-aligned column, `{{` and `}}`
    /// literal braces, and everything else stands for itself.  The template
    /// must be well-formed; [`Table::new_safe`] reports the error instead.
    pub fn new(row_spec: &str) -> (t: Table)
        requires
            spec_parse(row_spec@) is Ok,
        ensures
            t.wf(),
            spec_parse(row_spec@) == Ok::<_, ErrorView>((t@.format, t@.n_columns)),
            t@.rows == Seq::<RowView>::empty(),
            t@.column_widths == Seq::new(t@.n_columns, |i: int| 0nat),
    {
        match Table::new_safe(row_spec) {
            Ok(t) => t,
            Err(_) => vstd::pervasive::unreached(),
        }
    }

    /// The number of columns in the table.
    pub fn column_count(&self) -> (n: usize)
        ensures
            n == self@.n_columns,
    {
        self.n_columns
    }

    /// Appends a pre-formatted line that spans all columns.  The text is
    /// emitted verbatim when rendered; no column width changes.
    pub fn add_heading(&mut self, heading: &str)
        ensures
            final(self)@.n_columns == old(self)@.n_columns,
            final(self)@.format == old(self)@.format,
            final(self)@.column_widths == old(self)@.column_widths,
            final(self)@.rows == old(self)@.rows.push(RowView::Heading(heading@)),
            old(self).wf() ==> final(self).wf(),
    {
        self.rows.push(InternalRow::Heading(String::from_str(heading)));
        proof {
            assert(final(self)@.rows =~= old(self)@.rows.push(RowView::Heading(heading@)));
            if old(self).wf() {
                assert forall|i: int|
                    0 <= i < final(self)@.column_widths.len() implies #[trigger] final(self)@.column_widths[i] == col_max(final(self)@.rows, i) by {
                    assert(final(self)@.rows.drop_last() =~= old(self)@.rows);
                }
            }
        }
    }

    /// Like [`Table::add_heading`], but consumes and returns the table, so
    /// that calls can chain.
    pub fn with_heading(self, heading: &str) -> (t: Table)
        ensures
            t@.n_columns == self@.n_columns,
            t@.format == self@.format,
            t@.column_widths == self@.column_widths,
            t@.rows == self@.rows.push(RowView::Heading(heading@)),
            self.wf() ==> t.wf(),
    {
        let mut table = self;
        table.add_heading(heading);
        table
    }

    /// Appends a row of cells, one per column, and grows each column width
    /// to the row's cell where that cell is wider: the widths accumulate
    /// monotonically and each stays the maximum width seen in its column.
    /// The row must have exactly one cell per column; [`Table::try_add_row`]
    /// checks instead.
    pub fn add_row(&mut self, row: Row)
        requires
            old(self).wf(),
            row.wf(),
            row@.len() == old(self)@.n_columns,
        ensures
            final(self).wf(),
            final(self)@.n_columns == old(self)@.n_columns,
            final(self)@.format == old(self)@.format,
            final(self)@.rows == old(self)@.rows.push(RowView::Cells(row@)),
            final(self)@.column_widths.len() == old(self)@.column_widths.len(),
            forall|i: int|
                0 <= i < old(self)@.n_columns ==> #[trigger] final(self)@.column_widths[i]
                    == max_nat(old(self)@.column_widths[i], row@[i].width),
            forall|i: int|
                0 <= i < old(self)@.n_columns ==> old(self)@.column_widths[i] <= final(self)@.column_widths[i],
    {
        proof {
            row.lemma_view();
        }
        let cells = row.0;
        let ghost w0: Seq<usize> = self.column_widths@;
        let ghost fmt0: Seq<ColumnSpec> = self.format@;
        let ghost rows0: Seq<InternalRow> = self.rows@;
        let ghost nc0: usize = self.n_columns;
        let n = self.column_widths.len();
        let mut i: usize = 0;
        while i < n
            invariant
                i <= n,
                n == self.column_widths@.len(),
                n == w0.len(),
                self.n_columns == nc0,
                self.format@ == fmt0,
                self.rows@ == rows0,
                crate::row::cells_view(cells@) == row@,
                row@.len() == n,
                forall|k: int|
                    0 <= k < i ==> #[trigger] widths_view(self.column_widths@)[k] == max_nat(
                        widths_view(w0)[k],
                        row@[k].width,
                    ),
                forall|k: int| i <= k < n ==> #[trigger] self.column_widths@[k] == w0[k],
            decreases n - i,
        {
            let ghost pre: Seq<usize> = self.column_widths@;
            let w = cells[i].width();
            if w > self.column_widths[i] {
                self.column_widths[i] = w;
            }
            proof {
                assert(crate::row::cells_view(cells@)[i as int] == cells@[i as int]@);
                assert(row@[i as int].width == cells@[i as int]@.width);
                assert forall|k: int|
                    0 <= k < i + 1 implies #[trigger] widths_view(self.column_widths@)[k]
                    == max_nat(widths_view(w0)[k], row@[k].width) by {
                    if k < i {
                        assert(self.column_widths@[k] == pre[k]);
                        assert(widths_view(pre)[k] == max_nat(widths_view(w0)[k], row@[k].width));
                    } else {
                        assert(widths_view(self.column_widths@)[k] == max_nat(
                            widths_view(w0)[k],
                            row@[k].width,
                        ));
                    }
                }
            }
            i = i + 1;
        }
        self.rows.push(InternalRow::Cells(cells));
        proof {
            assert(final(self)@.rows =~= old(self)@.rows.push(RowView::Cells(row@)));
            assert forall|k: int|
                0 <= k < final(self)@.rows.len() implies (#[trigger] final(self)@.rows[k] matches RowView::Cells(cs) ==> cs.len() == final(self)@.n_columns
                && cells_wf(cs)) by {
                if k < old(self)@.rows.len() {
                    assert(final(self)@.rows[k] == old(self)@.rows[k]);
                }
            }
            assert forall|k: int|
                0 <= k < final(self)@.column_widths.len() implies #[trigger] final(self)@.column_widths[k] == col_max(final(self)@.rows, k) by {
                assert(final(self)@.rows.drop_last() =~= old(self)@.rows);
                assert(final(self)@.column_widths[k] == max_nat(
                    old(self)@.column_widths[k],
                    row@[k].width,
                ));
            }
        }
    }

    /// Like [`Table::add_row`], but consumes and returns the table, so that
    /// calls can chain.
    pub fn with_row(self, row: Row) -> (t: Table)
        requires
            self.wf(),
            row.wf(),
            row@.len() == self@.n_columns,
        ensures
            t.wf(),
            t@.n_columns == self@.n_columns,
            t@.format == self@.format,
            t@.rows == self@.rows.push(RowView::Cells(row@)),
            t@.column_widths.len() == self@.column_widths.len(),
            forall|i: int|
                0 <= i < self@.n_columns ==> #[trigger] t@.column_widths[i] == max_nat(
                    self@.column_widths[i],
                    row@[i].width,
                ),
    {
        let mut table = self;
        table.add_row(row);
        table
    }

    /// Appends a row of cells if its cell count matches the table's column
    /// count, and reports whether it did; a mismatched row leaves the table
    /// untouched.  A mismatch is never coerced: the row is neither truncated
    /// nor padded.
    pub fn try_add_row(&mut self, row: Row) -> (added: bool)
        requires
            old(self).wf(),
            row.wf(),
        ensures
            added <==> row@.len() == old(self)@.n_columns,
            final(self).wf(),
            added ==> final(self)@.n_columns == old(self)@.n_columns && final(self)@.format == old(self)@.format && final(self)@.rows == old(self)@.rows.push(RowView::Cells(row@)) && forall|
                i: int,
            |
                0 <= i < old(self)@.n_columns ==> #[trigger] final(self)@.column_widths[i]
                    == max_nat(old(self)@.column_widths[i], row@[i].width),
            !added ==> final(self)@ == old(self)@,
    {
        if row.len() == self.column_count() {
            self.add_row(row);
            true
        } else {
            false
        }
    }

    /// Renders the whole table: one line per stored row, in order, each
    /// followed by a newline.  Rendering is a pure function of the current
    /// state; it can run repeatedly, and rows added later show up in later
    /// renders.  A table with no rows renders as empty output.
    #[verifier::rlimit(100)]
    pub fn render(&self) -> (out: String)
        ensures
            out@ == spec_render(self@.format, self@.column_widths, self@.rows),
            self@.rows.len() == 0 ==> out@ == Seq::<char>::empty(),
    {
        let ghost fmt = self@.format;
        let ghost w = self@.column_widths;
        let ghost rv = self@.rows;
        let mut out = String::new();
        let mut r: usize = 0;
        proof {
            assert(rv.take(0) =~= Seq::<RowView>::empty());
        }
        while r < self.rows.len()
            invariant
                r <= self.rows@.len(),
                fmt == self@.format,
                w == self@.column_widths,
                rv == self@.rows,
                rv.len() == self.rows@.len(),
                out@ == spec_render(fmt, w, rv.take(r as int)),
            decreases self.rows@.len() - r,
        {
            let ghost base = out@;
            proof {
                assert(rv[r as int] == self.rows@[r as int]@);
            }
            match &self.rows[r] {
                InternalRow::Heading(s) => {
                    out.append(s.as_str());
                },
                InternalRow::Cells(cells) => {
                    let ghost cv = crate::row::cells_view(cells@);
                    let mut f: usize = 0;
                    let mut j: usize = 0;
                    proof {
                        assert(fmt.skip(0) =~= fmt);
                    }
                    while f < self.format.len()
                        invariant
                            f <= self.format@.len(),
                            j <= f,
                            fmt == self@.format,
                            w == self@.column_widths,
                            fmt.len() == self.format@.len(),
                            w.len() == self.column_widths@.len(),
                            cv == crate::row::cells_view(cells@),
                            cv.len() == cells@.len(),
                            out@ + spec_render_cells(fmt.skip(f as int), w, cv, j as int) == base
                                + spec_render_cells(fmt, w, cv, 0),
                        decreases self.format@.len() - f,
                    {
                        let ghost mid = out@;
                        proof {
                            assert(fmt.skip(f as int)[0] == fmt[f as int]);
                            assert(fmt.skip(f as int).skip(1) =~= fmt.skip(f as int + 1));
                            assert(fmt.skip(f as int).len() == fmt.len() - f);
                        }
                        match &self.format[f] {
                            ColumnSpec::Literal(s) => {
                                out.append(s.as_str());
                                proof {
                                    assert(fmt[f as int] == TokenView::Literal(s@));
                                    let rest = spec_render_cells(
                                        fmt.skip(f as int + 1),
                                        w,
                                        cv,
                                        j as int,
                                    );
                                    assert(spec_render_cells(fmt.skip(f as int), w, cv, j as int)
                                        =~= s@ + rest);
                                    assert(out@ + rest =~= mid + (s@ + rest));
                                }
                            },
                            ColumnSpec::Left => {
                                let cw: usize = if j < self.column_widths.len() {
                                    self.column_widths[j]
                                } else {
                                    0
                                };
                                let mut width: usize = 0;
                                if j < cells.len() {
                                    out.append(cells[j].as_str());
                                    width = cells[j].width();
                                }
                                let pad_now = f + 1 < self.format.len() && width < cw;
                                if pad_now {
                                    push_spaces(&mut out, cw - width);
                                }
                                proof {
                                    assert(fmt[f as int] == TokenView::Left);
                                    let text: Seq<char> = if 0 <= (j as int) < cv.len() {
                                        cv[j as int].text
                                    } else {
                                        Seq::empty()
                                    };
                                    let wj: int = if 0 <= (j as int) < cv.len() {
                                        cv[j as int].width as int
                                    } else {
                                        0
                                    };
                                    let cwj: int = if 0 <= (j as int) < w.len() {
                                        w[j as int] as int
                                    } else {
                                        0
                                    };
                                    let pad: Seq<char> = if fmt.skip(f as int).len() > 1 {
                                        spec_pad(cwj - wj)
                                    } else {
                                        Seq::empty()
                                    };
                                    if j < cells.len() {
                                        assert(cv[j as int] == cells@[j as int]@);
                                    }
                                    assert(width as int == wj);
                                    assert(cw as int == cwj);
                                    if !pad_now && f + 1 < fmt.len() {
                                        assert(spec_pad(cwj - wj) =~= Seq::<char>::empty());
                                    }
                                    assert(out@ =~= mid + text + pad);
                                    let rest = spec_render_cells(
                                        fmt.skip(f as int + 1),
                                        w,
                                        cv,
                                        j as int + 1,
                                    );
                                    assert(spec_render_cells(fmt.skip(f as int), w, cv, j as int)
                                        =~= text + pad + rest);
                                    assert(out@ + rest =~= mid + (text + pad + rest));
                                }
                                j = j + 1;
                            },
                            ColumnSpec::Right => {
                                let cw: usize = if j < self.column_widths.len() {
                                    self.column_widths[j]
                                } else {
                                    0
                                };
                                let width: usize = if j < cells.len() {
                                    cells[j].width()
                                } else {
                                    0
                                };
                                if width < cw {
                                    push_spaces(&mut out, cw - width);
                                }
                                if j < cells.len() {
                                    out.append(cells[j].as_str());
                                }
                                proof {
                                    assert(fmt[f as int] == TokenView::Right);
                                    let text: Seq<char> = if 0 <= (j as int) < cv.len() {
                                        cv[j as int].text
                                    } else {
                                        Seq::empty()
                                    };
                                    let wj: int = if 0 <= (j as int) < cv.len() {
                                        cv[j as int].width as int
                                    } else {
                                        0
                                    };
                                    let cwj: int = if 0 <= (j as int) < w.len() {
                                        w[j as int] as int
                                    } else {
                                        0
                                    };
                                    if j < cells.len() {
                                        assert(cv[j as int] == cells@[j as int]@);
                                    }
                                    assert(width as int == wj);
                                    assert(cw as int == cwj);
                                    if width >= cw {
                                        assert(spec_pad(cwj - wj) =~= Seq::<char>::empty());
                                    }
                                    assert(out@ =~= mid + spec_pad(cwj - wj) + text);
                                    let rest = spec_render_cells(
                                        fmt.skip(f as int + 1),
                                        w,
                                        cv,
                                        j as int + 1,
                                    );
                                    assert(spec_render_cells(fmt.skip(f as int), w, cv, j as int)
                                        =~= spec_pad(cwj - wj) + text + rest);
                                    assert(out@ + rest =~= mid + (spec_pad(cwj - wj) + text
                                        + rest));
                                }
                                j = j + 1;
                            },
                        }
                        f = f + 1;
                    }
                    proof {
                        assert(fmt.skip(fmt.len() as int) =~= Seq::<TokenView>::empty());
                        assert(spec_render_cells(
                            Seq::<TokenView>::empty(),
                            w,
                            cv,
                            j as int,
                        ) =~= Seq::<char>::empty());
                        assert(out@ + Seq::<char>::empty() =~= out@);
                    }
                },
            }
            push_char(&mut out, '\n');
            proof {
                assert(rv.take(r as int + 1).drop_last() =~= rv.take(r as int));
                assert(rv.take(r as int + 1).last() == rv[r as int]);
                assert(out@ =~= base + spec_render_row(fmt, w, rv[r as int]));
            }
            r = r + 1;
        }
        proof {
            assert(rv.take(rv.len() as int) =~= rv);
        }
        out
    }
}

} // verus!
