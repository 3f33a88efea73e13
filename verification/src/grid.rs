//! The screen grid: a rectangle of cells in one contiguous block of memory.

use crate::cell::TerminalCell;
use vstd::prelude::*;

verus! {

/// What a [`TerminalGrid`] holds: its lines from top to bottom, and for each
/// line whether the text on it continues on the next one.
#[verifier::ext_equal]
pub struct GridModel {
    pub cols: nat,
    pub lines: Seq<Seq<TerminalCell>>,
    pub wrapped: Seq<bool>,
}

/// `n` copies of one cell.
pub open spec fn line_of(cell: TerminalCell, n: nat) -> Seq<TerminalCell> {
    Seq::new(n, |c: int| cell)
}

impl GridModel {
    pub open spec fn wf(self) -> bool {
        &&& self.wrapped.len() == self.lines.len()
        &&& forall|r: int| 0 <= r < self.lines.len() ==> (#[trigger] self.lines[r]).len() == self.cols
    }

    pub open spec fn rows(self) -> nat {
        self.lines.len()
    }

    /// A grid of blanks.
    pub open spec fn blank(rows: nat, cols: nat) -> GridModel {
        GridModel {
            cols,
            lines: Seq::new(rows, |r: int| line_of(TerminalCell::blank(), cols)),
            wrapped: Seq::new(rows, |r: int| false),
        }
    }

    /// Line `row` replaced.
    pub open spec fn with_line(self, row: int, line: Seq<TerminalCell>) -> GridModel {
        GridModel { lines: self.lines.update(row, line), ..self }
    }

    /// One cell replaced.
    pub open spec fn with_cell(self, row: int, col: int, cell: TerminalCell) -> GridModel {
        self.with_line(row, self.lines[row].update(col, cell))
    }

    /// Lines `top + 1 ..= bottom` move up by one; line `bottom` becomes blank.
    pub open spec fn lines_up(self, top: int, bottom: int) -> GridModel {
        GridModel {
            lines: Seq::new(
                self.lines.len(),
                |r: int|
                    if top <= r < bottom {
                        self.lines[r + 1]
                    } else if r == bottom {
                        line_of(TerminalCell::blank(), self.cols)
                    } else {
                        self.lines[r]
                    },
            ),
            ..self
        }
    }

    /// Lines `top .. bottom` move down by one; line `top` becomes blank.
    pub open spec fn lines_down(self, top: int, bottom: int) -> GridModel {
        GridModel {
            lines: Seq::new(
                self.lines.len(),
                |r: int|
                    if top < r <= bottom {
                        self.lines[r - 1]
                    } else if r == top {
                        line_of(TerminalCell::blank(), self.cols)
                    } else {
                        self.lines[r]
                    },
            ),
            ..self
        }
    }

    /// The wrap marks of lines `top + 1 ..= bottom` move up with their lines.
    pub open spec fn marks_up(self, top: int, bottom: int) -> GridModel {
        GridModel {
            wrapped: Seq::new(
                self.wrapped.len(),
                |r: int|
                    if top <= r < bottom {
                        self.wrapped[r + 1]
                    } else if r == bottom {
                        false
                    } else {
                        self.wrapped[r]
                    },
            ),
            ..self
        }
    }

    /// The wrap marks of lines `top .. bottom` move down with their lines.
    pub open spec fn marks_down(self, top: int, bottom: int) -> GridModel {
        GridModel {
            wrapped: Seq::new(
                self.wrapped.len(),
                |r: int|
                    if top < r <= bottom {
                        self.wrapped[r - 1]
                    } else if r == top {
                        false
                    } else {
                        self.wrapped[r]
                    },
            ),
            ..self
        }
    }

    /// The lines of a region scroll up by one, marks included.
    pub open spec fn scrolled_up(self, top: int, bottom: int) -> GridModel {
        self.lines_up(top, bottom).marks_up(top, bottom)
    }

    /// The lines of a region scroll down by one, marks included.
    pub open spec fn scrolled_down(self, top: int, bottom: int) -> GridModel {
        self.lines_down(top, bottom).marks_down(top, bottom)
    }

    /// Every cell replaced by `cell`.
    pub open spec fn filled(self, cell: TerminalCell) -> GridModel {
        GridModel {
            lines: Seq::new(self.lines.len(), |r: int| line_of(cell, self.cols)),
            ..self
        }
    }

    /// A cell inserted at `col`; the cells to its right move one column to the
    /// right and the last one is lost.
    pub open spec fn inserted_in_line(line: Seq<TerminalCell>, col: int, cell: TerminalCell) -> Seq<
        TerminalCell,
    > {
        line.subrange(0, col).push(cell) + line.subrange(col, line.len() - 1)
    }

    /// The cell at `col` removed; the cells to its right move one column to the
    /// left and a blank fills the last column.
    pub open spec fn removed_in_line(line: Seq<TerminalCell>, col: int) -> Seq<TerminalCell> {
        (line.subrange(0, col) + line.subrange(col + 1, line.len() as int)).push(
            TerminalCell::blank(),
        )
    }

    /// Lines move up by `n`, with their wrap marks; the last `n` keep what they hold.
    pub open spec fn raised(self, n: int) -> GridModel {
        GridModel {
            lines: Seq::new(
                self.lines.len(),
                |r: int|
                    if r + n < self.lines.len() {
                        self.lines[r + n]
                    } else {
                        self.lines[r]
                    },
            ),
            wrapped: Seq::new(
                self.wrapped.len(),
                |r: int|
                    if r + n < self.wrapped.len() {
                        self.wrapped[r + n]
                    } else {
                        self.wrapped[r]
                    },
            ),
            ..self
        }
    }

    /// The overlap of the old and the new rectangle is kept; new cells are `fill`.
    pub open spec fn resized(self, rows: nat, cols: nat, fill: TerminalCell) -> GridModel {
        GridModel {
            cols,
            lines: Seq::new(
                rows,
                |r: int|
                    Seq::new(
                        cols,
                        |c: int|
                            if r < self.lines.len() && c < self.cols {
                                self.lines[r][c]
                            } else {
                                fill
                            },
                    ),
            ),
            wrapped: Seq::new(
                rows,
                |r: int|
                    if r < self.wrapped.len() {
                        self.wrapped[r]
                    } else {
                        false
                    },
            ),
        }
    }
}

/// Contiguous grid storage, for locality: `cells[row * cols + col]` is the cell
/// in line `row` at column `col`.
pub struct TerminalGrid {
    cells: Vec<TerminalCell>,
    rows: usize,
    cols: usize,
    pub row_wrapped: Vec<bool>,
}

proof fn lemma_row_span(row: int, rows: int, cols: int)
    by (nonlinear_arith)
    requires
        0 <= row < rows,
        0 <= cols,
    ensures
        0 <= row * cols,
        row * cols + cols <= rows * cols,
        row * cols + cols == (row + 1) * cols,
        rows * cols <= rows * cols,
{
}

proof fn lemma_rows_apart(a: int, b: int, cols: int)
    by (nonlinear_arith)
    requires
        a < b,
        0 <= cols,
    ensures
        a * cols + cols <= b * cols,
{
}

spec fn flat_line(cells: Seq<TerminalCell>, cols: int, row: int) -> Seq<TerminalCell> {
    cells.subrange(row * cols, row * cols + cols)
}

/// Cuts the storage of a grid into its lines.
fn split_lines(cells: &mut [TerminalCell], rows: usize, cols: usize) -> (lines: Vec<
    &mut [TerminalCell],
>)
    requires
        old(cells)@.len() == rows * cols,
    ensures
        lines@.len() == rows,
        forall|r: int| #![trigger lines@[r]] 0 <= r < rows ==> lines@[r]@ == flat_line(old(cells)@, cols as int, r),
        (forall|r: int| #![trigger lines@[r]] 0 <= r < rows ==> final(lines@[r])@.len() == cols) ==> {
            &&& final(cells)@.len() == rows * cols
            &&& forall|r: int| #![trigger lines@[r]]
                0 <= r < rows ==> final(lines@[r])@ == flat_line(final(cells)@, cols as int, r)
        },
{
    let ghost all = cells@;
    let mut lines: Vec<&mut [TerminalCell]> = Vec::new();
    let mut rest = cells;
    let mut r: usize = 0;
    while r < rows
        invariant
            r <= rows,
            lines@.len() == r,
            all.len() == rows * cols,
            rest@ == all.subrange(r * cols, rows * cols),
            forall|k: int| #![trigger lines@[k]] 0 <= k < r ==> lines@[k]@ == flat_line(all, cols as int, k),
            (forall|k: int| #![trigger lines@[k]] 0 <= k < r ==> final(lines@[k])@.len() == cols) ==> {
                &&& final(cells)@.len() == r * cols + final(rest)@.len()
                &&& final(cells)@.subrange(r * cols, final(cells)@.len() as int) == final(rest)@
                &&& forall|k: int| #![trigger lines@[k]]
                    0 <= k < r ==> final(lines@[k])@ == flat_line(final(cells)@, cols as int, k)
            },
        decreases rows - r,
    {
        proof {
            lemma_row_span(r as int, rows as int, cols as int);
        }
        let ghost before = lines@;
        let (line, below) = rest.split_at_mut(cols);
        assert(line@ == flat_line(all, cols as int, r as int));
        assert(below@ == all.subrange((r + 1) * cols, rows * cols));
        lines.push(line);
        rest = below;
        r = r + 1;
        assert(forall|k: int|
            #![trigger before[k]]
            #![trigger lines@[k]]
            0 <= k < r - 1 ==> lines@[k] == before[k]);
        assert forall|w: Seq<TerminalCell>, s: int, a: Seq<TerminalCell>, b: Seq<TerminalCell>|
            #![trigger w.subrange(s, w.len() as int), a + b]
            0 <= s <= w.len() && w.subrange(s, w.len() as int) == a + b implies w.subrange(
            s,
            s + a.len(),
        ) == a && w.subrange(s + a.len(), w.len() as int) == b && w.len() == s + a.len()
            + b.len() by {
            assert(w.subrange(s, w.len() as int).len() == a.len() + b.len());
            assert forall|i: int| 0 <= i < a.len() implies w[s + i] == a[i] by {
                assert(w.subrange(s, w.len() as int)[i] == (a + b)[i]);
            }
            assert forall|i: int| 0 <= i < b.len() implies w[s + a.len() + i] == b[i] by {
                assert(w.subrange(s, w.len() as int)[a.len() + i] == (a + b)[a.len() + i]);
            }
            assert(w.subrange(s, s + a.len()) =~= a);
            assert(w.subrange(s + a.len(), w.len() as int) =~= b);
        }
        assert((forall|k: int| #![trigger lines@[k]] 0 <= k < r ==> final(lines@[k])@.len() == cols)
            ==> final(cells)@.subrange((r - 1) * cols, final(cells)@.len() as int)
            == final(lines@[r - 1])@ + final(rest)@);
    }
    lines
}

impl View for TerminalGrid {
    type V = GridModel;

    closed spec fn view(&self) -> GridModel {
        GridModel {
            cols: self.cols as nat,
            lines: Seq::new(
                self.rows as nat,
                |r: int| flat_line(self.cells@, self.cols as int, r),
            ),
            wrapped: self.row_wrapped@,
        }
    }
}

impl TerminalGrid {
    /// The storage has room for exactly the lines and marks of the grid.
    pub closed spec fn wf(&self) -> bool {
        &&& self.cells.len() == self.rows * self.cols
        &&& self.row_wrapped.len() == self.rows
    }

    /// A well-formed grid holds a well-formed rectangle of lines.
    pub broadcast proof fn view_is_wf(&self)
        requires
            #[trigger] self.wf(),
        ensures
            self@.wf(),
    {
        assert forall|r: int| 0 <= r < self@.lines.len() implies (#[trigger] self@.lines[r]).len()
            == self@.cols by {
            lemma_row_span(r, self.rows as int, self.cols as int);
        }
    }

    pub fn new(rows: usize, cols: usize) -> (grid: Self)
        requires
            rows * cols <= usize::MAX,
        ensures
            grid.wf(),
            grid@ == GridModel::blank(rows as nat, cols as nat),
    {
        let cell = TerminalCell::default();
        let grid = TerminalGrid {
            cells: vec![cell; rows * cols],
            rows,
            cols,
            row_wrapped: vec![false; rows],
        };
        proof {
            assert forall|r: int| 0 <= r < rows implies #[trigger] grid@.lines[r] =~= line_of(
                TerminalCell::blank(),
                cols as nat,
            ) by {
                lemma_row_span(r, rows as int, cols as int);
            }
            assert(grid@.lines =~= GridModel::blank(rows as nat, cols as nat).lines);
            assert(grid@.wrapped =~= GridModel::blank(rows as nat, cols as nat).wrapped);
        }
        grid
    }

    pub fn get(&self, row: usize, col: usize) -> (cell: &TerminalCell)
        requires
            self.wf(),
            row < self@.lines.len(),
            col < self@.cols,
        ensures
            *cell == self@.lines[row as int][col as int],
    {
        proof {
            lemma_row_span(row as int, self.rows as int, self.cols as int);
        }
        &self.cells[row * self.cols + col]
    }

    pub fn get_mut(&mut self, row: usize, col: usize) -> (cell: &mut TerminalCell)
        requires
            old(self).wf(),
            row < old(self)@.lines.len(),
            col < old(self)@.cols,
        ensures
            *cell == old(self)@.lines[row as int][col as int],
            final(self).wf(),
            final(self)@ == old(self)@.with_cell(row as int, col as int, *final(cell)),
    {
        proof {
            lemma_row_span(row as int, self.rows as int, self.cols as int);
        }
        let i: usize = row * self.cols + col;
        proof {
            let before = *self;
            assert forall|after: TerminalGrid, x: TerminalCell|
                #![trigger after@, before@.with_cell(row as int, col as int, x)]
                after.cells@ == before.cells@.update(i as int, x) && after.rows == before.rows
                    && after.cols == before.cols && after.row_wrapped@
                    == before.row_wrapped@ implies after@ == before@.with_cell(
                row as int,
                col as int,
                x,
            ) by {
                let line = before@.lines[row as int].update(col as int, x);
                assert(after.wf());
                assert forall|c: int| 0 <= c < after.cols implies after.cells@[row * after.cols + c]
                    == #[trigger] line[c] by {}
                after.lemma_one_line_changed(&before, row as int, line);
            }
        }
        &mut self.cells[i]
    }

    pub fn rows(&self) -> (n: usize)
        ensures
            n == self@.lines.len(),
    {
        self.rows
    }

    pub fn cols(&self) -> (n: usize)
        ensures
            n == self@.cols,
    {
        self.cols
    }

    /// The number of lines.
    pub fn len(&self) -> (n: usize)
        ensures
            n == self@.lines.len(),
    {
        self.rows
    }

    /// The length of a line.
    pub fn row_len(&self) -> (n: usize)
        ensures
            n == self@.cols,
    {
        self.cols
    }

    pub fn is_empty(&self) -> (v: bool)
        ensures
            v == (self@.lines.len() == 0),
    {
        self.rows == 0
    }

    /// Line `row`, in place.
    pub fn row(&self, row: usize) -> (line: &[TerminalCell])
        requires
            self.wf(),
            row < self@.lines.len(),
        ensures
            line@ == self@.lines[row as int],
    {
        proof {
            lemma_row_span(row as int, self.rows as int, self.cols as int);
        }
        let start: usize = row * self.cols;
        vstd::slice::slice_subrange(self.cells.as_slice(), start, start + self.cols)
    }

    /// Line `row`, to be written to. A line that comes back as long as it was
    /// handed out is what the grid then holds.
    pub fn row_mut(&mut self, row: usize) -> (line: &mut [TerminalCell])
        requires
            old(self).wf(),
            row < old(self)@.lines.len(),
        ensures
            line@ == old(self)@.lines[row as int],
            final(line)@.len() == old(self)@.cols ==> final(self).wf() && final(self)@ == old(
                self,
            )@.with_line(row as int, final(line)@),
    {
        proof {
            lemma_row_span(row as int, self.rows as int, self.cols as int);
        }
        let start: usize = row * self.cols;
        let cols: usize = self.cols;
        let ghost before = *self;
        proof {
            assert forall|after: TerminalGrid, x: Seq<TerminalCell>|
                #![trigger after@, before@.with_line(row as int, x)]
                x.len() == cols && after.cells@ == before.cells@.subrange(0, start as int) + (x
                    + before.cells@.subrange(start + cols, before.cells@.len() as int))
                    && after.rows == before.rows && after.cols == before.cols
                    && after.row_wrapped@ == before.row_wrapped@ implies after.wf() && after@
                == before@.with_line(row as int, x) by {
                assert(after.wf());
                assert forall|c: int| 0 <= c < after.cols implies after.cells@[row * after.cols + c]
                    == #[trigger] x[c] by {}
                after.lemma_one_line_changed(&before, row as int, x);
            }
        }
        let (above, rest) = self.cells.as_mut_slice().split_at_mut(start);
        let (line, below) = rest.split_at_mut(cols);
        assert(below@ == before.cells@.subrange(start + cols, before.cells@.len() as int));
        line
    }

    /// A copy of line `row`.
    pub fn get_row(&self, row: usize) -> (line: Vec<TerminalCell>)
        requires
            self.wf(),
            row < self@.lines.len(),
        ensures
            line@ == self@.lines[row as int],
    {
        let line = self.row(row);
        copy_cells(line)
    }

    /// Overwrites line `row` from the left with `cells`; cells that do not fit
    /// are dropped, columns that `cells` does not reach keep what they hold.
    pub fn set_row(&mut self, row: usize, cells: Vec<TerminalCell>)
        requires
            old(self).wf(),
            row < old(self)@.lines.len(),
        ensures
            final(self).wf(),
            final(self)@ == old(self)@.with_line(
                row as int,
                Seq::new(
                    old(self)@.cols,
                    |c: int|
                        if c < cells@.len() {
                            cells@[c]
                        } else {
                            old(self)@.lines[row as int][c]
                        },
                ),
            ),
    {
        let n: usize = if cells.len() < self.cols {
            cells.len()
        } else {
            self.cols
        };
        let ghost line = Seq::new(
            self@.cols,
            |c: int|
                if c < cells@.len() {
                    cells@[c]
                } else {
                    self@.lines[row as int][c]
                },
        );
        self.write_cells(row, 0, &cells, n);
        proof {
            assert(self@.lines[row as int] =~= line);
            assert(self@.lines =~= old(self)@.with_line(row as int, line).lines);
        }
    }

    /// Writes the first `n` of `cells` into line `row`, starting at column `col`.
    pub(crate) fn write_cells(&mut self, row: usize, col: usize, cells: &[TerminalCell], n: usize)
        requires
            old(self).wf(),
            row < old(self)@.lines.len(),
            n <= cells@.len(),
            col + n <= old(self)@.cols,
        ensures
            final(self).wf(),
            final(self)@ == old(self)@.with_line(
                row as int,
                Seq::new(
                    old(self)@.cols,
                    |c: int|
                        if col <= c < col + n {
                            cells@[c - col]
                        } else {
                            old(self)@.lines[row as int][c]
                        },
                ),
            ),
    {
        let ghost line = Seq::new(
            self@.cols,
            |c: int|
                if col <= c < col + n {
                    cells@[c - col]
                } else {
                    self@.lines[row as int][c]
                },
        );
        proof {
            lemma_row_span(row as int, self.rows as int, self.cols as int);
        }
        let start: usize = row * self.cols;
        let mut i: usize = 0;
        while i < n
            invariant
                i <= n,
                n <= cells@.len(),
                col + n <= self.cols,
                start == row * self.cols,
                start + self.cols <= self.cells@.len(),
                self.wf(),
                self.rows == old(self).rows,
                self.cols == old(self).cols,
                self.row_wrapped@ == old(self).row_wrapped@,
                self.cells@.len() == old(self).cells@.len(),
                forall|k: int|
                    0 <= k < self.cells@.len() ==> #[trigger] self.cells@[k] == (if start + col <= k
                        < start + col + i {
                        cells@[k - start - col]
                    } else {
                        old(self).cells@[k]
                    }),
            decreases n - i,
        {
            let cell = cells[i];
            self.cells.set(start + col + i, cell);
            i = i + 1;
        }
        proof {
            self.lemma_one_line_changed(old(self), row as int, line);
        }
    }

    /// Cells outside line `row` are as in `before`, and line `row` reads `line`.
    proof fn lemma_one_line_changed(&self, before: &TerminalGrid, row: int, line: Seq<TerminalCell>)
        requires
            before.wf(),
            self.wf(),
            self.rows == before.rows,
            self.cols == before.cols,
            self.row_wrapped@ == before.row_wrapped@,
            0 <= row < self.rows,
            line.len() == self.cols,
            forall|k: int|
                0 <= k < self.cells@.len() && !(row * self.cols <= k < row * self.cols + self.cols)
                    ==> #[trigger] self.cells@[k] == before.cells@[k],
            forall|c: int|
                0 <= c < self.cols ==> self.cells@[row * self.cols + c] == #[trigger] line[c],
        ensures
            self@ == before@.with_line(row, line),
    {
        let rows = self.rows as int;
        let cols = self.cols as int;
        let want = before@.with_line(row, line);
        assert forall|r: int| 0 <= r < rows implies #[trigger] self@.lines[r] =~= want.lines[r] by {
            lemma_row_span(r, rows, cols);
            lemma_row_span(row, rows, cols);
            if r < row {
                lemma_rows_apart(r, row, cols);
            } else if r > row {
                lemma_rows_apart(row, r, cols);
            } else {
                assert forall|c: int| 0 <= c < cols implies self@.lines[r][c] == line[c] by {}
            }
        }
        assert(self@.lines =~= want.lines);
    }

    /// Fills columns `from .. to` of line `row` with `cell`.
    pub(crate) fn fill_cells(&mut self, row: usize, from: usize, to: usize, cell: TerminalCell)
        requires
            old(self).wf(),
            row < old(self)@.lines.len(),
            from <= to <= old(self)@.cols,
        ensures
            final(self).wf(),
            final(self)@ == old(self)@.with_line(
                row as int,
                Seq::new(
                    old(self)@.cols,
                    |c: int|
                        if from <= c < to {
                            cell
                        } else {
                            old(self)@.lines[row as int][c]
                        },
                ),
            ),
    {
        let ghost line = Seq::new(
            self@.cols,
            |c: int|
                if from <= c < to {
                    cell
                } else {
                    self@.lines[row as int][c]
                },
        );
        proof {
            lemma_row_span(row as int, self.rows as int, self.cols as int);
        }
        let start: usize = row * self.cols;
        let mut i: usize = from;
        while i < to
            invariant
                from <= i <= to,
                to <= self.cols,
                start == row * self.cols,
                start + self.cols <= self.cells@.len(),
                self.wf(),
                self.rows == old(self).rows,
                self.cols == old(self).cols,
                self.row_wrapped@ == old(self).row_wrapped@,
                self.cells@.len() == old(self).cells@.len(),
                forall|k: int|
                    0 <= k < self.cells@.len() ==> #[trigger] self.cells@[k] == (if start + from
                        <= k < start + i {
                        cell
                    } else {
                        old(self).cells@[k]
                    }),
            decreases to - i,
        {
            self.cells.set(start + i, cell);
            i = i + 1;
        }
        proof {
            self.lemma_one_line_changed(old(self), row as int, line);
        }
    }

    /// All lines, from top to bottom.
    pub fn to_vec(&self) -> (lines: Vec<Vec<TerminalCell>>)
        requires
            self.wf(),
            self@.cols > 0,
        ensures
            lines@.len() == self@.lines.len(),
            forall|r: int|
                0 <= r < lines@.len() ==> (#[trigger] lines@[r])@ == self@.lines[r],
    {
        let mut lines: Vec<Vec<TerminalCell>> = Vec::new();
        let mut r: usize = 0;
        while r < self.rows
            invariant
                self.wf(),
                r <= self.rows,
                lines@.len() == r,
                forall|k: int| 0 <= k < r ==> (#[trigger] lines@[k])@ == self@.lines[k],
            decreases self.rows - r,
        {
            let line = self.get_row(r);
            lines.push(line);
            r = r + 1;
        }
        lines
    }

    /// The lines, from top to bottom, in place.
    pub fn iter(&self) -> (lines: Vec<&[TerminalCell]>)
        requires
            self.wf(),
            self@.cols > 0,
        ensures
            lines@.len() == self@.lines.len(),
            forall|r: int|
                0 <= r < lines@.len() ==> (#[trigger] lines@[r])@ == self@.lines[r],
    {
        let mut lines: Vec<&[TerminalCell]> = Vec::new();
        let mut r: usize = 0;
        while r < self.rows
            invariant
                self.wf(),
                r <= self.rows,
                lines@.len() == r,
                forall|k: int| 0 <= k < r ==> (#[trigger] lines@[k])@ == self@.lines[k],
            decreases self.rows - r,
        {
            lines.push(self.row(r));
            r = r + 1;
        }
        lines
    }

    /// The lines, from top to bottom, to be written to. A line that comes back
    /// as long as it was handed out is what the grid then holds.
    pub fn iter_mut(&mut self) -> (lines: Vec<&mut [TerminalCell]>)
        requires
            old(self).wf(),
            old(self)@.cols > 0,
        ensures
            lines@.len() == old(self)@.lines.len(),
            forall|r: int|
                #![trigger lines@[r]]
                0 <= r < lines@.len() ==> lines@[r]@ == old(self)@.lines[r],
            final(self)@.cols == old(self)@.cols,
            final(self)@.wrapped == old(self)@.wrapped,
            final(self)@.lines.len() == old(self)@.lines.len(),
            (forall|r: int|
                #![trigger lines@[r]]
                0 <= r < lines@.len() ==> final(lines@[r])@.len() == old(self)@.cols) ==> {
                &&& final(self).wf()
                &&& forall|r: int|
                    #![trigger lines@[r]]
                    0 <= r < lines@.len() ==> final(self)@.lines[r] == final(lines@[r])@
            },
    {
        let rows: usize = self.rows;
        let cols: usize = self.cols;
        split_lines(self.cells.as_mut_slice(), rows, cols)
    }

    /// Inserts a cell into a line; the cells right of it move right and the last
    /// one is dropped. A position outside the grid changes nothing.
    pub fn insert_cell_in_row(&mut self, row: usize, col: usize, cell: TerminalCell)
        requires
            old(self).wf(),
        ensures
            final(self).wf(),
            final(self)@ == (if row < old(self)@.lines.len() && col < old(self)@.cols {
                old(self)@.with_line(
                    row as int,
                    GridModel::inserted_in_line(old(self)@.lines[row as int], col as int, cell),
                )
            } else {
                old(self)@
            }),
    {
        if row >= self.rows || col >= self.cols {
            return;
        }
        let ghost before = self@.lines[row as int];
        let ghost line = GridModel::inserted_in_line(before, col as int, cell);
        proof {
            lemma_row_span(row as int, self.rows as int, self.cols as int);
            TerminalGrid::view_is_wf(&*self);
        }
        let start: usize = row * self.cols;
        let mut i: usize = self.cols - 1;
        while i > col
            invariant
                col <= i < self.cols,
                start == row * self.cols,
                start + self.cols <= self.cells@.len(),
                self.wf(),
                self.rows == old(self).rows,
                self.cols == old(self).cols,
                self.row_wrapped@ == old(self).row_wrapped@,
                self.cells@.len() == old(self).cells@.len(),
                forall|k: int|
                    0 <= k < self.cells@.len() ==> #[trigger] self.cells@[k] == (if start + i < k
                        < start + self.cols {
                        old(self).cells@[k - 1]
                    } else {
                        old(self).cells@[k]
                    }),
            decreases i,
        {
            let moved = self.cells[start + i - 1];
            self.cells.set(start + i, moved);
            i = i - 1;
        }
        self.cells.set(start + col, cell);
        proof {
            assert forall|c: int| 0 <= c < self.cols implies self.cells@[start + c]
                == #[trigger] line[c] by {
                if c > col {
                    assert(before[c - 1] == old(self).cells@[start + c - 1]);
                } else if c < col {
                    assert(before[c] == old(self).cells@[start + c]);
                }
            }
            self.lemma_one_line_changed(old(self), row as int, line);
        }
    }

    /// Removes a cell from a line; the cells right of it move left and the last
    /// column becomes blank. A position outside the grid changes nothing.
    pub fn remove_cell_from_row(&mut self, row: usize, col: usize)
        requires
            old(self).wf(),
        ensures
            final(self).wf(),
            final(self)@ == (if row < old(self)@.lines.len() && col < old(self)@.cols {
                old(self)@.with_line(
                    row as int,
                    GridModel::removed_in_line(old(self)@.lines[row as int], col as int),
                )
            } else {
                old(self)@
            }),
    {
        if row >= self.rows || col >= self.cols {
            return;
        }
        let ghost before = self@.lines[row as int];
        let ghost line = GridModel::removed_in_line(before, col as int);
        proof {
            lemma_row_span(row as int, self.rows as int, self.cols as int);
            TerminalGrid::view_is_wf(&*self);
        }
        let start: usize = row * self.cols;
        let mut i: usize = col;
        while i < self.cols - 1
            invariant
                col <= i < self.cols,
                start == row * self.cols,
                start + self.cols <= self.cells@.len(),
                self.wf(),
                self.rows == old(self).rows,
                self.cols == old(self).cols,
                self.row_wrapped@ == old(self).row_wrapped@,
                self.cells@.len() == old(self).cells@.len(),
                forall|k: int|
                    0 <= k < self.cells@.len() ==> #[trigger] self.cells@[k] == (if start + col
                        <= k < start + i {
                        old(self).cells@[k + 1]
                    } else {
                        old(self).cells@[k]
                    }),
            decreases self.cols - i,
        {
            let moved = self.cells[start + i + 1];
            self.cells.set(start + i, moved);
            i = i + 1;
        }
        let blank = TerminalCell::default();
        self.cells.set(start + self.cols - 1, blank);
        proof {
            assert forall|c: int| 0 <= c < self.cols implies self.cells@[start + c]
                == #[trigger] line[c] by {
                if c < col {
                    assert(before[c] == old(self).cells@[start + c]);
                } else if c < self.cols - 1 {
                    assert(before[c + 1] == old(self).cells@[start + c + 1]);
                }
            }
            self.lemma_one_line_changed(old(self), row as int, line);
        }
    }

    /// Moves lines `top + 1 ..= bottom` up by one and blanks line `bottom`; the
    /// wrap marks stay where they are.
    pub(crate) fn move_lines_up(&mut self, top: usize, bottom: usize)
        requires
            old(self).wf(),
            top <= bottom < old(self)@.lines.len(),
        ensures
            final(self).wf(),
            final(self)@ == old(self)@.lines_up(top as int, bottom as int),
    {
        proof {
            lemma_row_span(top as int, self.rows as int, self.cols as int);
            lemma_row_span(bottom as int, self.rows as int, self.cols as int);
            if top < bottom {
                lemma_rows_apart(top as int, bottom as int, self.cols as int);
            }
        }
        let cols: usize = self.cols;
        let from: usize = top * cols;
        let to: usize = bottom * cols;
        let mut i: usize = from;
        while i < to
            invariant
                from <= i <= to,
                cols == self.cols,
                to + cols <= self.cells@.len(),
                self.wf(),
                self.rows == old(self).rows,
                self.cols == old(self).cols,
                self.row_wrapped@ == old(self).row_wrapped@,
                self.cells@.len() == old(self).cells@.len(),
                forall|k: int|
                    0 <= k < self.cells@.len() ==> #[trigger] self.cells@[k] == (if from <= k < i {
                        old(self).cells@[k + cols]
                    } else {
                        old(self).cells@[k]
                    }),
            decreases to - i,
        {
            let moved = self.cells[i + cols];
            self.cells.set(i, moved);
            i = i + 1;
        }
        let ghost shifted = self.cells@;
        let blank = TerminalCell::default();
        let mut j: usize = 0;
        while j < cols
            invariant
                j <= cols,
                cols == self.cols,
                to + cols <= self.cells@.len(),
                self.wf(),
                blank == TerminalCell::blank(),
                self.rows == old(self).rows,
                self.cols == old(self).cols,
                self.row_wrapped@ == old(self).row_wrapped@,
                self.cells@.len() == shifted.len(),
                forall|k: int|
                    0 <= k < self.cells@.len() ==> #[trigger] self.cells@[k] == (if to <= k < to
                        + j {
                        blank
                    } else {
                        shifted[k]
                    }),
            decreases cols - j,
        {
            self.cells.set(to + j, blank);
            j = j + 1;
        }
        proof {
            let rows = self.rows as int;
            let n = self.cols as int;
            let want = old(self)@.lines_up(top as int, bottom as int);
            assert forall|r: int| 0 <= r < rows implies #[trigger] self@.lines[r] =~= want.lines[r] by {
                lemma_row_span(r, rows, n);
                if r < top {
                    lemma_rows_apart(r, top as int, n);
                } else if r < bottom {
                    lemma_row_span(r + 1, rows, n);
                    lemma_rows_apart(r, bottom as int, n);
                    if top < r {
                        lemma_rows_apart(top as int, r, n);
                    }
                } else if r > bottom {
                    lemma_rows_apart(bottom as int, r, n);
                }
            }
            assert(self@.lines =~= want.lines);
        }
    }

    /// Moves lines `top .. bottom` down by one and blanks line `top`; the wrap
    /// marks stay where they are.
    pub(crate) fn move_lines_down(&mut self, top: usize, bottom: usize)
        requires
            old(self).wf(),
            top <= bottom < old(self)@.lines.len(),
        ensures
            final(self).wf(),
            final(self)@ == old(self)@.lines_down(top as int, bottom as int),
    {
        proof {
            lemma_row_span(top as int, self.rows as int, self.cols as int);
            lemma_row_span(bottom as int, self.rows as int, self.cols as int);
            if top < bottom {
                lemma_rows_apart(top as int, bottom as int, self.cols as int);
            }
        }
        let cols: usize = self.cols;
        let from: usize = top * cols;
        let to: usize = bottom * cols;
        let mut i: usize = to;
        while i > from
            invariant
                from <= i <= to,
                cols == self.cols,
                to + cols <= self.cells@.len(),
                self.wf(),
                self.rows == old(self).rows,
                self.cols == old(self).cols,
                self.row_wrapped@ == old(self).row_wrapped@,
                self.cells@.len() == old(self).cells@.len(),
                forall|k: int|
                    0 <= k < self.cells@.len() ==> #[trigger] self.cells@[k] == (if i + cols <= k
                        < to + cols {
                        old(self).cells@[k - cols]
                    } else {
                        old(self).cells@[k]
                    }),
            decreases i,
        {
            i = i - 1;
            let moved = self.cells[i];
            self.cells.set(i + cols, moved);
        }
        let ghost shifted = self.cells@;
        let blank = TerminalCell::default();
        let mut j: usize = 0;
        while j < cols
            invariant
                j <= cols,
                cols == self.cols,
                from <= to,
                to + cols <= self.cells@.len(),
                self.wf(),
                blank == TerminalCell::blank(),
                self.rows == old(self).rows,
                self.cols == old(self).cols,
                self.row_wrapped@ == old(self).row_wrapped@,
                self.cells@.len() == shifted.len(),
                forall|k: int|
                    0 <= k < self.cells@.len() ==> #[trigger] self.cells@[k] == (if from <= k < from
                        + j {
                        blank
                    } else {
                        shifted[k]
                    }),
            decreases cols - j,
        {
            self.cells.set(from + j, blank);
            j = j + 1;
        }
        proof {
            let rows = self.rows as int;
            let n = self.cols as int;
            let want = old(self)@.lines_down(top as int, bottom as int);
            assert forall|r: int| 0 <= r < rows implies #[trigger] self@.lines[r] =~= want.lines[r] by {
                lemma_row_span(r, rows, n);
                if r < top {
                    lemma_rows_apart(r, top as int, n);
                } else if r > bottom {
                    lemma_rows_apart(bottom as int, r, n);
                } else if r > top {
                    lemma_row_span(r - 1, rows, n);
                    lemma_rows_apart(top as int, r, n);
                    if r < bottom {
                        lemma_rows_apart(r, bottom as int, n);
                    }
                }
            }
            assert(self@.lines =~= want.lines);
        }
    }

    /// Moves the wrap marks of lines `top + 1 ..= bottom` up by one.
    pub(crate) fn move_marks_up(&mut self, top: usize, bottom: usize)
        requires
            old(self).wf(),
            top <= bottom < old(self)@.lines.len(),
        ensures
            final(self).wf(),
            final(self)@ == old(self)@.marks_up(top as int, bottom as int),
    {
        let mut i: usize = top;
        while i < bottom
            invariant
                top <= i <= bottom < self.rows,
                self.wf(),
                self.rows == old(self).rows,
                self.cols == old(self).cols,
                self.cells@ == old(self).cells@,
                forall|k: int|
                    0 <= k < self.rows ==> #[trigger] self.row_wrapped@[k] == (if top <= k < i {
                        old(self).row_wrapped@[k + 1]
                    } else {
                        old(self).row_wrapped@[k]
                    }),
            decreases bottom - i,
        {
            let mark = self.row_wrapped[i + 1];
            self.row_wrapped.set(i, mark);
            i = i + 1;
        }
        self.row_wrapped.set(bottom, false);
        proof {
            let want = old(self)@.marks_up(top as int, bottom as int);
            assert(self@.lines =~= want.lines);
            assert(self@.wrapped =~= want.wrapped);
        }
    }

    /// Moves the wrap marks of lines `top .. bottom` down by one.
    pub(crate) fn move_marks_down(&mut self, top: usize, bottom: usize)
        requires
            old(self).wf(),
            top <= bottom < old(self)@.lines.len(),
        ensures
            final(self).wf(),
            final(self)@ == old(self)@.marks_down(top as int, bottom as int),
    {
        let mut i: usize = bottom;
        while i > top
            invariant
                top <= i <= bottom < self.rows,
                self.wf(),
                self.rows == old(self).rows,
                self.cols == old(self).cols,
                self.cells@ == old(self).cells@,
                forall|k: int|
                    0 <= k < self.rows ==> #[trigger] self.row_wrapped@[k] == (if i < k <= bottom {
                        old(self).row_wrapped@[k - 1]
                    } else {
                        old(self).row_wrapped@[k]
                    }),
            decreases i,
        {
            let mark = self.row_wrapped[i - 1];
            self.row_wrapped.set(i, mark);
            i = i - 1;
        }
        self.row_wrapped.set(top, false);
        proof {
            let want = old(self)@.marks_down(top as int, bottom as int);
            assert(self@.lines =~= want.lines);
            assert(self@.wrapped =~= want.wrapped);
        }
    }

    /// Whether the text on line `row` continues on the next line.
    pub(crate) fn is_wrapped(&self, row: usize) -> (v: bool)
        requires
            self.wf(),
            row < self@.lines.len(),
        ensures
            v == self@.wrapped[row as int],
    {
        self.row_wrapped[row]
    }

    /// Marks whether the text on line `row` continues on the next line.
    pub(crate) fn set_wrapped(&mut self, row: usize, v: bool)
        requires
            old(self).wf(),
            row < old(self)@.lines.len(),
        ensures
            final(self).wf(),
            final(self)@ == (GridModel {
                wrapped: old(self)@.wrapped.update(row as int, v),
                ..old(self)@
            }),
    {
        self.row_wrapped.set(row, v);
        proof {
            assert(self@.lines =~= old(self)@.lines);
        }
    }

    /// A copy of the wrap marks.
    pub(crate) fn wrap_marks(&self) -> (marks: Vec<bool>)
        ensures
            marks@ == self@.wrapped,
    {
        let mut marks: Vec<bool> = Vec::new();
        let mut i: usize = 0;
        while i < self.row_wrapped.len()
            invariant
                i <= self.row_wrapped.len(),
                marks@ == self.row_wrapped@.subrange(0, i as int),
            decreases self.row_wrapped.len() - i,
        {
            marks.push(self.row_wrapped[i]);
            i = i + 1;
        }
        proof {
            assert(self.row_wrapped@.subrange(0, i as int) =~= self.row_wrapped@);
        }
        marks
    }

    /// Removes the first line and returns it with its wrap mark; the others move
    /// up and a blank line comes in at the bottom.
    pub fn remove_first_row(&mut self) -> (removed: (Vec<TerminalCell>, bool))
        requires
            old(self).wf(),
            old(self)@.lines.len() > 0,
        ensures
            final(self).wf(),
            removed.0@ == old(self)@.lines[0],
            removed.1 == old(self)@.wrapped[0],
            final(self)@ == old(self)@.scrolled_up(0, old(self)@.lines.len() - 1),
    {
        let removed = self.get_row(0);
        let was_wrapped = self.is_wrapped(0);
        self.shift_rows_up();
        (removed, was_wrapped)
    }

    /// Moves all lines up by one: the first is lost, the last becomes blank.
    pub fn shift_rows_up(&mut self)
        requires
            old(self).wf(),
            old(self)@.lines.len() > 0,
        ensures
            final(self).wf(),
            final(self)@ == old(self)@.scrolled_up(0, old(self)@.lines.len() - 1),
    {
        let last: usize = self.rows - 1;
        self.move_lines_up(0, last);
        self.move_marks_up(0, last);
    }

    /// Fills the last line with `cell`.
    pub fn fill_last_row(&mut self, cell: TerminalCell)
        requires
            old(self).wf(),
            old(self)@.lines.len() > 0,
        ensures
            final(self).wf(),
            final(self)@ == old(self)@.with_line(
                old(self)@.lines.len() - 1,
                line_of(cell, old(self)@.cols),
            ),
    {
        let last: usize = self.rows - 1;
        let cols: usize = self.cols;
        self.fill_cells(last, 0, cols, cell);
        proof {
            assert(self@.lines[last as int] =~= line_of(cell, old(self)@.cols));
            assert(self@.lines =~= old(self)@.with_line(
                last as int,
                line_of(cell, old(self)@.cols),
            ).lines);
        }
    }

    /// Fills the whole grid with `cell`; the wrap marks stay.
    pub(crate) fn fill(&mut self, cell: TerminalCell)
        requires
            old(self).wf(),
        ensures
            final(self).wf(),
            final(self)@ == old(self)@.filled(cell),
    {
        let n: usize = self.cells.len();
        let mut i: usize = 0;
        while i < n
            invariant
                i <= n,
                n == self.cells@.len(),
                self.wf(),
                self.rows == old(self).rows,
                self.cols == old(self).cols,
                self.row_wrapped@ == old(self).row_wrapped@,
                forall|k: int| 0 <= k < i ==> #[trigger] self.cells@[k] == cell,
            decreases n - i,
        {
            self.cells.set(i, cell);
            i = i + 1;
        }
        proof {
            let want = old(self)@.filled(cell);
            assert forall|r: int| 0 <= r < self.rows implies #[trigger] self@.lines[r]
                =~= want.lines[r] by {
                lemma_row_span(r, self.rows as int, self.cols as int);
            }
            assert(self@.lines =~= want.lines);
        }
    }

    /// Moves all lines up by `n`, with their wrap marks.
    pub(crate) fn raise(&mut self, n: usize)
        requires
            old(self).wf(),
            n <= old(self)@.lines.len(),
        ensures
            final(self).wf(),
            final(self)@ == old(self)@.raised(n as int),
    {
        let ghost before = self@;
        let ghost want = self@.raised(n as int);
        proof {
            TerminalGrid::view_is_wf(&*self);
        }
        let rows: usize = self.rows();
        let mut r: usize = 0;
        while r < rows - n
            invariant
                self.wf(),
                n <= rows == before.lines.len(),
                r <= rows - n,
                before.wf(),
                want == before.raised(n as int),
                self@.cols == before.cols,
                self@.lines.len() == before.lines.len(),
                self@.wrapped.len() == before.wrapped.len(),
                forall|k: int|
                    0 <= k < rows ==> #[trigger] self@.lines[k] == (if k < r {
                        want.lines[k]
                    } else {
                        before.lines[k]
                    }),
                forall|k: int|
                    0 <= k < rows ==> #[trigger] self@.wrapped[k] == (if k < r {
                        want.wrapped[k]
                    } else {
                        before.wrapped[k]
                    }),
            decreases rows - r,
        {
            let line = self.get_row(r + n);
            let mark = self.is_wrapped(r + n);
            let ghost now = self@;
            proof {
                TerminalGrid::view_is_wf(&*self);
                assert(line@ == before.lines[r + n]);
            }
            self.set_row(r, line);
            proof {
                assert(self@.lines[r as int] =~= line@);
                TerminalGrid::view_is_wf(&*self);
            }
            self.set_wrapped(r, mark);
            r = r + 1;
        }
        proof {
            TerminalGrid::view_is_wf(&*self);
            assert(self@.lines =~= want.lines);
            assert(self@.wrapped =~= want.wrapped);
        }
    }

    /// Changes the size of the grid. What lies in the old and the new rectangle
    /// is kept; new cells are `default_cell`.
    pub fn resize(&mut self, new_rows: usize, new_cols: usize, default_cell: TerminalCell)
        requires
            old(self).wf(),
            new_rows * new_cols <= usize::MAX,
        ensures
            final(self).wf(),
            final(self)@ == old(self)@.resized(new_rows as nat, new_cols as nat, default_cell),
    {
        let ghost before = self@;
        let ghost want = self@.resized(new_rows as nat, new_cols as nat, default_cell);
        proof {
            TerminalGrid::view_is_wf(&*self);
        }
        let copy_rows: usize = if self.rows < new_rows {
            self.rows
        } else {
            new_rows
        };
        let copy_cols: usize = if self.cols < new_cols {
            self.cols
        } else {
            new_cols
        };
        let mut fresh = TerminalGrid {
            cells: vec![default_cell; new_rows * new_cols],
            rows: new_rows,
            cols: new_cols,
            row_wrapped: vec![false; new_rows],
        };
        proof {
            assert forall|r: int| 0 <= r < new_rows implies #[trigger] fresh@.lines[r] =~= line_of(
                default_cell,
                new_cols as nat,
            ) by {
                lemma_row_span(r, new_rows as int, new_cols as int);
            }
        }
        let mut r: usize = 0;
        while r < copy_rows
            invariant
                r <= copy_rows <= new_rows,
                copy_rows <= self.rows,
                copy_cols <= new_cols,
                copy_cols <= self.cols,
                copy_cols == new_cols || copy_cols == self.cols,
                self.wf(),
                *self == *old(self),
                before == self@,
                before.wf(),
                want == before.resized(new_rows as nat, new_cols as nat, default_cell),
                fresh.wf(),
                fresh.rows == new_rows,
                fresh.cols == new_cols,
                forall|k: int| 0 <= k < r ==> #[trigger] fresh@.lines[k] == want.lines[k],
                forall|k: int|
                    r <= k < new_rows ==> #[trigger] fresh@.lines[k] == line_of(
                        default_cell,
                        new_cols as nat,
                    ),
                forall|k: int| 0 <= k < r ==> #[trigger] fresh@.wrapped[k] == want.wrapped[k],
                forall|k: int| r <= k < new_rows ==> #[trigger] fresh@.wrapped[k] == false,
            decreases copy_rows - r,
        {
            let ghost fresh_before = fresh@;
            let src = self.row(r);
            fresh.write_cells(r, 0, src, copy_cols);
            let mark = self.is_wrapped(r);
            fresh.set_wrapped(r, mark);
            proof {
                assert(fresh@.lines[r as int] =~= want.lines[r as int]);
                assert forall|k: int| 0 <= k < new_rows && k != r implies #[trigger] fresh@.lines[k]
                    == fresh_before.lines[k] by {}
            }
            r = r + 1;
        }
        proof {
            assert forall|k: int| copy_rows <= k < new_rows implies #[trigger] fresh@.lines[k]
                == want.lines[k] by {
                assert(fresh@.lines[k] =~= want.lines[k]);
            }
            assert(fresh@.lines =~= want.lines);
            assert(fresh@.wrapped =~= want.wrapped);
        }
        *self = fresh;
    }
}

/// A copy of a run of cells.
pub(crate) fn copy_cells(cells: &[TerminalCell]) -> (copy: Vec<TerminalCell>)
    ensures
        copy@ == cells@,
{
    let mut copy: Vec<TerminalCell> = Vec::new();
    let mut i: usize = 0;
    while i < cells.len()
        invariant
            i <= cells@.len(),
            copy@ == cells@.subrange(0, i as int),
        decreases cells@.len() - i,
    {
        copy.push(cells[i]);
        i = i + 1;
    }
    proof {
        assert(cells@.subrange(0, i as int) =~= cells@);
    }
    copy
}

impl std::ops::Index<usize> for TerminalGrid {
    type Output = [TerminalCell];

    /// Line `row`, in place.
    fn index(&self, row: usize) -> (line: &[TerminalCell])
        ensures
            line@ == self@.lines[row as int],
    {
        self.row(row)
    }
}

impl vstd::std_specs::core::IndexSpecImpl<usize> for TerminalGrid {
    open spec fn index_req(&self, row: &usize) -> bool {
        self.wf() && *row < self@.lines.len()
    }
}

} // verus!
