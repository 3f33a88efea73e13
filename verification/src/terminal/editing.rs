//! What control sequences erase, insert, delete and scroll, cell by cell.

use super::model::{erase_cell, erase_span, TerminalModel};
use super::moves::steps;
use super::sequences::{is_ready, lemma_sequence, plain_sequence, sent};
use crate::cell::{Color, StyleFlags, TerminalCell};
use crate::grid::{line_of, GridModel};
use vstd::prelude::*;

verus! {

/// What an erased cell is: a space in the default colour, without attributes, on the
/// background of the moment.
pub open spec fn erased(m: TerminalModel) -> TerminalCell {
    TerminalCell {
        character: ' ',
        foreground: Color::Default,
        background: m.current_bg,
        flags: StyleFlags::none(),
    }
}

/// What a cell of a line that comes in is: a space in the default colours.
pub open spec fn fresh() -> TerminalCell {
    TerminalCell {
        character: ' ',
        foreground: Color::Default,
        background: Color::Default,
        flags: StyleFlags::none(),
    }
}

/// The cell at a line and a column.
pub open spec fn at(m: TerminalModel, row: int, col: int) -> TerminalCell {
    m.grid.lines[row][col]
}

/// Whether a cell beside an erased part of its line is as it was, or was the other half of a
/// wide character that lost one half, and is erased with it.
pub open spec fn kept_or_half(
    m: TerminalModel,
    r: TerminalModel,
    row: int,
    col: int,
    from: int,
    to: int,
) -> bool {
    let left = col == from - 1 && at(m, row, from).flags@.wide_continuation;
    let right = col == to && at(m, row, to - 1).flags@.wide;
    at(r, row, col) == at(m, row, col) || from < to && (left || right) && at(r, row, col) == erased(m)
}

/// Whether nothing changed but the lines of the screen, and what is noted for drawing.
pub open spec fn only_lines_changed(m: TerminalModel, r: TerminalModel) -> bool {
    &&& r == (TerminalModel { grid: r.grid, dirty: r.dirty, row_versions: r.row_versions, ..m })
    &&& r.grid == (GridModel { lines: r.grid.lines, ..m.grid })
    &&& r.rows() == m.rows()
}

proof fn lemma_span(line: Seq<TerminalCell>, from: int, to: int, blank: TerminalCell)
    requires
        0 <= from,
        to <= line.len(),
        !blank.flags@.wide,
    ensures
        ({
            let r = erase_span(line, from, to, blank);
            &&& r.len() == line.len()
            &&& forall|c: int| from <= c < to ==> #[trigger] r[c] == blank
            &&& forall|c: int|
                0 <= c < line.len() && (c + 1 < from || c > to || from >= to) ==> #[trigger] r[c]
                    == line[c]
            &&& from > 0 && from < to ==> r[from - 1] == line[from - 1] || r[from - 1] == blank
                && line[from].flags@.wide_continuation
            &&& from < to < line.len() ==> r[to] == line[to] || r[to] == blank && line[to
                - 1].flags@.wide
        }),
    decreases to - from,
{
    if from < to {
        let next = erase_cell(line, from, blank);
        lemma_span(next, from + 1, to, blank);
    }
}

/// A line that is erased from one column to another, in the cursor's row.
pub open spec fn row_erased(m: TerminalModel, r: TerminalModel, from: int, to: int) -> bool {
    let row = m.cursor_row;
    &&& forall|c: int| from <= c < to ==> #[trigger] at(r, row, c) == erased(m)
    &&& forall|c: int|
        0 <= c < m.cols() && !(from <= c < to) ==> #[trigger] kept_or_half(m, r, row, c, from, to)
}

proof fn lemma_row_erased(m: TerminalModel, r: TerminalModel, from: int, to: int)
    requires
        m.wf(),
        0 <= from,
        to <= m.cols(),
        r.grid.lines[m.cursor_row] == erase_span(
            m.grid.lines[m.cursor_row],
            from,
            to,
            m.blank(),
        ),
    ensures
        row_erased(m, r, from, to),
{
    StyleFlags::none_is_plain();
    let line = m.grid.lines[m.cursor_row];
    assert(line.len() == m.cols());
    lemma_span(line, from, to, m.blank());
    let after = r.grid.lines[m.cursor_row];
    assert forall|c: int| from <= c < to implies #[trigger] at(r, m.cursor_row, c) == erased(m) by {
        assert(after[c] == m.blank());
    }
    assert forall|c: int| 0 <= c < m.cols() && !(from <= c < to) implies #[trigger] kept_or_half(
        m,
        r,
        m.cursor_row,
        c,
        from,
        to,
    ) by {
        if c + 1 < from || c > to || from >= to {
            assert(after[c] == line[c]);
        }
    }
}

/// `CSI J`, also `CSI 0 J`, erases from the cursor to the end of the screen: the rest of its
/// line and all lines below, and nothing before it.
pub proof fn erasing_below_starts_at_the_cursor(m: TerminalModel)
    requires
        m.wf(),
        is_ready(m),
    ensures
        ({
            let r = sent(m, plain_sequence(seq![0], 0x4a));
            &&& sent(m, plain_sequence(Seq::empty(), 0x4a)) == r
            &&& only_lines_changed(m, r)
            &&& forall|row: int|
                0 <= row < m.cursor_row ==> #[trigger] r.grid.lines[row] == m.grid.lines[row]
            &&& row_erased(m, r, m.cursor_col, m.cols())
            &&& forall|row: int, c: int|
                m.cursor_row < row < m.rows() && 0 <= c < m.cols() ==> #[trigger] at(r, row, c)
                    == erased(m)
        }),
{
    lemma_sequence(m, None, seq![0], Seq::empty(), 0x4a);
    lemma_sequence(m, None, Seq::empty(), Seq::empty(), 0x4a);
    reveal(TerminalModel::csi);
    reveal(TerminalModel::csi_erase_display);
    reveal(TerminalModel::erased_below);
    let r = sent(m, plain_sequence(seq![0], 0x4a));
    lemma_row_erased(m, r, m.cursor_col, m.cols());
}

/// `CSI 1 J` erases from the start of the screen up to the cursor: all lines above, and its
/// line up to and with its column. (A cursor behind the last column is not meant.)
pub proof fn erasing_above_ends_at_the_cursor(m: TerminalModel)
    requires
        m.wf(),
        is_ready(m),
        m.cursor_col < m.cols(),
    ensures
        ({
            let r = sent(m, plain_sequence(seq![1], 0x4a));
            &&& only_lines_changed(m, r)
            &&& forall|row: int, c: int|
                0 <= row < m.cursor_row && 0 <= c < m.cols() ==> #[trigger] at(r, row, c)
                    == erased(m)
            &&& row_erased(m, r, 0, m.cursor_col + 1)
            &&& forall|row: int|
                m.cursor_row < row < m.rows() ==> #[trigger] r.grid.lines[row] == m.grid.lines[row]
        }),
{
    lemma_sequence(m, None, seq![1], Seq::empty(), 0x4a);
    reveal(TerminalModel::csi);
    reveal(TerminalModel::csi_erase_display);
    reveal(TerminalModel::erased_above);
    let r = sent(m, plain_sequence(seq![1], 0x4a));
    lemma_row_erased(m, r, 0, m.cursor_col + 1);
}

/// `CSI 2 J` erases the whole screen and leaves the cursor and the scrollback; `CSI 3 J`
/// erases the scrollback and leaves the screen.
pub proof fn erasing_the_screen_or_the_scrollback(m: TerminalModel)
    requires
        m.wf(),
        is_ready(m),
    ensures
        ({
            let screen = sent(m, plain_sequence(seq![2], 0x4a));
            &&& only_lines_changed(m, screen)
            &&& forall|row: int, c: int|
                0 <= row < m.rows() && 0 <= c < m.cols() ==> #[trigger] at(screen, row, c) == erased(
                    m,
                )
        }),
        ({
            let past = sent(m, plain_sequence(seq![3], 0x4a));
            &&& past.scrollback.len() == 0
            &&& past.scroll_offset == 0
            &&& past == (TerminalModel { scrollback: past.scrollback, scroll_offset: 0, ..m })
        }),
{
    lemma_sequence(m, None, seq![2], Seq::empty(), 0x4a);
    lemma_sequence(m, None, seq![3], Seq::empty(), 0x4a);
    reveal(TerminalModel::csi);
    reveal(TerminalModel::csi_erase_display);
    reveal(TerminalModel::erased_screen);
}

/// `CSI K`, also `CSI 0 K`, erases the line from the cursor on, `CSI 1 K` up to and with the
/// cursor, `CSI 2 K` all of it; no other line changes. (For the second a cursor behind the
/// last column is not meant.)
pub proof fn erasing_in_the_line(m: TerminalModel)
    requires
        m.wf(),
        is_ready(m),
    ensures
        ({
            let r = sent(m, plain_sequence(seq![0], 0x4b));
            &&& sent(m, plain_sequence(Seq::empty(), 0x4b)) == r
            &&& only_lines_changed(m, r)
            &&& row_erased(m, r, m.cursor_col, m.cols())
            &&& forall|row: int|
                0 <= row < m.rows() && row != m.cursor_row ==> #[trigger] r.grid.lines[row]
                    == m.grid.lines[row]
        }),
        m.cursor_col < m.cols() ==> ({
            let r = sent(m, plain_sequence(seq![1], 0x4b));
            &&& only_lines_changed(m, r)
            &&& row_erased(m, r, 0, m.cursor_col + 1)
            &&& forall|row: int|
                0 <= row < m.rows() && row != m.cursor_row ==> #[trigger] r.grid.lines[row]
                    == m.grid.lines[row]
        }),
        ({
            let r = sent(m, plain_sequence(seq![2], 0x4b));
            &&& only_lines_changed(m, r)
            &&& row_erased(m, r, 0, m.cols())
            &&& forall|row: int|
                0 <= row < m.rows() && row != m.cursor_row ==> #[trigger] r.grid.lines[row]
                    == m.grid.lines[row]
        }),
{
    lemma_sequence(m, None, seq![0], Seq::empty(), 0x4b);
    lemma_sequence(m, None, Seq::empty(), Seq::empty(), 0x4b);
    lemma_sequence(m, None, seq![1], Seq::empty(), 0x4b);
    lemma_sequence(m, None, seq![2], Seq::empty(), 0x4b);
    reveal(TerminalModel::csi);
    reveal(TerminalModel::csi_erase_line);
    reveal(TerminalModel::erased_in_line);
    reveal(TerminalModel::erased_up_to_cursor);
    reveal(TerminalModel::erased_line);
    lemma_row_erased(m, sent(m, plain_sequence(seq![0], 0x4b)), m.cursor_col, m.cols());
    if m.cursor_col < m.cols() {
        lemma_row_erased(m, sent(m, plain_sequence(seq![1], 0x4b)), 0, m.cursor_col + 1);
    }
}

/// `CSI n X` erases `n` cells from the cursor on, no further than the end of the line, and
/// moves nothing.
pub proof fn erasing_characters(m: TerminalModel, n: u16)
    requires
        m.wf(),
        is_ready(m),
        m.cursor_col < m.cols(),
    ensures
        ({
            let r = sent(m, plain_sequence(seq![n], 0x58));
            let end = if m.cursor_col + steps(n) < m.cols() {
                m.cursor_col + steps(n)
            } else {
                m.cols()
            };
            &&& only_lines_changed(m, r)
            &&& row_erased(m, r, m.cursor_col, end)
            &&& forall|row: int|
                0 <= row < m.rows() && row != m.cursor_row ==> #[trigger] r.grid.lines[row]
                    == m.grid.lines[row]
        }),
{
    lemma_sequence(m, None, seq![n], Seq::empty(), 0x58);
    reveal(TerminalModel::csi);
    reveal(TerminalModel::chars_erased);
    let r = sent(m, plain_sequence(seq![n], 0x58));
    let end = if m.cursor_col + steps(n) < m.cols() {
        m.cursor_col + steps(n)
    } else {
        m.cols()
    };
    lemma_row_erased(m, r, m.cursor_col, end);
}

proof fn lemma_deleted(line: Seq<TerminalCell>, col: int, n: nat, blank: TerminalCell)
    requires
        0 <= col < line.len(),
    ensures
        ({
            let r = TerminalModel::line_with_deleted(line, col, n, blank);
            &&& r.len() == line.len()
            &&& forall|c: int| 0 <= c < col ==> #[trigger] r[c] == line[c]
            &&& forall|c: int|
                col <= c < line.len() ==> #[trigger] r[c] == (if c + n < line.len() {
                    line[c + n]
                } else {
                    blank
                })
        }),
    decreases n,
{
    if n > 0 {
        lemma_deleted(line, col, (n - 1) as nat, blank);
        let before = TerminalModel::line_with_deleted(line, col, (n - 1) as nat, blank);
        let r = TerminalModel::line_with_deleted(line, col, n, blank);
        let removed = GridModel::removed_in_line(before, col);
        assert(removed.len() == line.len());
        assert forall|c: int| col <= c < line.len() implies #[trigger] r[c] == (if c + n
            < line.len() {
            line[c + n]
        } else {
            blank
        }) by {
            if c + 1 < line.len() {
                assert(removed[c] == before[c + 1]);
            }
        }
        assert forall|c: int| 0 <= c < col implies #[trigger] r[c] == line[c] by {
            assert(removed[c] == before[c]);
        }
    }
}

proof fn lemma_inserted(line: Seq<TerminalCell>, col: int, n: nat, blank: TerminalCell)
    requires
        0 <= col < line.len(),
    ensures
        ({
            let r = TerminalModel::line_with_inserted(line, col, n, blank);
            &&& r.len() == line.len()
            &&& forall|c: int| 0 <= c < col ==> #[trigger] r[c] == line[c]
            &&& forall|c: int|
                col <= c < line.len() ==> #[trigger] r[c] == (if c < col + n {
                    blank
                } else {
                    line[c - n]
                })
        }),
    decreases n,
{
    if n > 0 {
        lemma_inserted(line, col, (n - 1) as nat, blank);
        let before = TerminalModel::line_with_inserted(line, col, (n - 1) as nat, blank);
        let r = TerminalModel::line_with_inserted(line, col, n, blank);
        assert forall|c: int| col <= c < line.len() implies #[trigger] r[c] == (if c < col + n {
            blank
        } else {
            line[c - n]
        }) by {
            if c > col {
                assert(r[c] == before[c - 1]);
            }
        }
        assert forall|c: int| 0 <= c < col implies #[trigger] r[c] == line[c] by {
            assert(r[c] == before[c]);
        }
    }
}

/// `CSI n P` takes out `n` cells at the cursor: those behind move left by as many, and
/// erased cells come in at the end. `CSI n @` puts in `n` erased cells: those behind move
/// right, and what goes over the edge is lost. No other line changes.
pub proof fn characters_move_within_the_line(m: TerminalModel, n: u16)
    requires
        m.wf(),
        is_ready(m),
        m.cursor_col < m.cols(),
    ensures
        ({
            let r = sent(m, plain_sequence(seq![n], 0x50));
            &&& only_lines_changed(m, r)
            &&& forall|row: int|
                0 <= row < m.rows() && row != m.cursor_row ==> #[trigger] r.grid.lines[row]
                    == m.grid.lines[row]
            &&& forall|c: int|
                0 <= c < m.cols() ==> #[trigger] at(r, m.cursor_row, c) == (if c < m.cursor_col {
                    at(m, m.cursor_row, c)
                } else if c + steps(n) < m.cols() {
                    at(m, m.cursor_row, c + steps(n))
                } else {
                    erased(m)
                })
        }),
        ({
            let r = sent(m, plain_sequence(seq![n], 0x40));
            &&& only_lines_changed(m, r)
            &&& forall|row: int|
                0 <= row < m.rows() && row != m.cursor_row ==> #[trigger] r.grid.lines[row]
                    == m.grid.lines[row]
            &&& forall|c: int|
                0 <= c < m.cols() ==> #[trigger] at(r, m.cursor_row, c) == (if c < m.cursor_col {
                    at(m, m.cursor_row, c)
                } else if c < m.cursor_col + steps(n) {
                    erased(m)
                } else {
                    at(m, m.cursor_row, c - steps(n))
                })
        }),
{
    lemma_sequence(m, None, seq![n], Seq::empty(), 0x50);
    lemma_sequence(m, None, seq![n], Seq::empty(), 0x40);
    reveal(TerminalModel::csi);
    reveal(TerminalModel::chars_deleted);
    reveal(TerminalModel::chars_inserted);
    let line = m.grid.lines[m.cursor_row];
    assert(line.len() == m.cols());
    lemma_deleted(line, m.cursor_col, steps(n) as nat, m.blank());
    lemma_inserted(line, m.cursor_col, steps(n) as nat, m.blank());
    let gone = TerminalModel::line_with_deleted(line, m.cursor_col, steps(n) as nat, m.blank());
    let come = TerminalModel::line_with_inserted(line, m.cursor_col, steps(n) as nat, m.blank());
    let p = sent(m, plain_sequence(seq![n], 0x50));
    let q = sent(m, plain_sequence(seq![n], 0x40));
    assert(p.grid.lines[m.cursor_row] == gone);
    assert(q.grid.lines[m.cursor_row] == come);
    assert forall|c: int| 0 <= c < m.cols() implies #[trigger] at(p, m.cursor_row, c) == (if c
        < m.cursor_col {
        at(m, m.cursor_row, c)
    } else if c + steps(n) < m.cols() {
        at(m, m.cursor_row, c + steps(n))
    } else {
        erased(m)
    }) by {
        assert(at(p, m.cursor_row, c) == gone[c]);
    }
    assert forall|c: int| 0 <= c < m.cols() implies #[trigger] at(q, m.cursor_row, c) == (if c
        < m.cursor_col {
        at(m, m.cursor_row, c)
    } else if c < m.cursor_col + steps(n) {
        erased(m)
    } else {
        at(m, m.cursor_row, c - steps(n))
    }) by {
        assert(at(q, m.cursor_row, c) == come[c]);
    }
}

/// Lines that moved up by `n` within `top ..= bottom`: blank ones came in at the bottom.
pub open spec fn lines_moved_up(
    before: Seq<Seq<TerminalCell>>,
    after: Seq<Seq<TerminalCell>>,
    cols: nat,
    top: int,
    bottom: int,
    n: int,
) -> bool {
    &&& after.len() == before.len()
    &&& forall|r: int|
        0 <= r < before.len() ==> #[trigger] after[r] == (if top <= r && r + n <= bottom {
            before[r + n]
        } else if top <= r <= bottom {
            line_of(fresh(), cols)
        } else {
            before[r]
        })
}

/// Lines that moved down by `n` within `top ..= bottom`: blank ones came in at the top.
pub open spec fn lines_moved_down(
    before: Seq<Seq<TerminalCell>>,
    after: Seq<Seq<TerminalCell>>,
    cols: nat,
    top: int,
    bottom: int,
    n: int,
) -> bool {
    &&& after.len() == before.len()
    &&& forall|r: int|
        0 <= r < before.len() ==> #[trigger] after[r] == (if r <= bottom && top + n <= r {
            before[r - n]
        } else if top <= r <= bottom {
            line_of(fresh(), cols)
        } else {
            before[r]
        })
}

proof fn lemma_lines_up(grid: GridModel, top: int, bottom: int, n: nat)
    requires
        0 <= top <= bottom < grid.lines.len(),
    ensures
        ({
            let r = TerminalModel::grid_lines_up(grid, top, bottom, n);
            &&& r == (GridModel { lines: r.lines, ..grid })
            &&& lines_moved_up(grid.lines, r.lines, grid.cols, top, bottom, n as int)
        }),
    decreases n,
{
    if n > 0 {
        lemma_lines_up(grid, top, bottom, (n - 1) as nat);
        let before = TerminalModel::grid_lines_up(grid, top, bottom, (n - 1) as nat);
        let r = TerminalModel::grid_lines_up(grid, top, bottom, n);
        assert forall|row: int| 0 <= row < grid.lines.len() implies #[trigger] r.lines[row] == (
        if top <= row && row + n <= bottom {
            grid.lines[row + n]
        } else if top <= row <= bottom {
            line_of(fresh(), grid.cols)
        } else {
            grid.lines[row]
        }) by {
            if top <= row < bottom {
                assert(r.lines[row] == before.lines[row + 1]);
            }
        }
    }
}

proof fn lemma_lines_down(grid: GridModel, top: int, bottom: int, n: nat)
    requires
        0 <= top <= bottom < grid.lines.len(),
    ensures
        ({
            let r = TerminalModel::grid_lines_down(grid, top, bottom, n);
            &&& r == (GridModel { lines: r.lines, ..grid })
            &&& lines_moved_down(grid.lines, r.lines, grid.cols, top, bottom, n as int)
        }),
    decreases n,
{
    if n > 0 {
        lemma_lines_down(grid, top, bottom, (n - 1) as nat);
        let before = TerminalModel::grid_lines_down(grid, top, bottom, (n - 1) as nat);
        let r = TerminalModel::grid_lines_down(grid, top, bottom, n);
        assert forall|row: int| 0 <= row < grid.lines.len() implies #[trigger] r.lines[row] == (
        if row <= bottom && top + n <= row {
            grid.lines[row - n]
        } else if top <= row <= bottom {
            line_of(fresh(), grid.cols)
        } else {
            grid.lines[row]
        }) by {
            if top < row <= bottom {
                assert(r.lines[row] == before.lines[row - 1]);
            }
        }
    }
}

/// `CSI n M` takes out `n` lines at the cursor: those below, down to the bottom of the
/// scroll region, move up by as many and blank ones come in there. `CSI n L` puts in `n`
/// blank lines: those from the cursor on move down and what goes over the region's bottom is
/// lost. Outside the region neither does anything to the screen.
pub proof fn lines_move_within_the_region(m: TerminalModel, n: u16)
    requires
        m.wf(),
        is_ready(m),
    ensures
        ({
            let gone = sent(m, plain_sequence(seq![n], 0x4d));
            let come = sent(m, plain_sequence(seq![n], 0x4c));
            let inside = m.scroll_region_top <= m.cursor_row <= m.scroll_region_bottom;
            &&& only_lines_changed(m, gone)
            &&& only_lines_changed(m, come)
            &&& inside ==> lines_moved_up(
                m.grid.lines,
                gone.grid.lines,
                m.grid.cols,
                m.cursor_row,
                m.scroll_region_bottom,
                steps(n),
            )
            &&& inside ==> lines_moved_down(
                m.grid.lines,
                come.grid.lines,
                m.grid.cols,
                m.cursor_row,
                m.scroll_region_bottom,
                steps(n),
            )
            &&& !inside ==> gone.grid == m.grid && come.grid == m.grid
        }),
{
    lemma_sequence(m, None, seq![n], Seq::empty(), 0x4d);
    lemma_sequence(m, None, seq![n], Seq::empty(), 0x4c);
    reveal(TerminalModel::csi);
    reveal(TerminalModel::lines_deleted);
    reveal(TerminalModel::lines_inserted);
    if m.scroll_region_top <= m.cursor_row <= m.scroll_region_bottom {
        lemma_lines_up(m.grid, m.cursor_row, m.scroll_region_bottom, steps(n) as nat);
        lemma_lines_down(m.grid, m.cursor_row, m.scroll_region_bottom, steps(n) as nat);
    }
}

proof fn lemma_region_up(m: TerminalModel, n: nat)
    requires
        m.wf(),
    ensures
        ({
            let r = m.region_up_times(n);
            &&& r.rows() == m.rows()
            &&& r.grid.cols == m.grid.cols
            &&& r.use_alt_buffer == m.use_alt_buffer
            &&& r.cursor_row == m.cursor_row
            &&& r.cursor_col == m.cursor_col
            &&& lines_moved_up(
                m.grid.lines,
                r.grid.lines,
                m.grid.cols,
                m.scroll_region_top,
                m.scroll_region_bottom,
                n as int,
            )
            &&& m.scroll_region_top > 0 || m.scroll_region_bottom < m.rows() - 1
                || m.use_alt_buffer ==> r.scrollback == m.scrollback
        }),
    decreases n,
{
    if n > 0 {
        lemma_region_up(m, (n - 1) as nat);
        let before = m.region_up_times((n - 1) as nat);
        let r = m.region_up_times(n);
        let top = m.scroll_region_top;
        let bottom = m.scroll_region_bottom;
        assert forall|row: int| 0 <= row < m.grid.lines.len() implies #[trigger] r.grid.lines[row]
            == (if top <= row && row + n <= bottom {
            m.grid.lines[row + n]
        } else if top <= row <= bottom {
            line_of(fresh(), m.grid.cols)
        } else {
            m.grid.lines[row]
        }) by {
            if top <= row < bottom {
                assert(r.grid.lines[row] == before.grid.lines[row + 1]);
            }
        }
    }
}

proof fn lemma_region_down(m: TerminalModel, n: nat)
    requires
        m.wf(),
    ensures
        ({
            let r = m.region_down_times(n);
            &&& r.rows() == m.rows()
            &&& r.grid.cols == m.grid.cols
            &&& r.cursor_row == m.cursor_row
            &&& r.cursor_col == m.cursor_col
            &&& r.scrollback == m.scrollback
            &&& lines_moved_down(
                m.grid.lines,
                r.grid.lines,
                m.grid.cols,
                m.scroll_region_top,
                m.scroll_region_bottom,
                n as int,
            )
        }),
    decreases n,
{
    if n > 0 {
        lemma_region_down(m, (n - 1) as nat);
        let before = m.region_down_times((n - 1) as nat);
        let r = m.region_down_times(n);
        let top = m.scroll_region_top;
        let bottom = m.scroll_region_bottom;
        assert forall|row: int| 0 <= row < m.grid.lines.len() implies #[trigger] r.grid.lines[row]
            == (if row <= bottom && top + n <= row {
            m.grid.lines[row - n]
        } else if top <= row <= bottom {
            line_of(fresh(), m.grid.cols)
        } else {
            m.grid.lines[row]
        }) by {
            if top < row <= bottom {
                assert(r.grid.lines[row] == before.grid.lines[row - 1]);
            }
        }
    }
}

/// `CSI n S` moves the lines of the scroll region up by `n` and `CSI n T` down: blank lines
/// come in, all other lines stay, and so does the cursor. The scrollback changes only where
/// the region is the whole main screen and lines move up.
pub proof fn the_region_scrolls_by_lines(m: TerminalModel, n: u16)
    requires
        m.wf(),
        is_ready(m),
    ensures
        ({
            let up = sent(m, plain_sequence(seq![n], 0x53));
            let down = sent(m, plain_sequence(seq![n], 0x54));
            let whole = m.scroll_region_top == 0 && m.scroll_region_bottom == m.rows() - 1
                && !m.use_alt_buffer;
            &&& lines_moved_up(
                m.grid.lines,
                up.grid.lines,
                m.grid.cols,
                m.scroll_region_top,
                m.scroll_region_bottom,
                steps(n),
            )
            &&& lines_moved_down(
                m.grid.lines,
                down.grid.lines,
                m.grid.cols,
                m.scroll_region_top,
                m.scroll_region_bottom,
                steps(n),
            )
            &&& up.cursor_row == m.cursor_row && up.cursor_col == m.cursor_col
            &&& down.cursor_row == m.cursor_row && down.cursor_col == m.cursor_col
            &&& !whole ==> up.scrollback == m.scrollback
            &&& down.scrollback == m.scrollback
        }),
{
    lemma_sequence(m, None, seq![n], Seq::empty(), 0x53);
    lemma_sequence(m, None, seq![n], Seq::empty(), 0x54);
    reveal(TerminalModel::csi);
    lemma_region_up(m, steps(n) as nat);
    lemma_region_down(m, steps(n) as nat);
}

} // verus!
