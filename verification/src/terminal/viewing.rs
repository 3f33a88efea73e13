//! What is shown of the screen and of the lines that have left it.

use super::model::TerminalModel;
use super::resize::lemma_lines_pushed;
use super::types::{MAX_TERMINAL_COLS, MAX_TERMINAL_ROWS};
use super::viewport::{
    cells_of, cut_into, first_lines, joined_text, logical_end, logical_start, of_width, reflowed,
    stripped,
};
use crate::cell::{Color, Style, StyleFlags, TerminalCell};
use crate::scrollback::{kept, kept_cell, LineModel};
use vstd::prelude::*;

verus! {

/// A line that leaves the screen keeps its characters, colours and attributes: but for
/// blinking, which old lines do not.
pub proof fn old_lines_keep_their_look(cells: Seq<TerminalCell>, c: int)
    requires
        0 <= c < cells.len(),
    ensures
        kept(cells).len() == cells.len(),
        kept(cells)[c].character == cells[c].character,
        kept(cells)[c].foreground == cells[c].foreground,
        kept(cells)[c].background == cells[c].background,
        kept(cells)[c].flags@ == (Style { blink: false, ..cells[c].flags@ }),
{
    StyleFlags::of_style_has_style((Style { blink: false, ..cells[c].flags@ }));
}

/// A view that is not scrolled is the screen.
pub proof fn the_live_view_is_the_screen(m: TerminalModel)
    requires
        m.scroll_offset == 0,
        m.visible_cache is None,
    ensures
        m.visible_cells() == m.grid.lines,
{
    reveal(TerminalModel::shown);
}

/// The view is scrolled to the offset that is asked for, no further than there are lines and
/// not below the screen, and nothing else changes. The alternate screen is not scrolled.
pub proof fn the_view_scrolls_as_far_as_there_are_lines(m: TerminalModel, offset: int)
    ensures
        m.use_alt_buffer ==> m.scrolled_to(offset) == m,
        !m.use_alt_buffer ==> {
            let r = m.scrolled_to(offset);
            &&& r == (TerminalModel { scroll_offset: r.scroll_offset, ..m })
            &&& 0 <= offset <= m.scrollback.len() ==> r.scroll_offset == offset
            &&& offset < 0 ==> r.scroll_offset == 0
            &&& offset > m.scrollback.len() ==> r.scroll_offset == m.scrollback.len()
        },
{
}

/// Lines that do not go on in the next and fit into the width.
pub open spec fn are_single(lines: Seq<LineModel>, cols: int) -> bool {
    forall|i: int|
        0 <= i < lines.len() ==> !(#[trigger] lines[i]).wrapped && lines[i].cells.len() <= cols
}

proof fn lemma_stripped(cells: Seq<TerminalCell>)
    ensures
        stripped(cells).len() <= cells.len(),
        forall|c: int| 0 <= c < stripped(cells).len() ==> #[trigger] stripped(cells)[c] == cells[c],
        forall|c: int|
            stripped(cells).len() <= c < cells.len() ==> (#[trigger] cells[c]).character == ' '
                && cells[c].background == Color::Default,
    decreases cells.len(),
{
    if cells.len() > 0 && super::viewport::is_blank(cells.last()) {
        let init = cells.drop_last();
        lemma_stripped(init);
        assert forall|c: int| stripped(cells).len() <= c < cells.len() implies (
        #[trigger] cells[c]).character == ' ' && cells[c].background == Color::Default by {
            if c < init.len() {
                assert(init[c] == cells[c]);
            }
        }
    }
}

proof fn lemma_single(lines: Seq<LineModel>, i: int, cols: int, blank: TerminalCell)
    requires
        0 <= i <= lines.len(),
        cols > 0,
        are_single(lines, cols),
    ensures
        reflowed(lines, i, cols, blank).len() == lines.len() - i,
        forall|j: int|
            0 <= j < lines.len() - i ==> #[trigger] reflowed(lines, i, cols, blank)[j] == (
            LineModel {
                cells: kept(of_width(stripped(lines[i + j].cells), cols, blank)),
                wrapped: false,
            }),
    decreases lines.len() - i,
{
    if i < lines.len() {
        assert(!lines[i].wrapped);
        assert(logical_end(lines, i) == i + 1);
        lemma_single(lines, i + 1, cols, blank);
        reveal_with_fuel(joined_text, 2);
        let text = joined_text(lines, i, i + 1);
        assert(text =~= stripped(lines[i].cells));
        lemma_stripped(lines[i].cells);
        let first = cut_into(text, cols, blank);
        let rest = reflowed(lines, i + 1, cols, blank);
        assert(first.len() == 1);
        assert(reflowed(lines, i, cols, blank) == first + rest);
        assert forall|j: int| 0 <= j < lines.len() - i implies #[trigger] reflowed(
            lines,
            i,
            cols,
            blank,
        )[j] == (LineModel {
            cells: kept(of_width(stripped(lines[i + j].cells), cols, blank)),
            wrapped: false,
        }) by {
            if j > 0 {
                assert((first + rest)[j] == rest[j - 1]);
            }
        }
    }
}

proof fn lemma_start(lines: Seq<LineModel>, i: int, cols: int)
    requires
        0 <= i <= lines.len(),
        are_single(lines, cols),
    ensures
        logical_start(lines, i) == i,
{
    if i > 0 {
        assert(!lines[i - 1].wrapped);
    }
}

/// A view that is scrolled up by some lines shows that many of the newest old lines, the
/// oldest of them first, and below them the screen from its first line on. (Meant are old
/// lines that do not go on in the next.)
#[verifier::spinoff_prover]
pub proof fn a_scrolled_view_shows_the_newest_old_lines(m: TerminalModel, row: int, c: int)
    requires
        m.wf(),
        0 < m.scroll_offset,
        m.visible_cache is None,
        are_single(m.scrollback, m.cols()),
        0 <= row < m.rows(),
        0 <= c < m.cols(),
    ensures
        m.visible_cells().len() == m.rows(),
        row >= m.scroll_offset ==> m.visible_cells()[row] == m.grid.lines[row - m.scroll_offset],
        row < m.scroll_offset ==> ({
            let line = m.scrollback[m.scrollback.len() - m.scroll_offset + row].cells;
            let shown = m.visible_cells()[row];
            &&& shown.len() == m.cols()
            &&& shown[c].character == (if c < line.len() {
                line[c].character
            } else {
                ' '
            })
        }),
{
    reveal(TerminalModel::shown);
    let lines = m.scrollback;
    let wanted = lines.len() - (m.scroll_offset + m.rows());
    let from = if wanted > 0 {
        wanted
    } else {
        0
    };
    lemma_start(lines, from, m.cols());
    lemma_single(lines, from, m.cols(), m.blank());
    let past = m.reflowed_scrollback();
    let k = past.len() - m.scroll_offset;
    let newest = past.subrange(k, past.len() as int);
    let all = cells_of(newest) + m.grid.lines;
    assert(m.shown() == first_lines(all, m.rows()));
    if row < m.scroll_offset {
        let at = lines.len() - m.scroll_offset + row;
        assert(newest[row] == past[k + row]);
        let line = lines[at].cells;
        assert(past[k + row] == (LineModel {
            cells: kept(of_width(stripped(line), m.cols(), m.blank())),
            wrapped: false,
        }));
        lemma_stripped(line);
        old_lines_keep_their_look(of_width(stripped(line), m.cols(), m.blank()), c);
    }
}

/// A scrollback that is limited keeps its newest lines in their order, as many as it may.
pub proof fn a_limited_scrollback_keeps_the_newest(m: TerminalModel, max: int, back: int)
    requires
        m.wf(),
        max >= 1,
        0 < back <= max,
        back <= m.scrollback.len(),
    ensures
        ({
            let r = m.limited_to(max);
            &&& r.scrollback.len() <= max
            &&& m.scrollback.len() <= max ==> r.scrollback == m.scrollback
            &&& m.scrollback.len() > max ==> r.scrollback.len() == max
            &&& r.scrollback[r.scrollback.len() - back] == m.scrollback[m.scrollback.len() - back]
            &&& r.max_scrollback == max
            &&& r.grid == m.grid
        }),
{
}

/// Text that is cut into lines of some width is all there, in order: every line but the last
/// is full and goes on in the next.
pub proof fn cut_text_is_all_there(text: Seq<TerminalCell>, cols: int, blank: TerminalCell, c: int)
    requires
        cols > 0,
        0 <= c < text.len(),
    ensures
        ({
            let lines = cut_into(text, cols, blank);
            &&& c / cols < lines.len()
            &&& lines[c / cols].cells.len() == cols
            &&& lines[c / cols].cells[c % cols] == kept_cell(text[c])
            &&& !lines.last().wrapped
            &&& c / cols < lines.len() - 1 ==> lines[c / cols].wrapped
        }),
    decreases text.len(),
{
    let lines = cut_into(text, cols, blank);
    if text.len() > cols {
        let rest = text.subrange(cols, text.len() as int);
        let more = cut_into(rest, cols, blank);
        assert(more.len() > 0);
        lemma_last_ends(rest, cols, blank);
        assert(lines.last() == more.last());
        if c >= cols {
            cut_text_is_all_there(rest, cols, blank, c - cols);
            assert((c - cols) / cols == c / cols - 1 && (c - cols) % cols == c % cols)
                by (nonlinear_arith)
                requires
                    cols > 0,
                    c >= cols,
            ;
            assert(c / cols >= 1) by (nonlinear_arith)
                requires
                    cols > 0,
                    c >= cols,
            ;
            assert(lines[c / cols] == more[c / cols - 1]);
        } else {
            assert(c / cols == 0 && c % cols == c) by (nonlinear_arith)
                requires
                    cols > 0,
                    0 <= c < cols,
            ;
        }
    } else {
        if c < cols {
            assert(c / cols == 0 && c % cols == c) by (nonlinear_arith)
                requires
                    cols > 0,
                    0 <= c < cols,
            ;
        }
    }
}

proof fn lemma_last_ends(text: Seq<TerminalCell>, cols: int, blank: TerminalCell)
    requires
        cols > 0,
    ensures
        cut_into(text, cols, blank).len() > 0,
        !cut_into(text, cols, blank).last().wrapped,
    decreases text.len(),
{
    if text.len() > cols {
        let rest = text.subrange(cols, text.len() as int);
        lemma_last_ends(rest, cols, blank);
    }
}

/// Where a screen gets more columns or lines, the new cells are blank, on the background of
/// the moment; the cursor stays where it was if it can.
pub proof fn a_larger_screen_is_filled_up(m: TerminalModel, cols: int, rows: int, row: int, c: int)
    requires
        m.wf(),
        m.cols() <= cols <= MAX_TERMINAL_COLS,
        m.rows() <= rows <= MAX_TERMINAL_ROWS,
        0 <= row < rows,
        0 <= c < cols,
        row >= m.rows() || c >= m.cols(),
    ensures
        m.resized(cols, rows).grid.lines[row][c] == m.blank(),
        m.resized(cols, rows).cursor_row == m.cursor_row,
        m.cursor_col < m.cols() ==> m.resized(cols, rows).cursor_col == m.cursor_col,
        m.resized(cols, rows).scrollback == m.scrollback,
{
    reveal(TerminalModel::shrunk);
    reveal(TerminalModel::recut);
}

/// Where a screen gets fewer lines and the cursor would not stay on it, the first lines
/// leave it at the top and become the newest old lines, in their order.
pub proof fn lines_that_leave_are_not_lost(m: TerminalModel, rows: int, k: int)
    requires
        m.wf(),
        !m.use_alt_buffer,
        1 <= rows < m.rows(),
        0 <= k < m.lines_over(rows),
        m.scrollback.len() + m.rows() <= m.most_lines(),
    ensures
        ({
            let r = m.resized(m.cols(), rows);
            &&& r.scrollback.len() == m.scrollback.len() + m.lines_over(rows)
            &&& r.scrollback[m.scrollback.len() + k] == m.leaving_line(k)
            &&& r.cursor_row == m.cursor_row - m.lines_over(rows) || r.cursor_row == rows - 1
        }),
{
    reveal(TerminalModel::shrunk);
    reveal(TerminalModel::recut);
    lemma_pushed_lines(m, m.lines_over(rows) as nat, k);
    lemma_lines_pushed(m, m.lines_over(rows) as nat);
}

proof fn lemma_pushed_lines(m: TerminalModel, n: nat, k: int)
    requires
        m.wf(),
        !m.use_alt_buffer,
        0 <= k < n,
        m.scrollback.len() + n <= m.most_lines(),
    ensures
        m.lines_pushed(n).scrollback.len() == m.scrollback.len() + n,
        m.lines_pushed(n).scrollback[m.scrollback.len() + k] == m.leaving_line(k),
    decreases n,
{
    reveal_with_fuel(TerminalModel::lines_pushed, 2);
    lemma_lines_pushed(m, (n - 1) as nat);
    if n > 1 {
        lemma_pushed_lines(m, (n - 1) as nat, 0);
    }
    if k < n - 1 {
        lemma_pushed_lines(m, (n - 1) as nat, k);
    }
}

} // verus!
