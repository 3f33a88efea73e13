//! What control sequences do: cursor, erasing, editing, tab stops, keyboard
//! flags, modes and resets.

use super::model::{
    cells_below_erased, erase_span, first_erased, next_stop, next_stops, prev_stop, prev_stops,
    TerminalModel,
};
use super::screen::erase_span_at;
use super::state::{scrollback_view, TerminalState};
use super::types::SavedCursor;
use crate::cell::TerminalCell;
use crate::char_width::char_width;
use crate::grid::{line_of, GridModel, TerminalGrid};
use vstd::prelude::*;

verus! {

impl TerminalState {
    // ---- the cursor ----

    pub(crate) fn save_cursor(&mut self)
        requires
            old(self).wf(),
        ensures
            final(self).wf(),
            final(self)@ == old(self)@.cursor_saved(),
            final(self).kitty_graphics == old(self).kitty_graphics,
            final(self).sync_output_start == old(self).sync_output_start,
            final(self).widest == old(self).widest,
    {
        proof {
            reveal(TerminalModel::cursor_saved);
        }
        self.saved_cursor = Some(
            SavedCursor {
                row: self.cursor_row,
                col: self.cursor_col,
                fg: self.current_fg,
                bg: self.current_bg,
                flags: self.current_flags,
                g0: self.g0_charset,
                g1: self.g1_charset,
                active: self.active_charset,
                origin_mode: self.modes.contains(6),
            },
        );
    }

    pub(crate) fn restore_cursor(&mut self)
        requires
            old(self).wf(),
        ensures
            final(self).wf(),
            final(self)@ == old(self)@.cursor_restored(),
            final(self).kitty_graphics == old(self).kitty_graphics,
            final(self).sync_output_start == old(self).sync_output_start,
            final(self).widest == old(self).widest,
    {
        proof {
            reveal(TerminalModel::cursor_restored);
        }
        match self.saved_cursor {
            Some(s) => {
                let rows: usize = self.grid.rows();
                let cols: usize = self.grid.row_len();
                self.cursor_row = if s.row < rows {
                    s.row
                } else {
                    rows - 1
                };
                self.cursor_col = if s.col < cols {
                    s.col
                } else {
                    cols - 1
                };
                self.current_fg = s.fg;
                self.current_bg = s.bg;
                self.current_flags = s.flags;
                self.g0_charset = s.g0;
                self.g1_charset = s.g1;
                self.active_charset = s.active;
                if s.origin_mode {
                    self.modes.insert(6);
                } else {
                    self.modes.remove(6);
                }
            },
            None => {
                self.cursor_row = 0;
                self.cursor_col = 0;
            },
        }
    }

    /// The line that a one-based line number stands for.
    fn row_for(&self, row_1based: usize) -> (row: usize)
        requires
            self.wf(),
            row_1based <= u16::MAX,
        ensures
            row == self@.addressed_row(row_1based as int),
            row < self@.rows(),
    {
        let row0: usize = row_1based.saturating_sub(1);
        if self.modes.contains(6) {
            if self.scroll_region_top + row0 < self.scroll_region_bottom {
                self.scroll_region_top + row0
            } else {
                self.scroll_region_bottom
            }
        } else if row0 < self.grid.rows() {
            row0
        } else {
            self.grid.rows() - 1
        }
    }

    /// The column that a one-based column number stands for.
    fn col_for(&self, col_1based: usize) -> (col: usize)
        requires
            self.wf(),
        ensures
            col == self@.addressed_col(col_1based as int),
            col < self@.cols(),
    {
        let col0: usize = col_1based.saturating_sub(1);
        if col0 < self.grid.row_len() {
            col0
        } else {
            self.grid.row_len() - 1
        }
    }

    /// CUP/HVP: places the cursor, in origin mode relative to the scroll region.
    pub(crate) fn place_cursor(&mut self, row_1based: usize, col_1based: usize)
        requires
            old(self).wf(),
            row_1based <= u16::MAX,
        ensures
            final(self).wf(),
            final(self)@ == old(self)@.cursor_placed(row_1based as int, col_1based as int),
            final(self).kitty_graphics == old(self).kitty_graphics,
            final(self).sync_output_start == old(self).sync_output_start,
            final(self).widest == old(self).widest,
    {
        proof {
            reveal(TerminalModel::cursor_placed);
        }
        self.cursor_row = self.row_for(row_1based);
        self.cursor_col = self.col_for(col_1based);
    }

    /// CHA/HPA: moves to a column.
    pub(crate) fn set_cursor_col_abs(&mut self, col_1based: usize)
        requires
            old(self).wf(),
        ensures
            final(self).wf(),
            final(self)@ == old(self)@.with_col(old(self)@.addressed_col(col_1based as int)),
            final(self).kitty_graphics == old(self).kitty_graphics,
            final(self).sync_output_start == old(self).sync_output_start,
            final(self).widest == old(self).widest,
    {
        proof {
            reveal(TerminalModel::with_col);
        }
        self.cursor_col = self.col_for(col_1based);
    }

    /// VPA: moves to a line and keeps the column.
    pub(crate) fn set_cursor_row_abs(&mut self, row_1based: usize)
        requires
            old(self).wf(),
            row_1based <= u16::MAX,
        ensures
            final(self).wf(),
            final(self)@ == old(self)@.with_row(old(self)@.addressed_row(row_1based as int)),
            final(self).kitty_graphics == old(self).kitty_graphics,
            final(self).sync_output_start == old(self).sync_output_start,
            final(self).widest == old(self).widest,
    {
        proof {
            reveal(TerminalModel::with_row);
        }
        self.cursor_row = self.row_for(row_1based);
    }

    /// CUU/CPL: up by `n`.
    pub(crate) fn cursor_up(&mut self, n: usize)
        requires
            old(self).wf(),
            n <= u16::MAX,
        ensures
            final(self).wf(),
            final(self)@ == old(self)@.with_row(old(self)@.row_above(n as int)),
            final(self).kitty_graphics == old(self).kitty_graphics,
            final(self).sync_output_start == old(self).sync_output_start,
            final(self).widest == old(self).widest,
    {
        proof {
            reveal(TerminalModel::with_row);
        }
        let limit: usize = if self.cursor_row >= self.scroll_region_top {
            self.scroll_region_top
        } else {
            0
        };
        let target: usize = self.cursor_row.saturating_sub(n);
        self.cursor_row = if target > limit {
            target
        } else {
            limit
        };
    }

    /// CUD/CNL: down by `n`.
    pub(crate) fn cursor_down(&mut self, n: usize)
        requires
            old(self).wf(),
            n <= u16::MAX,
        ensures
            final(self).wf(),
            final(self)@ == old(self)@.with_row(old(self)@.row_below(n as int)),
            final(self).kitty_graphics == old(self).kitty_graphics,
            final(self).sync_output_start == old(self).sync_output_start,
            final(self).widest == old(self).widest,
    {
        proof {
            reveal(TerminalModel::with_row);
        }
        let limit: usize = if self.cursor_row <= self.scroll_region_bottom {
            self.scroll_region_bottom
        } else {
            self.grid.rows() - 1
        };
        self.cursor_row = if self.cursor_row + n < limit {
            self.cursor_row + n
        } else {
            limit
        };
    }

    // ---- tab stops ----

    /// Next tab stop strictly right of `col`, or the last column if none.
    pub(crate) fn next_tab_stop(&self, col: usize) -> (stop: usize)
        requires
            self.wf(),
            col <= self@.furthest(),
        ensures
            stop == next_stop(self@.tab_stops, col as int),
            stop < self@.cols(),
    {
        let cols: usize = self.grid.row_len();
        let mut c: usize = col + 1;
        while c < cols
            invariant
                self.wf(),
                cols == self@.cols(),
                1 <= c <= cols || c == col + 1,
                next_stop(self@.tab_stops, c - 1) == next_stop(self@.tab_stops, col as int),
            decreases cols - c,
        {
            if self.tab_stops[c] {
                return c;
            }
            c = c + 1;
        }
        cols - 1
    }

    /// Previous tab stop strictly left of `col`, or the first column if none.
    pub(crate) fn prev_tab_stop(&self, col: usize) -> (stop: usize)
        requires
            self.wf(),
            col <= self@.furthest(),
        ensures
            stop == prev_stop(self@.tab_stops, col as int),
            stop <= col,
    {
        let mut c: usize = col;
        while c > 0
            invariant
                self.wf(),
                c <= col <= self@.furthest(),
                prev_stop(self@.tab_stops, c as int) == prev_stop(self@.tab_stops, col as int),
            decreases c,
        {
            c = c - 1;
            if c < self.tab_stops.len() && self.tab_stops[c] {
                return c;
            }
        }
        0
    }

    /// CHT: forward by `n` tab stops.
    pub(crate) fn tab_forward(&mut self, n: usize)
        requires
            old(self).wf(),
        ensures
            final(self).wf(),
            final(self)@ == old(self)@.with_col(next_stops(old(self)@.tab_stops, old(self)@.cursor_col, n as nat)),
            final(self).kitty_graphics == old(self).kitty_graphics,
            final(self).sync_output_start == old(self).sync_output_start,
            final(self).widest == old(self).widest,
    {
        proof {
            reveal(TerminalModel::with_col);
        }
        let mut i: usize = 0;
        while i < n
            invariant
                i <= n,
                self.wf(),
                *self == (TerminalState { cursor_col: self.cursor_col, ..*old(self) }),
                next_stops(self@.tab_stops, self@.cursor_col, (n - i) as nat) == next_stops(
                    old(self)@.tab_stops,
                    old(self)@.cursor_col,
                    n as nat,
                ),
            decreases n - i,
        {
            let col: usize = self.cursor_col;
            self.cursor_col = self.next_tab_stop(col);
            i = i + 1;
        }
    }

    /// CBT: back by `n` tab stops.
    pub(crate) fn tab_backward(&mut self, n: usize)
        requires
            old(self).wf(),
        ensures
            final(self).wf(),
            final(self)@ == old(self)@.with_col(prev_stops(old(self)@.tab_stops, old(self)@.cursor_col, n as nat)),
            final(self).kitty_graphics == old(self).kitty_graphics,
            final(self).sync_output_start == old(self).sync_output_start,
            final(self).widest == old(self).widest,
    {
        proof {
            reveal(TerminalModel::with_col);
        }
        let mut i: usize = 0;
        while i < n
            invariant
                i <= n,
                self.wf(),
                *self == (TerminalState { cursor_col: self.cursor_col, ..*old(self) }),
                prev_stops(self@.tab_stops, self@.cursor_col, (n - i) as nat) == prev_stops(
                    old(self)@.tab_stops,
                    old(self)@.cursor_col,
                    n as nat,
                ),
            decreases n - i,
        {
            let col: usize = self.cursor_col;
            self.cursor_col = self.prev_tab_stop(col);
            i = i + 1;
        }
    }

    /// HTS and TBC: the tab stop at the cursor.
    pub(crate) fn set_tab_stop(&mut self, v: bool)
        requires
            old(self).wf(),
        ensures
            final(self).wf(),
            final(self)@ == old(self)@.tab_stop_at_cursor(v),
            final(self).kitty_graphics == old(self).kitty_graphics,
            final(self).sync_output_start == old(self).sync_output_start,
            final(self).widest == old(self).widest,
    {
        proof {
            reveal(TerminalModel::tab_stop_at_cursor);
        }
        if self.cursor_col < self.tab_stops.len() {
            let col: usize = self.cursor_col;
            self.tab_stops.set(col, v);
        }
    }

    /// TBC 3: no tab stops at all.
    pub(crate) fn clear_tab_stops(&mut self)
        requires
            old(self).wf(),
        ensures
            final(self).wf(),
            final(self)@ == (TerminalModel {
                tab_stops: Seq::new(old(self)@.tab_stops.len(), |c: int| false),
                ..old(self)@
            }),
            final(self).kitty_graphics == old(self).kitty_graphics,
            final(self).sync_output_start == old(self).sync_output_start,
            final(self).widest == old(self).widest,
    {
        let n: usize = self.tab_stops.len();
        self.tab_stops = vec![false; n];
        proof {
            assert(self.tab_stops@ =~= Seq::new(n as nat, |c: int| false));
        }
    }

    // ---- erasing ----

    /// ED 0: from the cursor to the end of the screen.
    pub(crate) fn erase_below(&mut self)
        requires
            old(self).wf(),
        ensures
            final(self).wf(),
            final(self)@ == old(self)@.erased_below(),
            final(self).kitty_graphics == old(self).kitty_graphics,
            final(self).sync_output_start == old(self).sync_output_start,
            final(self).widest == old(self).widest,
    {
        proof {
            reveal(TerminalModel::erased_below);
        }
        let row: usize = self.cursor_row;
        let col: usize = self.cursor_col;
        let rows: usize = self.grid.rows();
        let cols: usize = self.grid.row_len();
        let blank = self.create_blank_cell();
        let ghost want = self@.erased_below().grid;
        proof {
            TerminalGrid::view_is_wf(&self.grid);
        }
        erase_span_at(&mut self.grid, row, col, cols, blank);
        fill_lines(&mut self.grid, row + 1, rows, blank);
        proof {
            assert(self.grid@.lines =~= want.lines);
            TerminalGrid::view_is_wf(&self.grid);
        }
        self.touch_rows(row, rows - 1);
    }

    /// ED 1: from the start of the screen to the cursor.
    pub(crate) fn erase_above(&mut self)
        requires
            old(self).wf(),
        ensures
            final(self).wf(),
            final(self)@ == old(self)@.erased_above(),
            final(self).kitty_graphics == old(self).kitty_graphics,
            final(self).sync_output_start == old(self).sync_output_start,
            final(self).widest == old(self).widest,
    {
        proof {
            reveal(TerminalModel::erased_above);
        }
        let row: usize = self.cursor_row;
        let end: usize = self.column_behind_cursor();
        let over: usize = self.cells_over();
        let blank = self.create_blank_cell();
        let ghost above = GridModel {
            lines: Seq::new(
                self.grid@.lines.len(),
                |r: int|
                    if r < self@.cursor_row {
                        line_of(blank, self.grid@.cols)
                    } else if r == self@.cursor_row {
                        erase_span(self.grid@.lines[r], 0, self@.cursor_end(), blank)
                    } else {
                        self.grid@.lines[r]
                    },
            ),
            ..self.grid@
        };
        proof {
            TerminalGrid::view_is_wf(&self.grid);
        }
        erase_span_at(&mut self.grid, row, 0, end, blank);
        fill_lines(&mut self.grid, 0, row, blank);
        proof {
            assert(self.grid@.lines =~= above.lines);
        }
        erase_cells_below(&mut self.grid, row, over, blank);
        proof {
            TerminalGrid::view_is_wf(&self.grid);
        }
        self.touch_rows(0, row);
    }

    fn column_behind_cursor(&self) -> (end: usize)
        requires
            self.wf(),
        ensures
            end == self@.cursor_end(),
            end <= self@.cols(),
    {
        if self.cursor_col + 1 < self.grid.row_len() {
            self.cursor_col + 1
        } else {
            self.grid.row_len()
        }
    }

    fn erase_in_line(&mut self, from: usize, to: usize)
        requires
            old(self).wf(),
            to <= old(self)@.cols(),
        ensures
            final(self).wf(),
            final(self)@ == old(self)@.erased_in_line(from as int, to as int),
            final(self).kitty_graphics == old(self).kitty_graphics,
            final(self).sync_output_start == old(self).sync_output_start,
            final(self).widest == old(self).widest,
    {
        proof {
            reveal(TerminalModel::erased_in_line);
        }
        let row: usize = self.cursor_row;
        let blank = self.create_blank_cell();
        erase_span_at(&mut self.grid, row, from, to, blank);
        proof {
            TerminalGrid::view_is_wf(&self.grid);
        }
        self.touch_row(row);
    }

    /// EL 0: from the cursor to the end of the line.
    pub(crate) fn erase_line_right(&mut self)
        requires
            old(self).wf(),
        ensures
            final(self).wf(),
            final(self)@ == old(self)@.erased_in_line(old(self)@.cursor_col, old(self)@.cols()),
            final(self).kitty_graphics == old(self).kitty_graphics,
            final(self).sync_output_start == old(self).sync_output_start,
            final(self).widest == old(self).widest,
    {
        let from: usize = self.cursor_col;
        let to: usize = self.grid.row_len();
        self.erase_in_line(from, to);
    }

    /// How many cells the cursor stands behind the last one of its line.
    fn cells_over(&self) -> (n: usize)
        requires
            self.wf(),
        ensures
            n == (if self@.cursor_col + 1 > self@.cols() {
                self@.cursor_col + 1 - self@.cols()
            } else {
                0
            }),
    {
        let cols: usize = self.grid.row_len();
        if self.cursor_col + 1 > cols {
            self.cursor_col + 1 - cols
        } else {
            0
        }
    }

    /// EL 1: from the start of the line to the cursor.
    pub(crate) fn erase_line_left(&mut self)
        requires
            old(self).wf(),
        ensures
            final(self).wf(),
            final(self)@ == old(self)@.erased_up_to_cursor(),
            final(self).kitty_graphics == old(self).kitty_graphics,
            final(self).sync_output_start == old(self).sync_output_start,
            final(self).widest == old(self).widest,
    {
        proof {
            reveal(TerminalModel::erased_up_to_cursor);
        }
        let row: usize = self.cursor_row;
        let end: usize = self.column_behind_cursor();
        let over: usize = self.cells_over();
        let blank = self.create_blank_cell();
        erase_span_at(&mut self.grid, row, 0, end, blank);
        erase_cells_below(&mut self.grid, row, over, blank);
        proof {
            TerminalGrid::view_is_wf(&self.grid);
        }
        self.touch_row(row);
    }

    /// EL 2: the whole line.
    pub(crate) fn erase_line(&mut self)
        requires
            old(self).wf(),
        ensures
            final(self).wf(),
            final(self)@ == old(self)@.erased_line(),
            final(self).kitty_graphics == old(self).kitty_graphics,
            final(self).sync_output_start == old(self).sync_output_start,
            final(self).widest == old(self).widest,
    {
        proof {
            reveal(TerminalModel::erased_line);
        }
        let row: usize = self.cursor_row;
        let cols: usize = self.grid.row_len();
        let blank = self.create_blank_cell();
        self.grid.fill_cells(row, 0, cols, blank);
        proof {
            let line = line_of(blank, old(self)@.grid.cols);
            assert(self.grid@.lines[row as int] =~= line);
            assert(self.grid@.lines =~= old(self)@.grid.with_line(row as int, line).lines);
            TerminalGrid::view_is_wf(&self.grid);
        }
        self.touch_row(row);
    }

    /// ED 2: the whole screen; the cursor stays.
    pub(crate) fn clear_screen_no_home(&mut self)
        requires
            old(self).wf(),
        ensures
            final(self).wf(),
            final(self)@ == old(self)@.erased_screen(),
            final(self).kitty_graphics == old(self).kitty_graphics,
            final(self).sync_output_start == old(self).sync_output_start,
            final(self).widest == old(self).widest,
    {
        proof {
            reveal(TerminalModel::erased_screen);
        }
        let blank = self.create_blank_cell();
        self.grid.fill(blank);
        proof {
            TerminalGrid::view_is_wf(&self.grid);
        }
        self.touch_all();
    }

    pub(crate) fn clear_screen(&mut self)
        requires
            old(self).wf(),
        ensures
            final(self).wf(),
            final(self)@ == old(self)@.cleared(),
            final(self).kitty_graphics == old(self).kitty_graphics,
            final(self).sync_output_start == old(self).sync_output_start,
            final(self).widest == old(self).widest,
    {
        proof {
            reveal(TerminalModel::cleared);
        }
        self.clear_screen_no_home();
        self.cursor_row = 0;
        self.cursor_col = 0;
    }

    /// ED 3: the scrollback.
    pub(crate) fn clear_scrollback(&mut self)
        requires
            old(self).wf(),
        ensures
            final(self).wf(),
            final(self)@ == (TerminalModel {
                scrollback: Seq::empty(),
                scroll_offset: 0,
                ..old(self)@
            }),
            final(self).kitty_graphics == old(self).kitty_graphics,
            final(self).sync_output_start == old(self).sync_output_start,
            final(self).widest == old(self).widest,
    {
        self.scrollback.clear();
        self.scroll_offset = 0;
        proof {
            assert(scrollback_view(self.scrollback@) =~= Seq::empty());
        }
    }

    /// DECALN: fills the screen with 'E', for alignment tests.
    pub(crate) fn decaln(&mut self)
        requires
            old(self).wf(),
        ensures
            final(self).wf(),
            final(self)@ == old(self)@.aligned(),
            final(self).kitty_graphics == old(self).kitty_graphics,
            final(self).sync_output_start == old(self).sync_output_start,
            final(self).widest == old(self).widest,
    {
        proof {
            reveal(TerminalModel::aligned);
        }
        let mut cell = TerminalCell::default();
        cell.character = 'E';
        self.grid.fill(cell);
        proof {
            TerminalGrid::view_is_wf(&self.grid);
        }
        self.cursor_row = 0;
        self.cursor_col = 0;
        self.touch_all();
    }

    // ---- editing ----

    /// IL: inserts `n` blank lines at the cursor.
    pub(crate) fn insert_lines(&mut self, n: usize)
        requires
            old(self).wf(),
        ensures
            final(self).wf(),
            final(self)@ == old(self)@.lines_inserted(n as nat),
            final(self).kitty_graphics == old(self).kitty_graphics,
            final(self).sync_output_start == old(self).sync_output_start,
            final(self).widest == old(self).widest,
    {
        proof {
            reveal(TerminalModel::lines_inserted);
        }
        let row: usize = self.cursor_row;
        let bottom: usize = self.scroll_region_bottom;
        if row >= self.scroll_region_top && row <= bottom {
            lines_down_times(&mut self.grid, row, bottom, n);
            proof {
                TerminalGrid::view_is_wf(&self.grid);
            }
        }
        self.mark_rows_dirty(row, bottom);
    }

    /// DL: deletes `n` lines at the cursor.
    pub(crate) fn delete_lines(&mut self, n: usize)
        requires
            old(self).wf(),
        ensures
            final(self).wf(),
            final(self)@ == old(self)@.lines_deleted(n as nat),
            final(self).kitty_graphics == old(self).kitty_graphics,
            final(self).sync_output_start == old(self).sync_output_start,
            final(self).widest == old(self).widest,
    {
        proof {
            reveal(TerminalModel::lines_deleted);
        }
        let row: usize = self.cursor_row;
        let bottom: usize = self.scroll_region_bottom;
        if row >= self.scroll_region_top && row <= bottom {
            lines_up_times(&mut self.grid, row, bottom, n);
            proof {
                TerminalGrid::view_is_wf(&self.grid);
            }
        }
        self.mark_rows_dirty(row, bottom);
    }

    /// ICH: inserts `n` blanks at the cursor.
    pub(crate) fn insert_chars(&mut self, n: usize)
        requires
            old(self).wf(),
        ensures
            final(self).wf(),
            final(self)@ == old(self)@.chars_inserted(n as nat),
            final(self).kitty_graphics == old(self).kitty_graphics,
            final(self).sync_output_start == old(self).sync_output_start,
            final(self).widest == old(self).widest,
    {
        proof {
            reveal(TerminalModel::chars_inserted);
        }
        if self.cursor_col < self.grid.row_len() {
            let row: usize = self.cursor_row;
            let col: usize = self.cursor_col;
            let blank = self.create_blank_cell();
            insert_times(&mut self.grid, row, col, n, blank);
            proof {
                TerminalGrid::view_is_wf(&self.grid);
            }
            self.mark_row_dirty(row);
        }
    }

    /// DCH: deletes `n` characters at the cursor.
    pub(crate) fn delete_chars(&mut self, n: usize)
        requires
            old(self).wf(),
        ensures
            final(self).wf(),
            final(self)@ == old(self)@.chars_deleted(n as nat),
            final(self).kitty_graphics == old(self).kitty_graphics,
            final(self).sync_output_start == old(self).sync_output_start,
            final(self).widest == old(self).widest,
    {
        proof {
            reveal(TerminalModel::chars_deleted);
        }
        let row: usize = self.cursor_row;
        if self.cursor_col < self.grid.row_len() {
            let col: usize = self.cursor_col;
            let blank = self.create_blank_cell();
            delete_times(&mut self.grid, row, col, n, blank);
            proof {
                TerminalGrid::view_is_wf(&self.grid);
            }
        }
        self.mark_row_dirty(row);
    }

    /// ECH: erases `n` characters at the cursor.
    pub(crate) fn erase_chars(&mut self, n: usize)
        requires
            old(self).wf(),
            n <= u16::MAX,
        ensures
            final(self).wf(),
            final(self)@ == old(self)@.chars_erased(n as int),
            final(self).kitty_graphics == old(self).kitty_graphics,
            final(self).sync_output_start == old(self).sync_output_start,
            final(self).widest == old(self).widest,
    {
        proof {
            reveal(TerminalModel::chars_erased);
        }
        let row: usize = self.cursor_row;
        let col: usize = self.cursor_col;
        let cols: usize = self.grid.row_len();
        let end: usize = if col + n < cols {
            col + n
        } else {
            cols
        };
        let blank = self.create_blank_cell();
        erase_span_at(&mut self.grid, row, col, end, blank);
        proof {
            TerminalGrid::view_is_wf(&self.grid);
        }
        self.mark_row_dirty(row);
    }

    /// SU: the scroll region up by `n`.
    pub(crate) fn scroll_up_times(&mut self, n: usize)
        requires
            old(self).wf(),
        ensures
            final(self).wf(),
            final(self)@ == old(self)@.region_up_times(n as nat),
            final(self).kitty_graphics == old(self).kitty_graphics,
            final(self).sync_output_start == old(self).sync_output_start,
            final(self).widest == old(self).widest,
    {
        let top: usize = self.scroll_region_top;
        let bottom: usize = self.scroll_region_bottom;
        let mut i: usize = 0;
        while i < n
            invariant
                i <= n,
                self.wf(),
                self@ == old(self)@.region_up_times(i as nat),
                self.kitty_graphics == old(self).kitty_graphics,
                self.sync_output_start == old(self).sync_output_start,
                self.widest == old(self).widest,
                top == old(self)@.scroll_region_top,
                bottom == old(self)@.scroll_region_bottom,
            decreases n - i,
        {
            self.scroll_region_up(top, bottom);
            i = i + 1;
        }
    }

    /// SD: the scroll region down by `n`.
    pub(crate) fn scroll_down_times(&mut self, n: usize)
        requires
            old(self).wf(),
        ensures
            final(self).wf(),
            final(self)@ == old(self)@.region_down_times(n as nat),
            final(self).kitty_graphics == old(self).kitty_graphics,
            final(self).sync_output_start == old(self).sync_output_start,
            final(self).widest == old(self).widest,
    {
        let top: usize = self.scroll_region_top;
        let bottom: usize = self.scroll_region_bottom;
        let mut i: usize = 0;
        while i < n
            invariant
                i <= n,
                self.wf(),
                self@ == old(self)@.region_down_times(i as nat),
                self.kitty_graphics == old(self).kitty_graphics,
                self.sync_output_start == old(self).sync_output_start,
                self.widest == old(self).widest,
                top == old(self)@.scroll_region_top,
                bottom == old(self)@.scroll_region_bottom,
            decreases n - i,
        {
            self.scroll_region_down(top, bottom);
            i = i + 1;
        }
    }

    /// REP: prints a character `n` times.
    pub(crate) fn repeat_char(&mut self, ch: char, n: usize)
        requires
            old(self).wf(),
        ensures
            final(self).wf(),
            final(self)@ == old(self)@.printed_times(ch, n as nat),
            final(self).kitty_graphics == old(self).kitty_graphics,
            final(self).sync_output_start == old(self).sync_output_start,
            old(self)@.widened_to(final(self)@),
    {
        let mut i: usize = 0;
        while i < n
            invariant
                i <= n,
                self.wf(),
                self@ == old(self)@.printed_times(ch, i as nat),
                self.kitty_graphics == old(self).kitty_graphics,
                self.sync_output_start == old(self).sync_output_start,
                self.active_charset == old(self).active_charset,
                ({
                    let c = old(self)@.translated(ch);
                    if i == 0 || char_width(c) == 0 {
                        self.widest == old(self).widest
                    } else {
                        &&& self.last_printed_char == Some(c)
                        &&& self.widest@ == (if old(self).widest@ < char_width(c) {
                            char_width(c) as int
                        } else {
                            old(self).widest@
                        })
                    }
                }),
            decreases n - i,
        {
            self.put_char(ch);
            i = i + 1;
        }
    }

    // ---- keyboard protocol ----

    pub(crate) fn set_keyboard_enhancement_flags(&mut self, flags: u16, mode: u16)
        requires
            old(self).wf(),
        ensures
            final(self).wf(),
            final(self)@ == old(self)@.keyboard_flags_set(flags, mode),
            final(self).kitty_graphics == old(self).kitty_graphics,
            final(self).sync_output_start == old(self).sync_output_start,
            final(self).widest == old(self).widest,
    {
        proof {
            reveal(TerminalModel::keyboard_flags_set);
        }
        match mode {
            1 => {
                self.keyboard_enhancement_flags = flags;
            },
            2 => {
                self.keyboard_enhancement_flags = self.keyboard_enhancement_flags | flags;
            },
            3 => {
                self.keyboard_enhancement_flags = self.keyboard_enhancement_flags & !flags;
            },
            _ => {},
        }
    }

    pub(crate) fn push_keyboard_enhancement_flags(&mut self, flags: u16)
        requires
            old(self).wf(),
        ensures
            final(self).wf(),
            final(self)@ == old(self)@.keyboard_flags_pushed(flags),
            final(self).kitty_graphics == old(self).kitty_graphics,
            final(self).sync_output_start == old(self).sync_output_start,
            final(self).widest == old(self).widest,
    {
        proof {
            reveal(TerminalModel::keyboard_flags_pushed);
        }
        if self.keyboard_enhancement_stack.len() >= 32 {
            self.keyboard_enhancement_stack.remove(0);
            proof {
                assert(self.keyboard_enhancement_stack@
                    =~= old(self).keyboard_enhancement_stack@.drop_first());
            }
        }
        let current: u16 = self.keyboard_enhancement_flags;
        self.keyboard_enhancement_stack.push(current);
        self.keyboard_enhancement_flags = flags;
    }

    /// Takes back `count` entries, and at least one.
    pub(crate) fn pop_keyboard_enhancement_flags(&mut self, count: usize)
        requires
            old(self).wf(),
        ensures
            final(self).wf(),
            final(self)@ == old(self)@.keyboard_flags_popped(
                if count == 0 {
                    1
                } else {
                    count as nat
                },
            ),
            final(self).kitty_graphics == old(self).kitty_graphics,
            final(self).sync_output_start == old(self).sync_output_start,
            final(self).widest == old(self).widest,
    {
        proof {
            reveal(TerminalModel::keyboard_flags_popped);
        }
        let n: usize = if count == 0 {
            1
        } else {
            count
        };
        let ghost stack = self.keyboard_enhancement_stack@;
        proof {
            assert(stack.subrange(0, stack.len() as int) =~= stack);
        }
        let mut i: usize = 0;
        while i < n
            invariant
                i <= n,
                n == (if count == 0 {
                    1
                } else {
                    count
                }),
                old(self).wf(),
                i <= stack.len(),
                stack == old(self).keyboard_enhancement_stack@,
                *self == (TerminalState {
                    keyboard_enhancement_flags: self.keyboard_enhancement_flags,
                    keyboard_enhancement_stack: self.keyboard_enhancement_stack,
                    ..*old(self)
                }),
                self.keyboard_enhancement_stack@ == stack.subrange(0, stack.len() - i),
                i > 0 ==> self.keyboard_enhancement_flags == stack[stack.len() - i],
                i == 0 ==> self.keyboard_enhancement_flags
                    == old(self).keyboard_enhancement_flags,
            decreases n - i,
        {
            match self.keyboard_enhancement_stack.pop() {
                Some(flags) => {
                    self.keyboard_enhancement_flags = flags;
                    proof {
                        assert(self.keyboard_enhancement_stack@ =~= stack.subrange(
                            0,
                            stack.len() - i - 1,
                        ));
                    }
                },
                None => {
                    self.keyboard_enhancement_flags = 0;
                    proof {
                        reveal(TerminalModel::keyboard_flags_popped);
                        assert(self.keyboard_enhancement_stack@ =~= Seq::<u16>::empty());
                    }
                    return;
                },
            }
            i = i + 1;
        }
    }
}

/// Erases the first `n` cells below a line.
fn erase_cells_below(grid: &mut TerminalGrid, row: usize, n: usize, blank: TerminalCell)
    requires
        old(grid).wf(),
        old(grid)@.cols > 0,
        row < old(grid)@.lines.len(),
    ensures
        final(grid).wf(),
        final(grid)@ == cells_below_erased(old(grid)@, row as int, n as int, blank),
        final(grid)@.cols == old(grid)@.cols,
        final(grid)@.lines.len() == old(grid)@.lines.len(),
        final(grid)@.wrapped == old(grid)@.wrapped,
{
    let rows: usize = grid.rows();
    let cols: usize = grid.row_len();
    let mut above: usize = row;
    let mut left: usize = n;
    while left > 0 && above + 1 < rows
        invariant
            grid.wf(),
            rows == grid@.lines.len(),
            cols == grid@.cols,
            cols > 0,
            above < rows,
            grid@.cols == old(grid)@.cols,
            grid@.lines.len() == old(grid)@.lines.len(),
            grid@.wrapped == old(grid)@.wrapped,
            cells_below_erased(grid@, above as int, left as int, blank) == cells_below_erased(
                old(grid)@,
                row as int,
                n as int,
                blank,
            ),
        decreases rows - above,
    {
        let end: usize = if left < cols {
            left
        } else {
            cols
        };
        let ghost before = grid@;
        proof {
            TerminalGrid::view_is_wf(&*grid);
        }
        grid.fill_cells(above + 1, 0, end, blank);
        proof {
            assert(grid@.lines[above + 1] =~= first_erased(
                before.lines[above + 1],
                left as int,
                blank,
            ));
            if left < cols {
                let next = above + 1;
                assert(cells_below_erased(grid@, next, left - cols, blank) == grid@);
                assert(cells_below_erased(grid@, next, 0, blank) == grid@);
            }
            assert(grid@ =~= before.with_line(above + 1, grid@.lines[above + 1]));
            assert(cells_below_erased(before, above as int, left as int, blank)
                == cells_below_erased(grid@, above + 1, left - cols, blank));
        }
        above = above + 1;
        left = left - end;
    }
}

/// Fills whole lines of the grid.
fn fill_lines(grid: &mut TerminalGrid, from: usize, to: usize, cell: TerminalCell)
    requires
        old(grid).wf(),
        to <= old(grid)@.lines.len(),
    ensures
        final(grid).wf(),
        final(grid)@.cols == old(grid)@.cols,
        final(grid)@.wrapped == old(grid)@.wrapped,
        final(grid)@.lines == Seq::new(
            old(grid)@.lines.len(),
            |r: int|
                if from <= r < to {
                    line_of(cell, old(grid)@.cols)
                } else {
                    old(grid)@.lines[r]
                },
        ),
{
    let cols: usize = grid.row_len();
    let mut row: usize = from;
    while row < to
        invariant
            from <= row,
            row <= to || row == from,
            grid.wf(),
            cols == grid@.cols,
            to <= grid@.lines.len(),
            grid@.cols == old(grid)@.cols,
            grid@.wrapped == old(grid)@.wrapped,
            grid@.lines.len() == old(grid)@.lines.len(),
            forall|r: int|
                0 <= r < grid@.lines.len() ==> #[trigger] grid@.lines[r] == (if from <= r < row {
                    line_of(cell, old(grid)@.cols)
                } else {
                    old(grid)@.lines[r]
                }),
        decreases to - row,
    {
        grid.fill_cells(row, 0, cols, cell);
        proof {
            assert(grid@.lines[row as int] =~= line_of(cell, old(grid)@.cols));
        }
        row = row + 1;
    }
    proof {
        assert(grid@.lines =~= Seq::new(
            old(grid)@.lines.len(),
            |r: int|
                if from <= r < to {
                    line_of(cell, old(grid)@.cols)
                } else {
                    old(grid)@.lines[r]
                },
        ));
    }
}

fn lines_down_times(grid: &mut TerminalGrid, top: usize, bottom: usize, n: usize)
    requires
        old(grid).wf(),
        top <= bottom < old(grid)@.lines.len(),
    ensures
        final(grid).wf(),
        final(grid)@ == TerminalModel::grid_lines_down(
            old(grid)@,
            top as int,
            bottom as int,
            n as nat,
        ),
        final(grid)@.lines.len() == old(grid)@.lines.len(),
        final(grid)@.cols == old(grid)@.cols,
{
    let mut i: usize = 0;
    while i < n
        invariant
            i <= n,
            grid.wf(),
            top <= bottom < grid@.lines.len(),
            grid@.lines.len() == old(grid)@.lines.len(),
            grid@.cols == old(grid)@.cols,
            grid@ == TerminalModel::grid_lines_down(
                old(grid)@,
                top as int,
                bottom as int,
                i as nat,
            ),
        decreases n - i,
    {
        grid.move_lines_down(top, bottom);
        i = i + 1;
    }
}

fn lines_up_times(grid: &mut TerminalGrid, top: usize, bottom: usize, n: usize)
    requires
        old(grid).wf(),
        top <= bottom < old(grid)@.lines.len(),
    ensures
        final(grid).wf(),
        final(grid)@ == TerminalModel::grid_lines_up(
            old(grid)@,
            top as int,
            bottom as int,
            n as nat,
        ),
        final(grid)@.lines.len() == old(grid)@.lines.len(),
        final(grid)@.cols == old(grid)@.cols,
{
    let mut i: usize = 0;
    while i < n
        invariant
            i <= n,
            grid.wf(),
            top <= bottom < grid@.lines.len(),
            grid@.lines.len() == old(grid)@.lines.len(),
            grid@.cols == old(grid)@.cols,
            grid@ == TerminalModel::grid_lines_up(old(grid)@, top as int, bottom as int, i as nat),
        decreases n - i,
    {
        grid.move_lines_up(top, bottom);
        i = i + 1;
    }
}

fn insert_times(grid: &mut TerminalGrid, row: usize, col: usize, n: usize, blank: TerminalCell)
    requires
        old(grid).wf(),
        row < old(grid)@.lines.len(),
        col < old(grid)@.cols,
    ensures
        final(grid).wf(),
        final(grid)@ == old(grid)@.with_line(
            row as int,
            TerminalModel::line_with_inserted(
                old(grid)@.lines[row as int],
                col as int,
                n as nat,
                blank,
            ),
        ),
{
    let ghost line = grid@.lines[row as int];
    proof {
        TerminalGrid::view_is_wf(&*grid);
        assert(grid@.lines =~= grid@.with_line(row as int, line).lines);
    }
    let mut i: usize = 0;
    while i < n
        invariant
            i <= n,
            grid.wf(),
            row < old(grid)@.lines.len(),
            col < old(grid)@.cols,
            grid@.lines.len() == old(grid)@.lines.len(),
            grid@.cols == old(grid)@.cols,
            grid@ == old(grid)@.with_line(
                row as int,
                TerminalModel::line_with_inserted(line, col as int, i as nat, blank),
            ),
        decreases n - i,
    {
        grid.insert_cell_in_row(row, col, blank);
        proof {
            assert(grid@.lines =~= old(grid)@.with_line(
                row as int,
                TerminalModel::line_with_inserted(line, col as int, (i + 1) as nat, blank),
            ).lines);
        }
        i = i + 1;
    }
}

fn delete_times(grid: &mut TerminalGrid, row: usize, col: usize, n: usize, blank: TerminalCell)
    requires
        old(grid).wf(),
        row < old(grid)@.lines.len(),
        col < old(grid)@.cols,
    ensures
        final(grid).wf(),
        final(grid)@ == old(grid)@.with_line(
            row as int,
            TerminalModel::line_with_deleted(
                old(grid)@.lines[row as int],
                col as int,
                n as nat,
                blank,
            ),
        ),
{
    let ghost line = grid@.lines[row as int];
    let last: usize = grid.row_len() - 1;
    proof {
        TerminalGrid::view_is_wf(&*grid);
        assert(grid@.lines =~= grid@.with_line(row as int, line).lines);
    }
    let mut i: usize = 0;
    while i < n
        invariant
            i <= n,
            grid.wf(),
            row < old(grid)@.lines.len(),
            col < old(grid)@.cols,
            last == old(grid)@.cols - 1,
            line.len() == old(grid)@.cols,
            grid@.lines.len() == old(grid)@.lines.len(),
            grid@.cols == old(grid)@.cols,
            grid@ == old(grid)@.with_line(
                row as int,
                TerminalModel::line_with_deleted(line, col as int, i as nat, blank),
            ),
        decreases n - i,
    {
        grid.remove_cell_from_row(row, col);
        *grid.get_mut(row, last) = blank;
        proof {
            assert(grid@.lines =~= old(grid)@.with_line(
                row as int,
                TerminalModel::line_with_deleted(line, col as int, (i + 1) as nat, blank),
            ).lines);
        }
        i = i + 1;
    }
}

} // verus!
