//! Operations on the screen: marking, scrolling, printing, erasing.

use super::model::{erase_cell, erase_span, place_in, shifted_right, write_char, TerminalModel};
use super::state::{scrollback_view, TerminalState};
use super::types::{Charset, MAX_TERMINAL_COLS, MAX_TERMINAL_ROWS};
use crate::cell::TerminalCell;
use crate::char_width::{cached_char_width, char_width, WIDEST};
use crate::grid::TerminalGrid;
use crate::scrollback::ScrollbackLine;
use vstd::prelude::*;

verus! {

/// Adds a line to the scrollback; the oldest gives way where the limit is reached.
fn push_bounded(
    scrollback: &mut std::collections::VecDeque<ScrollbackLine>,
    limit: usize,
    line: ScrollbackLine,
)
    requires
        limit >= 1,
    ensures
        scrollback_view(final(scrollback)@) == (if old(scrollback)@.len() >= limit {
            scrollback_view(old(scrollback)@).drop_first()
        } else {
            scrollback_view(old(scrollback)@)
        }).push(line@),
        final(scrollback)@.len() == (if old(scrollback)@.len() >= limit && old(scrollback)@.len()
            > 0 {
            old(scrollback)@.len()
        } else {
            old(scrollback)@.len() + 1
        }),
{
    let ghost before = scrollback@;
    if scrollback.len() >= limit {
        scrollback.pop_front();
        proof {
            if before.len() > 0 {
                assert(scrollback_view(scrollback@) =~= scrollback_view(before).drop_first());
            } else {
                assert(scrollback_view(scrollback@) =~= scrollback_view(before));
            }
        }
    }
    let ghost room = scrollback@;
    scrollback.push_back(line);
    proof {
        assert(scrollback_view(scrollback@) =~= scrollback_view(room).push(line@));
    }
}

/// The place of a column is not above that of the column to its left.
proof fn lemma_place_moves_on(cols: int, row: int, col: int)
    requires
        cols > 0,
        col > 0,
    ensures
        place_in(cols, row, col - 1).0 <= place_in(cols, row, col).0,
    decreases col,
{
    if col > cols {
        lemma_place_moves_on(cols, row + 1, col - cols);
    } else if col == cols {
        assert(place_in(cols, row, col) == place_in(cols, row + 1, 0));
        assert(place_in(cols, row + 1, 0) == (row + 1, 0int));
    }
}

/// Writes one character into a line of the grid.
fn write_char_at(
    grid: &mut TerminalGrid,
    row: usize,
    col: usize,
    cell: TerminalCell,
    wide: bool,
    blank: TerminalCell,
)
    requires
        old(grid).wf(),
        row < old(grid)@.lines.len(),
        col < old(grid)@.cols,
    ensures
        final(grid).wf(),
        final(grid)@ == old(grid)@.with_line(
            row as int,
            write_char(old(grid)@.lines[row as int], col as int, cell, wide, blank),
        ),
{
    proof {
        TerminalGrid::view_is_wf(&*grid);
    }
    let cols: usize = grid.row_len();
    // Overwriting the second half of a wide character clears the first.
    if col > 0 && grid.get(row, col).flags.wide_continuation() {
        *grid.get_mut(row, col - 1) = blank;
    }
    // Overwriting the first half of a wide character clears the second.
    if grid.get(row, col).flags.wide() && col + 1 < cols {
        *grid.get_mut(row, col + 1) = blank;
    }
    *grid.get_mut(row, col) = cell;
    // A wide character claims the next cell.
    if wide && col + 1 < cols {
        let mut half = blank;
        half.flags.set_wide_continuation(true);
        *grid.get_mut(row, col + 1) = half;
    }
    proof {
        let line = write_char(old(grid)@.lines[row as int], col as int, cell, wide, blank);
        assert(grid@.lines[row as int] =~= line);
        assert(grid@.lines =~= old(grid)@.with_line(row as int, line).lines);
    }
}

/// Erases one cell of a line of the grid.
fn erase_cell_at(grid: &mut TerminalGrid, row: usize, col: usize, blank: TerminalCell)
    requires
        old(grid).wf(),
        row < old(grid)@.lines.len(),
        col < old(grid)@.cols,
    ensures
        final(grid).wf(),
        final(grid)@ == old(grid)@.with_line(
            row as int,
            erase_cell(old(grid)@.lines[row as int], col as int, blank),
        ),
{
    proof {
        TerminalGrid::view_is_wf(&*grid);
    }
    let cols: usize = grid.row_len();
    if grid.get(row, col).flags.wide_continuation() && col > 0 {
        *grid.get_mut(row, col - 1) = blank;
    }
    if grid.get(row, col).flags.wide() && col + 1 < cols {
        *grid.get_mut(row, col + 1) = blank;
    }
    *grid.get_mut(row, col) = blank;
    proof {
        let line = erase_cell(old(grid)@.lines[row as int], col as int, blank);
        assert(grid@.lines[row as int] =~= line);
        assert(grid@.lines =~= old(grid)@.with_line(row as int, line).lines);
    }
}

/// Erases the cells `from .. to` of a line of the grid.
pub(crate) fn erase_span_at(
    grid: &mut TerminalGrid,
    row: usize,
    from: usize,
    to: usize,
    blank: TerminalCell,
)
    requires
        old(grid).wf(),
        row < old(grid)@.lines.len(),
        to <= old(grid)@.cols,
    ensures
        final(grid).wf(),
        final(grid)@ == old(grid)@.with_line(
            row as int,
            erase_span(old(grid)@.lines[row as int], from as int, to as int, blank),
        ),
{
    let mut col: usize = from;
    proof {
        TerminalGrid::view_is_wf(&*grid);
        assert(grid@.lines =~= old(grid)@.with_line(row as int, grid@.lines[row as int]).lines);
    }
    while col < to
        invariant
            from <= col,
            col <= to || col == from,
            grid.wf(),
            row < grid@.lines.len(),
            to <= grid@.cols,
            grid@ == old(grid)@.with_line(row as int, grid@.lines[row as int]),
            row < old(grid)@.lines.len(),
            erase_span(grid@.lines[row as int], col as int, to as int, blank) == erase_span(
                old(grid)@.lines[row as int],
                from as int,
                to as int,
                blank,
            ),
        decreases to - col,
    {
        let ghost before = grid@;
        erase_cell_at(grid, row, col, blank);
        proof {
            assert(grid@.lines =~= old(grid)@.with_line(row as int, grid@.lines[row as int]).lines);
        }
        col = col + 1;
    }
}

impl TerminalState {
    pub(crate) fn create_blank_cell(&self) -> (cell: TerminalCell)
        ensures
            cell == self@.blank(),
    {
        TerminalCell::new_blank(self.current_bg)
    }

    /// Stamps the lines `start ..= end` with the current version.
    pub(crate) fn mark_rows_dirty(&mut self, start: usize, end: usize)
        requires
            old(self).wf(),
            end < old(self)@.rows(),
        ensures
            final(self).wf(),
            final(self)@ == old(self)@.stamped(start as int, end as int),
            final(self).kitty_graphics == old(self).kitty_graphics,
            final(self).sync_output_start == old(self).sync_output_start,
            final(self).widest == old(self).widest,
    {
        let version: u64 = self.grid_version;
        let mut row: usize = start;
        let ghost n = self.row_versions@.len();
        while row <= end
            invariant
                start <= row,
                row <= end + 1 || row == start,
                end < n,
                n <= MAX_TERMINAL_ROWS,
                version == old(self).grid_version,
                n == old(self).row_versions@.len(),
                self.row_versions@.len() == n,
                *self == (TerminalState { row_versions: self.row_versions, ..*old(self) }),
                forall|r: int|
                    0 <= r < n ==> #[trigger] self.row_versions@[r] == (if start <= r < row {
                        version
                    } else {
                        old(self).row_versions@[r]
                    }),
            decreases end + 1 - row,
        {
            self.row_versions.set(row, version);
            row = row + 1;
        }
        proof {
            assert(self.row_versions@ =~= old(self)@.stamped(start as int, end as int).row_versions);
        }
    }

    pub(crate) fn mark_row_dirty(&mut self, row: usize)
        requires
            old(self).wf(),
            row < old(self)@.rows(),
        ensures
            final(self).wf(),
            final(self)@ == old(self)@.stamped(row as int, row as int),
            final(self).kitty_graphics == old(self).kitty_graphics,
            final(self).sync_output_start == old(self).sync_output_start,
            final(self).widest == old(self).widest,
    {
        self.mark_rows_dirty(row, row);
    }

    pub(crate) fn touch_row(&mut self, row: usize)
        requires
            old(self).wf(),
            row < old(self)@.rows(),
        ensures
            final(self).wf(),
            final(self)@ == old(self)@.touched(row as int),
            final(self).kitty_graphics == old(self).kitty_graphics,
            final(self).sync_output_start == old(self).sync_output_start,
            final(self).widest == old(self).widest,
    {
        self.dirty_region.mark_row(row);
        self.mark_row_dirty(row);
    }

    pub(crate) fn touch_rows(&mut self, start: usize, end: usize)
        requires
            old(self).wf(),
            end < old(self)@.rows(),
        ensures
            final(self).wf(),
            final(self)@ == old(self)@.touched_rows(start as int, end as int),
            final(self).kitty_graphics == old(self).kitty_graphics,
            final(self).sync_output_start == old(self).sync_output_start,
            final(self).widest == old(self).widest,
    {
        self.dirty_region.mark_rows(start, end);
        self.mark_rows_dirty(start, end);
    }

    pub(crate) fn touch_all(&mut self)
        requires
            old(self).wf(),
        ensures
            final(self).wf(),
            final(self)@ == old(self)@.all_touched(),
            final(self).kitty_graphics == old(self).kitty_graphics,
            final(self).sync_output_start == old(self).sync_output_start,
            final(self).widest == old(self).widest,
    {
        let rows: usize = self.grid.rows();
        self.dirty_region.mark_all(rows);
        self.mark_rows_dirty(0, rows - 1);
    }

    /// How many lines the scrollback holds at most.
    fn most_held(&self) -> (n: usize)
        requires
            self.wf(),
        ensures
            n == self@.most_lines(),
            n >= 1,
    {
        if self.max_scrollback < usize::MAX - MAX_TERMINAL_ROWS {
            self.max_scrollback
        } else {
            usize::MAX - MAX_TERMINAL_ROWS
        }
    }

    #[verifier::spinoff_prover]
    #[verifier::rlimit(40)]
    pub(crate) fn push_scrollback_compressed(&mut self, line: ScrollbackLine)
        requires
            old(self).wf(),
        ensures
            final(self).wf(),
            final(self)@ == old(self)@.pushed(line@),
            final(self).kitty_graphics == old(self).kitty_graphics,
            final(self).sync_output_start == old(self).sync_output_start,
            final(self).widest == old(self).widest,
    {
        if self.use_alt_buffer {
            return;
        }
        let most: usize = self.most_held();
        push_bounded(&mut self.scrollback, most, line);
        // Keep a view into the past on its lines.
        if self.scroll_offset > 0 {
            let n: usize = self.scrollback.len();
            self.scroll_offset = if self.scroll_offset + 1 < n {
                self.scroll_offset + 1
            } else {
                n
            };
            self.visible_cells_cache = None;
        }
    }

    pub(crate) fn scroll_region_down(&mut self, top: usize, bottom: usize)
        requires
            old(self).wf(),
        ensures
            final(self).wf(),
            final(self)@ == old(self)@.region_down(top as int, bottom as int),
            final(self).kitty_graphics == old(self).kitty_graphics,
            final(self).sync_output_start == old(self).sync_output_start,
            final(self).widest == old(self).widest,
    {
        if top >= self.grid.rows() || bottom >= self.grid.rows() || top > bottom {
            return;
        }
        self.grid.move_lines_down(top, bottom);
        self.grid.move_marks_down(top, bottom);
        proof {
            TerminalGrid::view_is_wf(&self.grid);
        }
        self.touch_rows(top, bottom);
    }

    pub(crate) fn scroll_region_up(&mut self, top: usize, bottom: usize)
        requires
            old(self).wf(),
        ensures
            final(self).wf(),
            final(self)@ == old(self)@.region_up(top as int, bottom as int),
            final(self).kitty_graphics == old(self).kitty_graphics,
            final(self).sync_output_start == old(self).sync_output_start,
            final(self).widest == old(self).widest,
    {
        if top >= self.grid.rows() || bottom >= self.grid.rows() || top > bottom {
            return;
        }
        let full_screen = top == 0 && bottom + 1 == self.grid.rows();
        let leaving = if full_screen && !self.use_alt_buffer {
            let wrapped = self.grid.is_wrapped(top);
            Some(ScrollbackLine::compress(self.grid.row(top), wrapped))
        } else {
            None
        };
        self.grid.move_lines_up(top, bottom);
        self.grid.move_marks_up(top, bottom);
        proof {
            TerminalGrid::view_is_wf(&self.grid);
        }
        self.touch_rows(top, bottom);
        if let Some(line) = leaving {
            self.push_scrollback_compressed(line);
        }
    }

    /// Linefeed: scroll on the last line of the region, else move down.
    pub(crate) fn line_feed(&mut self)
        requires
            old(self).wf(),
        ensures
            final(self).wf(),
            final(self)@ == old(self)@.line_fed(),
            final(self).kitty_graphics == old(self).kitty_graphics,
            final(self).sync_output_start == old(self).sync_output_start,
            final(self).widest == old(self).widest,
    {
        if self.cursor_row == self.scroll_region_bottom {
            let top: usize = self.scroll_region_top;
            let bottom: usize = self.scroll_region_bottom;
            self.scroll_region_up(top, bottom);
        } else if self.cursor_row + 1 < self.grid.rows() {
            self.cursor_row = self.cursor_row + 1;
        }
    }

    /// Goes on at the start of the next line, within the scroll region, and marks
    /// the line that was left as continued.
    pub(crate) fn wrap_to_next_line(&mut self)
        requires
            old(self).wf(),
        ensures
            final(self).wf(),
            final(self)@ == old(self)@.wrapped_around(),
            final(self).kitty_graphics == old(self).kitty_graphics,
            final(self).sync_output_start == old(self).sync_output_start,
            final(self).widest == old(self).widest,
            final(self).cursor_col == 0,
            final(self)@.modes == old(self)@.modes,
            final(self)@.cols() == old(self)@.cols(),
    {
        proof {
            reveal(TerminalModel::wrapped_around);
        }
        let row: usize = self.cursor_row;
        self.grid.set_wrapped(row, true);
        self.cursor_col = 0;
        proof {
            TerminalGrid::view_is_wf(&self.grid);
        }
        self.line_feed();
    }

    /// Reverse index (RI).
    pub(crate) fn reverse_index(&mut self)
        requires
            old(self).wf(),
        ensures
            final(self).wf(),
            final(self)@ == old(self)@.reverse_indexed(),
            final(self).kitty_graphics == old(self).kitty_graphics,
            final(self).sync_output_start == old(self).sync_output_start,
            final(self).widest == old(self).widest,
    {
        proof {
            reveal(TerminalModel::reverse_indexed);
        }
        if self.cursor_row > self.scroll_region_top {
            self.cursor_row = self.cursor_row - 1;
        } else {
            let top: usize = self.scroll_region_top;
            let bottom: usize = self.scroll_region_bottom;
            self.scroll_region_down(top, bottom);
        }
    }

    /// Index (IND).
    pub(crate) fn index_down(&mut self)
        requires
            old(self).wf(),
        ensures
            final(self).wf(),
            final(self)@ == old(self)@.indexed(),
            final(self).kitty_graphics == old(self).kitty_graphics,
            final(self).sync_output_start == old(self).sync_output_start,
            final(self).widest == old(self).widest,
    {
        proof {
            reveal(TerminalModel::indexed);
        }
        if self.cursor_row < self.scroll_region_bottom {
            self.cursor_row = self.cursor_row + 1;
        } else {
            let top: usize = self.scroll_region_top;
            let bottom: usize = self.scroll_region_bottom;
            self.scroll_region_up(top, bottom);
        }
    }

    /// IRM (insert mode): moves the cells from `col` on to the right by `count`.
    pub(crate) fn shift_cells_right(&mut self, row: usize, col: usize, count: usize)
        requires
            old(self).wf(),
            row < old(self)@.rows(),
            count <= 255,
        ensures
            final(self).wf(),
            final(self)@ == old(self)@.made_room(row as int, col as int, count as int),
            final(self).kitty_graphics == old(self).kitty_graphics,
            final(self).sync_output_start == old(self).sync_output_start,
            final(self).widest == old(self).widest,
    {
        let cols: usize = self.grid.row_len();
        if count == 0 || col >= cols {
            return;
        }
        let ghost want = shifted_right(
            self@.grid.lines[row as int],
            col as int,
            count as int,
            self@.blank(),
        );
        proof {
            TerminalGrid::view_is_wf(&self.grid);
        }
        let blank = self.create_blank_cell();
        let mut line = self.grid.get_row(row);
        let ghost before = line@;
        let mut c: usize = cols;
        while c > col
            invariant
                col <= c <= cols,
                cols <= MAX_TERMINAL_COLS,
                count <= 255,
                before.len() == cols,
                line@.len() == cols,
                forall|k: int|
                    0 <= k < cols ==> #[trigger] line@[k] == (if k < c {
                        before[k]
                    } else if k < col + count {
                        blank
                    } else {
                        before[k - count]
                    }),
            decreases c,
        {
            c = c - 1;
            let cell = if c < col + count {
                blank
            } else {
                line[c - count]
            };
            line.set(c, cell);
        }
        proof {
            assert(line@ =~= want);
        }
        self.grid.write_cells(row, 0, line.as_slice(), cols);
        proof {
            assert(self@.grid.lines[row as int] =~= want);
            assert(self@.grid =~= old(self)@.grid.with_line(row as int, want));
            TerminalGrid::view_is_wf(&self.grid);
        }
        self.touch_row(row);
    }

    /// The cell at a column of a line, where the columns behind the last one are those of
    /// the lines below.
    fn place_of(&self, row: usize, col: usize) -> (place: (usize, usize))
        requires
            self.wf(),
            row < self@.rows(),
            col < self@.furthest(),
        ensures
            (place.0 as int, place.1 as int) == self@.place(row as int, col as int),
            place.1 < self@.cols(),
            row <= place.0,
            col > 0 ==> self@.place(row as int, col - 1).0 <= place.0,
    {
        let cols: usize = self.grid.row_len();
        let mut r: usize = row;
        let mut c: usize = col;
        while c >= cols
            invariant
                self.wf(),
                cols == self@.cols(),
                cols >= 1,
                row <= r,
                r + c <= row + col,
                row < self@.rows(),
                col < self@.furthest(),
                self@.place(row as int, col as int) == self@.place(r as int, c as int),
            decreases c,
        {
            c = c - cols;
            r = r + 1;
        }
        proof {
            if col > 0 {
                lemma_place_moves_on(cols as int, row as int, col as int);
            }
        }
        (r, c)
    }

    /// Joins a zero-width mark with the character before the cursor where the two
    /// have a single precomposed form; drops it otherwise.
    pub(crate) fn combine_with_previous(&mut self, mark: char)
        requires
            old(self).wf(),
        ensures
            final(self).wf(),
            final(self)@ == old(self)@.combined(mark),
            final(self).kitty_graphics == old(self).kitty_graphics,
            final(self).sync_output_start == old(self).sync_output_start,
            final(self).widest == old(self).widest,
    {
        if self.cursor_col == 0 {
            return;
        }
        let left: usize = self.cursor_col - 1;
        let rows: usize = self.grid.rows();
        let (mut row, mut col) = self.place_of(self.cursor_row, left);
        if row >= rows {
            return;
        }
        if left > 0 && self.grid.get(row, col).flags.wide_continuation() {
            let (base_row, base_col) = self.place_of(self.cursor_row, left - 1);
            row = base_row;
            col = base_col;
        }
        let cell = *self.grid.get(row, col);
        let mut pair = String::new();
        pair.push(cell.character);
        pair.push(mark);
        proof {
            assert(pair@ =~= seq![cell.character, mark]);
        }
        let composed = crate::text::chars_of(crate::outside::nfc(pair.as_str()).as_str());
        if composed.len() == 1 {
            let joined = TerminalCell { character: composed[0], ..cell };
            *self.grid.get_mut(row, col) = joined;
            proof {
                TerminalGrid::view_is_wf(&self.grid);
            }
            self.touch_row(self.cursor_row);
        }
    }

    /// A character in the active character set.
    pub(crate) fn translate_char(&self, ch: char) -> (c: char)
        ensures
            c == self@.translated(ch),
    {
        match self.active_charset {
            Charset::Ascii => ch,
            Charset::DecSpecialGraphics => match ch {
                '`' => '◆',
                'a' => '▒',
                'f' => '°',
                'g' => '±',
                'j' => '┘',
                'k' => '┐',
                'l' => '┌',
                'm' => '└',
                'n' => '┼',
                'o' => '⎺',
                'p' => '⎻',
                'q' => '─',
                'r' => '⎼',
                's' => '⎽',
                't' => '├',
                'u' => '┤',
                'v' => '┴',
                'w' => '┬',
                'x' => '│',
                'y' => '≤',
                'z' => '≥',
                '{' => 'π',
                '|' => '≠',
                '}' => '£',
                '~' => '·',
                _ => ch,
            },
        }
    }

    /// Makes a character of some width fit: wraps, or moves back from the edge.
    fn make_fit(&mut self, width: usize)
        requires
            old(self).wf(),
            1 <= width <= WIDEST,
        ensures
            final(self).wf(),
            final(self)@ == old(self)@.made_fit(width as int),
            final(self).kitty_graphics == old(self).kitty_graphics,
            final(self).sync_output_start == old(self).sync_output_start,
            final(self).widest == old(self).widest,
            final(self).cursor_col < final(self)@.cols(),
            final(self).cursor_col == 0 || final(self).cursor_col + width <= final(self)@.cols(),
    {
        let cols: usize = self.grid.row_len();
        if self.cursor_col + width > cols {
            // Only autowrap (mode 7) goes on to the next line.
            if self.modes.contains(7) {
                self.wrap_to_next_line();
            } else {
                self.cursor_col = if width < cols {
                    cols - width
                } else {
                    0
                };
            }
        }
    }

    /// Writes a character of some width at the cursor.
    fn write_at_cursor(&mut self, ch: char, width: usize)
        requires
            old(self).wf(),
            old(self).cursor_col < old(self)@.cols(),
            old(self).cursor_col == 0 || old(self).cursor_col + width <= old(self)@.cols(),
            1 <= width <= WIDEST,
        ensures
            final(self).wf(),
            final(self)@ == old(self)@.written(ch, width as int),
            final(self).kitty_graphics == old(self).kitty_graphics,
            final(self).sync_output_start == old(self).sync_output_start,
    {
        let cols: usize = self.grid.row_len();
        let row: usize = self.cursor_row;
        let col: usize = self.cursor_col;
        let blank_cell = self.create_blank_cell();
        let mut flags = self.current_flags;
        flags.set_wide(width == 2);
        flags.set_wide_continuation(false);
        let cell = TerminalCell {
            character: ch,
            foreground: self.current_fg,
            background: self.current_bg,
            flags,
        };
        write_char_at(&mut self.grid, row, col, cell, width == 2, blank_cell);
        proof {
            TerminalGrid::view_is_wf(&self.grid);
        }
        self.cursor_col = col + width;
        self.last_printed_char = Some(ch);
        self.widest = Ghost(
            if self.widest@ < width {
                width as int
            } else {
                self.widest@
            },
        );
        self.touch_row(row);
    }

    /// Prints one character.
    pub(crate) fn put_char(&mut self, ch: char)
        requires
            old(self).wf(),
        ensures
            final(self).wf(),
            final(self)@ == old(self)@.printed(ch),
            final(self).kitty_graphics == old(self).kitty_graphics,
            final(self).sync_output_start == old(self).sync_output_start,
            final(self).active_charset == old(self).active_charset,
            ({
                let c = old(self)@.translated(ch);
                if char_width(c) == 0 {
                    final(self).widest == old(self).widest
                } else {
                    &&& final(self).last_printed_char == Some(c)
                    &&& final(self).widest@ == (if old(self).widest@ < char_width(c) {
                        char_width(c) as int
                    } else {
                        old(self).widest@
                    })
                }
            }),
    {
        proof {
            reveal(TerminalModel::printed);
            reveal(TerminalModel::wrapped_around);
        }
        let ch = self.translate_char(ch);
        let width: usize = cached_char_width(ch);
        if width == 0 {
            self.combine_with_previous(ch);
            return;
        }
        self.make_fit(width);
        // IRM insert mode (mode 4): make room by shifting the line right.
        if self.modes.contains(4) {
            let row: usize = self.cursor_row;
            let col: usize = self.cursor_col;
            self.shift_cells_right(row, col, width);
        }
        self.write_at_cursor(ch, width);
    }

    /// Writes the first `n` bytes of a run at the cursor.
    fn write_run(&mut self, bytes: &[u8], n: usize)
        requires
            old(self).wf(),
            n <= bytes@.len(),
            old(self).cursor_col + n <= old(self)@.cols(),
            forall|i: int| 0 <= i < bytes@.len() ==> #[trigger] bytes@[i] < 128,
        ensures
            final(self).wf(),
            final(self)@ == old(self)@.run_written(bytes@, n as int),
            final(self).cursor_col == old(self).cursor_col + n,
            final(self).kitty_graphics == old(self).kitty_graphics,
            final(self).sync_output_start == old(self).sync_output_start,
            final(self).widest == old(self).widest,
            final(self)@.modes == old(self)@.modes,
            final(self)@.cols() == old(self)@.cols(),
    {
        proof {
            reveal(TerminalModel::run_written);
        }
        let row: usize = self.cursor_row;
        let col: usize = self.cursor_col;
        let mut flags = self.current_flags;
        flags.set_wide(false);
        flags.set_wide_continuation(false);
        let ghost want = self@.run_written(bytes@, n as int);
        let mut cells: Vec<TerminalCell> = Vec::new();
        let mut i: usize = 0;
        while i < n
            invariant
                i <= n <= bytes@.len(),
                cells@.len() == i,
                forall|k: int|
                    0 <= k < i ==> #[trigger] cells@[k] == (TerminalCell {
                        character: bytes@[k] as char,
                        foreground: self.current_fg,
                        background: self.current_bg,
                        flags,
                    }),
            decreases n - i,
        {
            cells.push(
                TerminalCell {
                    character: bytes[i] as char,
                    foreground: self.current_fg,
                    background: self.current_bg,
                    flags,
                },
            );
            i = i + 1;
        }
        proof {
            TerminalGrid::view_is_wf(&self.grid);
        }
        self.grid.write_cells(row, col, cells.as_slice(), n);
        proof {
            TerminalGrid::view_is_wf(&self.grid);
            assert(self.grid@.lines[row as int] =~= want.grid.lines[row as int]);
            assert(self.grid@.lines =~= want.grid.lines);
        }
        self.cursor_col = col + n;
        self.touch_row(row);
    }

    /// Leaves the cursor on the last column.
    fn hold_last_column(&mut self)
        requires
            old(self).wf(),
        ensures
            final(self).wf(),
            final(self)@ == (TerminalModel { cursor_col: old(self)@.cols() - 1, ..old(self)@ }),
            final(self).kitty_graphics == old(self).kitty_graphics,
            final(self).sync_output_start == old(self).sync_output_start,
            final(self).widest == old(self).widest,
    {
        proof {
            TerminalGrid::view_is_wf(&self.grid);
        }
        self.cursor_col = self.grid.row_len() - 1;
    }

    /// Prints a run of printable ASCII characters.
    #[verifier::spinoff_prover]
    #[verifier::rlimit(40)]
    pub(crate) fn put_ascii_run(&mut self, bytes: &[u8])
        requires
            old(self).wf(),
            bytes@.len() > 0,
            forall|i: int| 0 <= i < bytes@.len() ==> #[trigger] bytes@[i] < 128,
        ensures
            final(self).wf(),
            final(self)@ == old(self)@.run_printed(bytes@),
            final(self).kitty_graphics == old(self).kitty_graphics,
            final(self).sync_output_start == old(self).sync_output_start,
            final(self).widest == old(self).widest,
    {
        proof {
            reveal(TerminalModel::run_printed);
        }
        self.last_printed_char = Some(bytes[bytes.len() - 1] as char);
        let autowrap = self.modes.contains(7);
        let cols: usize = self.grid.row_len();
        if self.cursor_col > cols {
            self.cursor_col = cols;
        }
        let mut rest: &[u8] = bytes;
        let ghost goal = self@.run_placed(bytes@);
        while rest.len() > 0
            invariant
                self.wf(),
                goal == old(self)@.run_printed(bytes@),
                self.kitty_graphics == old(self).kitty_graphics,
                self.sync_output_start == old(self).sync_output_start,
                self.widest == old(self).widest,
                autowrap == self@.has(7),
                cols == self@.cols(),
                self.cursor_col <= cols,
                self@.run_placed(rest@) == goal,
                forall|i: int| 0 <= i < rest@.len() ==> #[trigger] rest@[i] < 128,
            decreases
                rest@.len(),
                if self.cursor_col >= cols {
                    1int
                } else {
                    0int
                },
        {
            let room: usize = cols - self.cursor_col;
            let n: usize = if rest.len() < room {
                rest.len()
            } else {
                room
            };
            proof {
                reveal_with_fuel(TerminalModel::run_placed, 1);
            }
            self.write_run(rest, n);
            if n < rest.len() {
                if autowrap {
                    self.wrap_to_next_line();
                } else {
                    self.hold_last_column();
                    return;
                }
            }
            let tail = vstd::slice::slice_subrange(rest, n, rest.len());
            rest = tail;
        }
        proof {
            reveal_with_fuel(TerminalModel::run_placed, 1);
        }
    }
}

} // verus!
