//! A change of the screen's size.

use super::model::TerminalModel;
use super::state::TerminalState;
use super::types::{clamp_terminal_dimensions, clamped, MAX_TERMINAL_COLS, MAX_TERMINAL_ROWS};
use crate::grid::TerminalGrid;
use crate::scrollback::ScrollbackLine;
use vstd::prelude::*;

verus! {

/// Versions for another number of lines.
pub open spec fn resized_versions(versions: Seq<u64>, rows: int, version: u64) -> Seq<u64> {
    Seq::new(
        rows as nat,
        |r: int|
            if r < versions.len() {
                versions[r]
            } else {
                version
            },
    )
}

/// Tab stops for another number of columns; new columns get the standard ones.
pub open spec fn resized_stops(stops: Seq<bool>, cols: int) -> Seq<bool> {
    Seq::new(
        cols as nat,
        |c: int|
            if c < stops.len() {
                stops[c]
            } else {
                c % 8 == 0 && c != 0
            },
    )
}

pub open spec fn at_most(n: int, limit: int) -> int {
    if n < limit {
        n
    } else {
        limit
    }
}

impl TerminalModel {
    /// The first `n` lines of the screen entered the scrollback.
    pub open spec fn lines_pushed(self, n: nat) -> Self
        decreases n,
    {
        if n == 0 {
            self
        } else {
            self.lines_pushed((n - 1) as nat).pushed(self.leaving_line(n - 1))
        }
    }

    /// How many lines leave at the top where the screen gets fewer lines: as many as
    /// the cursor can go up with the text.
    pub open spec fn lines_over(self, rows: int) -> int {
        if !self.use_alt_buffer && self.rows() > rows {
            at_most(self.rows() - rows, self.cursor_row)
        } else {
            0
        }
    }

    /// The text moved up so that the cursor stays on a screen of fewer lines.
    #[verifier::opaque]
    pub open spec fn shrunk(self, rows: int) -> Self {
        let n = self.lines_over(rows);
        if n > 0 {
            TerminalModel {
                grid: self.grid.raised(n),
                cursor_row: self.cursor_row - n,
                saved_cursor_row: if self.saved_cursor_row > n {
                    self.saved_cursor_row - n
                } else {
                    0
                },
                ..self.lines_pushed(n as nat)
            }
        } else {
            self
        }
    }

    /// The grids, the versions and the tab stops in another size.
    #[verifier::opaque]
    pub open spec fn recut(self, cols: int, rows: int) -> Self {
        TerminalModel {
            grid: self.grid.resized(rows as nat, cols as nat, self.blank()),
            alt_grid: self.alt_grid.resized(rows as nat, cols as nat, self.blank()),
            row_versions: resized_versions(self.row_versions, rows, self.grid_version),
            tab_stops: resized_stops(self.tab_stops, cols),
            scroll_offset: 0,
            cursor_row: at_most(self.cursor_row, rows - 1),
            cursor_col: at_most(self.cursor_col, cols - 1),
            saved_cursor_row: at_most(self.saved_cursor_row, rows - 1),
            saved_cursor_col: at_most(self.saved_cursor_col, cols - 1),
            alt_cursor_row: at_most(self.alt_cursor_row, rows - 1),
            alt_cursor_col: at_most(self.alt_cursor_col, cols - 1),
            scroll_region_top: self.region_within(rows).0,
            scroll_region_bottom: self.region_within(rows).1,
            ..self
        }
    }

    /// The scroll region on a screen of `rows` lines: a region that was the whole
    /// screen stays so.
    pub open spec fn region_within(self, rows: int) -> (int, int) {
        let top = at_most(self.scroll_region_top, rows - 1);
        let bottom = at_most(self.scroll_region_bottom, rows - 1);
        if (self.scroll_region_top == 0 && self.scroll_region_bottom + 1 >= self.rows()) || top
            > bottom {
            (0, rows - 1)
        } else {
            (top, bottom)
        }
    }

    /// The terminal in another size, brought into the supported range.
    pub open spec fn resized(self, cols: int, rows: int) -> Self {
        if cols == 0 || rows == 0 {
            self
        } else {
            let c = clamped(cols, 1, MAX_TERMINAL_COLS as int);
            let r = clamped(rows, 1, MAX_TERMINAL_ROWS as int);
            self.shrunk(r).recut(c, r)
        }
    }
}

/// Lines that enter the scrollback change nothing else, but for the view into it.
pub(crate) proof fn lemma_lines_pushed(m: TerminalModel, n: nat)
    requires
        m.wf(),
    ensures
        ({
            let p = m.lines_pushed(n);
            &&& p == (TerminalModel {
                scrollback: p.scrollback,
                scroll_offset: p.scroll_offset,
                visible_cache: p.visible_cache,
                ..m
            })
        }),
    decreases n,
{
    if n > 0 {
        lemma_lines_pushed(m, (n - 1) as nat);
    }
}

fn min_of(n: usize, limit: usize) -> (v: usize)
    ensures
        v == at_most(n as int, limit as int),
{
    if n < limit {
        n
    } else {
        limit
    }
}

fn resize_versions(versions: &Vec<u64>, rows: usize, version: u64) -> (resized: Vec<u64>)
    ensures
        resized@ == resized_versions(versions@, rows as int, version),
{
    let mut resized: Vec<u64> = Vec::new();
    let mut r: usize = 0;
    while r < rows
        invariant
            r <= rows,
            resized@ == resized_versions(versions@, r as int, version),
        decreases rows - r,
    {
        let v: u64 = if r < versions.len() {
            versions[r]
        } else {
            version
        };
        proof {
            assert(resized@.push(v) =~= resized_versions(versions@, r + 1, version));
        }
        resized.push(v);
        r = r + 1;
    }
    resized
}

fn resize_stops(stops: &Vec<bool>, cols: usize) -> (resized: Vec<bool>)
    ensures
        resized@ == resized_stops(stops@, cols as int),
{
    let mut resized: Vec<bool> = Vec::new();
    let mut c: usize = 0;
    while c < cols
        invariant
            c <= cols,
            resized@ == resized_stops(stops@, c as int),
        decreases cols - c,
    {
        let v = if c < stops.len() {
            stops[c]
        } else {
            c % 8 == 0 && c != 0
        };
        proof {
            assert(resized@.push(v) =~= resized_stops(stops@, c + 1));
        }
        resized.push(v);
        c = c + 1;
    }
    resized
}

impl TerminalState {
    /// Puts the first `n` lines of the screen into the scrollback.
    fn push_top_lines(&mut self, n: usize)
        requires
            old(self).wf(),
            n <= old(self)@.rows(),
        ensures
            final(self).wf(),
            final(self)@ == old(self)@.lines_pushed(n as nat),
            final(self).kitty_graphics == old(self).kitty_graphics,
            final(self).sync_output_start == old(self).sync_output_start,
    {
        let mut r: usize = 0;
        while r < n
            invariant
                r <= n <= old(self)@.rows(),
                old(self).wf(),
                self.wf(),
                self@ == old(self)@.lines_pushed(r as nat),
                self.kitty_graphics == old(self).kitty_graphics,
                self.sync_output_start == old(self).sync_output_start,
            decreases n - r,
        {
            proof {
                lemma_lines_pushed(old(self)@, r as nat);
                TerminalGrid::view_is_wf(&self.grid);
            }
            let line = ScrollbackLine::compress(self.grid.row(r), self.grid.is_wrapped(r));
            self.push_scrollback_compressed(line);
            r = r + 1;
        }
    }

    /// Moves the text up so that the cursor stays on a screen of fewer lines.
    fn shrink(&mut self, rows: usize)
        requires
            old(self).wf(),
            rows >= 1,
        ensures
            final(self).wf(),
            final(self)@ == old(self)@.shrunk(rows as int),
            final(self).kitty_graphics == old(self).kitty_graphics,
            final(self).sync_output_start == old(self).sync_output_start,
    {
        proof {
            reveal(TerminalModel::shrunk);
        }
        let old_rows: usize = self.grid.rows();
        if self.use_alt_buffer || old_rows <= rows {
            return ;
        }
        let n: usize = min_of(old_rows - rows, self.cursor_row);
        if n == 0 {
            return ;
        }
        self.push_top_lines(n);
        proof {
            lemma_lines_pushed(old(self)@, n as nat);
        }
        self.grid.raise(n);
        proof {
            TerminalGrid::view_is_wf(&self.grid);
        }
        self.cursor_row = self.cursor_row - n;
        self.saved_cursor_row = self.saved_cursor_row.saturating_sub(n);
    }

    /// The scroll region on a screen of `rows` lines.
    fn region_for(&self, rows: usize) -> (region: (usize, usize))
        requires
            self.wf(),
            rows >= 1,
        ensures
            (region.0 as int, region.1 as int) == self@.region_within(rows as int),
    {
        let last: usize = rows - 1;
        let top: usize = min_of(self.scroll_region_top, last);
        let bottom: usize = min_of(self.scroll_region_bottom, last);
        if (self.scroll_region_top == 0 && self.scroll_region_bottom + 1 >= self.grid.rows()) || top
            > bottom {
            (0, last)
        } else {
            (top, bottom)
        }
    }

    fn recut(&mut self, cols: usize, rows: usize)
        requires
            old(self).wf(),
            1 <= cols <= MAX_TERMINAL_COLS,
            1 <= rows <= MAX_TERMINAL_ROWS,
        ensures
            final(self).wf(),
            final(self)@ == old(self)@.recut(cols as int, rows as int),
            final(self).kitty_graphics == old(self).kitty_graphics,
            final(self).sync_output_start == old(self).sync_output_start,
    {
        proof {
            reveal(TerminalModel::recut);
            assert(rows * cols <= 512 * 1024) by (nonlinear_arith)
                requires
                    rows <= 512,
                    cols <= 1024,
            ;
        }
        let blank = self.create_blank_cell();
        let region = self.region_for(rows);
        self.grid.resize(rows, cols, blank);
        self.alt_grid.resize(rows, cols, blank);
        proof {
            TerminalGrid::view_is_wf(&self.grid);
            TerminalGrid::view_is_wf(&self.alt_grid);
        }
        self.row_versions = resize_versions(&self.row_versions, rows, self.grid_version);
        self.tab_stops = resize_stops(&self.tab_stops, cols);
        self.scroll_offset = 0;
        self.cursor_row = min_of(self.cursor_row, rows - 1);
        self.cursor_col = min_of(self.cursor_col, cols - 1);
        self.saved_cursor_row = min_of(self.saved_cursor_row, rows - 1);
        self.saved_cursor_col = min_of(self.saved_cursor_col, cols - 1);
        self.alt_cursor_row = min_of(self.alt_cursor_row, rows - 1);
        self.alt_cursor_col = min_of(self.alt_cursor_col, cols - 1);
        self.scroll_region_top = region.0;
        self.scroll_region_bottom = region.1;
    }

    /// Changes the size of the screen. Where the main screen gets fewer lines, its
    /// first lines enter the scrollback as far as the cursor can go up with the text;
    /// the rest is cut off at the bottom. Text is not rewrapped.
    pub fn on_resize(&mut self, cols: usize, rows: usize)
        requires
            old(self).wf(),
        ensures
            final(self).wf(),
            final(self)@ == old(self)@.resized(cols as int, rows as int),
            final(self).kitty_graphics == old(self).kitty_graphics,
            final(self).sync_output_start == old(self).sync_output_start,
    {
        if cols == 0 || rows == 0 {
            return ;
        }
        let (cols, rows) = clamp_terminal_dimensions(cols, rows);
        self.shrink(rows);
        self.recut(cols, rows);
    }

    /// Columns and rows.
    pub fn get_dimensions(&self) -> (size: (usize, usize))
        requires
            self.wf(),
        ensures
            size.0 == self@.cols(),
            size.1 == self@.rows(),
    {
        (self.grid.row_len(), self.grid.rows())
    }
}

} // verus!
