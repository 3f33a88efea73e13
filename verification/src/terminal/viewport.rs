//! What is shown: the live screen, or a view into the scrollback.

use super::model::TerminalModel;
use super::state::{lines_view, TerminalState};
use crate::cell::{Color, TerminalCell};
use crate::grid::TerminalGrid;
use crate::scrollback::{kept, LineModel, ScrollbackLine};
use crate::search::rows_of;
use std::sync::Arc;
use vstd::prelude::*;

verus! {

/// A cell that can be dropped at the end of a line.
pub open spec fn is_blank(cell: TerminalCell) -> bool {
    &&& cell.character == ' '
    &&& cell.background == Color::Default
    &&& !cell.flags@.wide
    &&& !cell.flags@.wide_continuation
}

/// A line without the blanks at its end.
pub open spec fn stripped(cells: Seq<TerminalCell>) -> Seq<TerminalCell>
    decreases cells.len(),
{
    if cells.len() > 0 && is_blank(cells.last()) {
        stripped(cells.drop_last())
    } else {
        cells
    }
}

/// How many lines the text that starts on line `i` goes over.
pub open spec fn logical_end(lines: Seq<LineModel>, i: int) -> int
    decreases lines.len() - i,
{
    if i >= lines.len() {
        lines.len() as int
    } else if lines[i].wrapped {
        logical_end(lines, i + 1)
    } else {
        i + 1
    }
}

/// The text of the lines `i .. end`, without the blanks at their ends.
pub open spec fn joined_text(lines: Seq<LineModel>, i: int, end: int) -> Seq<TerminalCell>
    decreases end - i,
{
    if i >= end {
        Seq::empty()
    } else {
        joined_text(lines, i, end - 1) + stripped(lines[end - 1].cells)
    }
}

/// A line of the given width: filled up with blanks, or cut off.
pub open spec fn of_width(line: Seq<TerminalCell>, cols: int, blank: TerminalCell) -> Seq<
    TerminalCell,
> {
    Seq::new(
        cols as nat,
        |c: int|
            if c < line.len() {
                line[c]
            } else {
                blank
            },
    )
}

/// A text cut into lines of the given width, of which all but the last go on in
/// the next.
pub open spec fn cut_into(text: Seq<TerminalCell>, cols: int, blank: TerminalCell) -> Seq<LineModel>
    decreases text.len(),
{
    if cols <= 0 || text.len() <= cols {
        seq![LineModel { cells: kept(of_width(text, cols, blank)), wrapped: false }]
    } else {
        seq![LineModel { cells: kept(text.subrange(0, cols)), wrapped: true }] + cut_into(
            text.subrange(cols, text.len() as int),
            cols,
            blank,
        )
    }
}

/// Lines rewrapped to another width, from line `i` on.
pub open spec fn reflowed(lines: Seq<LineModel>, i: int, cols: int, blank: TerminalCell) -> Seq<
    LineModel,
>
    decreases lines.len() - i,
{
    let end = logical_end(lines, i);
    if i >= lines.len() || end <= i || end > lines.len() {
        Seq::empty()
    } else {
        cut_into(joined_text(lines, i, end), cols, blank) + reflowed(lines, end, cols, blank)
    }
}

/// The first line of the text that goes over line `i`.
pub open spec fn logical_start(lines: Seq<LineModel>, i: int) -> int
    decreases i,
{
    if i > 0 && lines[i - 1].wrapped {
        logical_start(lines, i - 1)
    } else {
        i
    }
}

pub open spec fn not_below_zero(n: int) -> int {
    if n > 0 {
        n
    } else {
        0
    }
}

/// The cells of some lines.
pub open spec fn cells_of(lines: Seq<LineModel>) -> Seq<Seq<TerminalCell>> {
    Seq::new(lines.len(), |i: int| lines[i].cells)
}

/// The first `n` of some lines.
pub open spec fn first_lines(lines: Seq<Seq<TerminalCell>>, n: int) -> Seq<Seq<TerminalCell>> {
    if lines.len() <= n {
        lines
    } else {
        lines.subrange(0, n)
    }
}

impl TerminalModel {
    /// The scrollback, rewrapped to the current width, from a little above what is shown.
    pub open spec fn reflowed_scrollback(self) -> Seq<LineModel> {
        let from = logical_start(
            self.scrollback,
            not_below_zero(self.scrollback.len() - (self.scroll_offset + self.rows())),
        );
        reflowed(self.scrollback, from, self.cols(), self.blank())
    }

    /// What is shown: the screen, or, scrolled up by some lines, the end of the
    /// scrollback from there on with the screen behind it.
    #[verifier::opaque]
    pub open spec fn shown(self) -> Seq<Seq<TerminalCell>> {
        if self.scroll_offset == 0 {
            self.grid.lines
        } else {
            let past = self.reflowed_scrollback();
            let from = not_below_zero(past.len() - self.scroll_offset);
            first_lines(
                cells_of(past.subrange(from, past.len() as int)) + self.grid.lines,
                self.rows(),
            )
        }
    }

    /// The cells handed out: those kept for this version and scroll offset, or what
    /// is shown now.
    pub open spec fn visible_cells(self) -> Seq<Seq<TerminalCell>> {
        match self.visible_cache {
            Some((version, offset, cells)) => if version == self.grid_version && offset
                == self.scroll_offset {
                cells
            } else {
                self.shown()
            },
            None => self.shown(),
        }
    }

    /// The cells that were handed out are kept.
    #[verifier::opaque]
    pub open spec fn with_visible_kept(self) -> Self {
        TerminalModel {
            visible_cache: Some(
                (self.grid_version, self.scroll_offset as usize, self.visible_cells()),
            ),
            ..self
        }
    }
}

fn strip_trailing_blanks<'a>(cells: &'a [TerminalCell]) -> (rest: &'a [TerminalCell])
    ensures
        rest@ == stripped(cells@),
        rest@.len() <= cells@.len(),
{
    let mut end: usize = cells.len();
    proof {
        assert(cells@.subrange(0, end as int) =~= cells@);
    }
    while end > 0 && cells[end - 1].character == ' ' && cells[end - 1].background == Color::Default
        && !cells[end - 1].flags.wide() && !cells[end - 1].flags.wide_continuation()
        invariant
            end <= cells@.len(),
            stripped(cells@.subrange(0, end as int)) == stripped(cells@),
        decreases end,
    {
        proof {
            assert(cells@.subrange(0, end as int).drop_last() =~= cells@.subrange(0, end - 1));
        }
        end = end - 1;
    }
    vstd::slice::slice_subrange(cells, 0, end)
}

fn append_cells(text: &mut Vec<TerminalCell>, cells: &[TerminalCell])
    ensures
        final(text)@ == old(text)@ + cells@,
{
    let mut i: usize = 0;
    while i < cells.len()
        invariant
            i <= cells@.len(),
            text@ == old(text)@ + cells@.subrange(0, i as int),
        decreases cells@.len() - i,
    {
        proof {
            assert((old(text)@ + cells@.subrange(0, i as int)).push(cells@[i as int])
                =~= old(text)@ + cells@.subrange(0, i + 1));
        }
        text.push(cells[i]);
        i = i + 1;
    }
    proof {
        assert(cells@.subrange(0, i as int) =~= cells@);
    }
}

/// A line of the given width: filled up with blanks, or cut off.
fn fit_width(line: &[TerminalCell], cols: usize, blank: TerminalCell) -> (fitted: Vec<TerminalCell>)
    ensures
        fitted@ == of_width(line@, cols as int, blank),
{
    let mut fitted: Vec<TerminalCell> = Vec::new();
    let mut c: usize = 0;
    while c < cols
        invariant
            c <= cols,
            fitted@ == of_width(line@, c as int, blank),
        decreases cols - c,
    {
        let cell = if c < line.len() {
            line[c]
        } else {
            blank
        };
        proof {
            assert(fitted@.push(cell) =~= of_width(line@, c + 1, blank));
        }
        fitted.push(cell);
        c = c + 1;
    }
    fitted
}

/// What some lines of the scrollback hold.
pub open spec fn line_models(lines: Seq<ScrollbackLine>) -> Seq<LineModel> {
    Seq::new(lines.len(), |i: int| lines[i]@)
}

/// Cuts a text into lines and adds them to `lines`.
fn cut_text(lines: &mut Vec<ScrollbackLine>, text: &[TerminalCell], cols: usize, blank: TerminalCell)
    requires
        1 <= cols <= u16::MAX,
    ensures
        line_models(final(lines)@) == line_models(old(lines)@) + cut_into(
            text@,
            cols as int,
            blank,
        ),
{
    let len: usize = text.len();
    let mut i: usize = 0;
    let ghost all = cut_into(text@, cols as int, blank);
    let ghost before = line_models(lines@);
    proof {
        assert(text@.subrange(0, text@.len() as int) =~= text@);
    }
    while len - i > cols
        invariant
            1 <= cols <= u16::MAX,
            i <= len == text@.len(),
            all == cut_into(text@, cols as int, blank),
            line_models(lines@) + cut_into(
                text@.subrange(i as int, len as int),
                cols as int,
                blank,
            ) == before + all,
        decreases len - i,
    {
        let chunk = vstd::slice::slice_subrange(text, i, i + cols);
        let ghost rest = text@.subrange(i as int, len as int);
        let ghost done = line_models(lines@);
        let line = ScrollbackLine::compress(chunk, true);
        lines.push(line);
        proof {
            assert(rest.subrange(0, cols as int) =~= chunk@);
            assert(rest.subrange(cols as int, rest.len() as int) =~= text@.subrange(
                i + cols,
                len as int,
            ));
            assert(line_models(lines@) =~= done.push(line@));
            let tail = cut_into(text@.subrange(i + cols, len as int), cols as int, blank);
            assert(done + (seq![line@] + tail) =~= done.push(line@) + tail);
        }
        i = i + cols;
    }
    let last = fit_width(vstd::slice::slice_subrange(text, i, len), cols, blank);
    let ghost done = line_models(lines@);
    let line = ScrollbackLine::compress(last.as_slice(), false);
    lines.push(line);
    proof {
        assert(line_models(lines@) =~= done.push(line@));
        assert(done + seq![line@] =~= done.push(line@));
    }
}

/// A text ends behind where it starts.
proof fn lemma_logical_end(lines: Seq<LineModel>, i: int)
    requires
        0 <= i < lines.len(),
    ensures
        i < logical_end(lines, i) <= lines.len(),
    decreases lines.len() - i,
{
    if lines[i].wrapped {
        if i + 1 < lines.len() {
            lemma_logical_end(lines, i + 1);
        } else {
            assert(logical_end(lines, i + 1) == lines.len());
        }
    }
}

impl TerminalState {
    /// Lines `from ..` of the scrollback rewrapped to the given width.
    fn reflow_lines(&self, from: usize, new_cols: usize, blank: TerminalCell) -> (lines: Vec<
        ScrollbackLine,
    >)
        requires
            self.wf(),
            from <= self@.scrollback.len(),
            1 <= new_cols <= u16::MAX,
        ensures
            line_models(lines@) == reflowed(
                self@.scrollback,
                from as int,
                new_cols as int,
                blank,
            ),
    {
        let ghost all = self@.scrollback;
        let mut lines: Vec<ScrollbackLine> = Vec::new();
        let mut i: usize = from;
        let len: usize = self.scrollback.len();
        proof {
            assert(line_models(lines@) + reflowed(all, i as int, new_cols as int, blank)
                =~= reflowed(all, i as int, new_cols as int, blank));
        }
        while i < len
            invariant
                self.wf(),
                all == self@.scrollback,
                from <= i <= len == all.len(),
                1 <= new_cols <= u16::MAX,
                line_models(lines@) + reflowed(all, i as int, new_cols as int, blank) == reflowed(
                    all,
                    from as int,
                    new_cols as int,
                    blank,
                ),
            decreases len - i,
        {
            let start: usize = i;
            let ghost end = logical_end(all, start as int);
            proof {
                lemma_logical_end(all, start as int);
            }
            let mut text: Vec<TerminalCell> = Vec::new();
            let mut more = true;
            while more
                invariant
                    self.wf(),
                    all == self@.scrollback,
                    start <= i <= len == all.len(),
                    end == logical_end(all, start as int),
                    start < end <= len,
                    more ==> i < len && logical_end(all, i as int) == end,
                    !more ==> i == end,
                    text@ == joined_text(all, start as int, i as int),
                decreases len - i,
            {
                let cells = self.scrollback[i].decompress();
                let wraps = self.scrollback[i].wraps();
                proof {
                    assert(all[i as int] == self.scrollback@[i as int]@);
                }
                append_cells(&mut text, strip_trailing_blanks(cells.as_slice()));
                i = i + 1;
                more = wraps && i < len;
                proof {
                    if i == len {
                        assert(logical_end(all, i as int) == len);
                    }
                }
            }
            let ghost done = line_models(lines@);
            cut_text(&mut lines, text.as_slice(), new_cols, blank);
            proof {
                let cut = cut_into(text@, new_cols as int, blank);
                let tail = reflowed(all, end, new_cols as int, blank);
                assert(done + (cut + tail) =~= (done + cut) + tail);
            }
        }
        proof {
            let done = line_models(lines@);
            assert(done + Seq::<LineModel>::empty() =~= done);
        }
        lines
    }

    /// Where the text starts that goes over line `i` of the scrollback.
    fn find_logical_start(&self, i: usize) -> (start: usize)
        requires
            self.wf(),
            i <= self@.scrollback.len(),
        ensures
            start == logical_start(self@.scrollback, i as int),
            start <= i,
    {
        let mut start: usize = i;
        while start > 0 && self.scrollback[start - 1].wraps()
            invariant
                self.wf(),
                start <= i <= self@.scrollback.len(),
                logical_start(self@.scrollback, start as int) == logical_start(
                    self@.scrollback,
                    i as int,
                ),
            decreases start,
        {
            start = start - 1;
        }
        start
    }

    /// A line of the screen in the given width.
    fn normalize_line_width(&self, line: &[TerminalCell], cols: usize) -> (fitted: Vec<
        TerminalCell,
    >)
        ensures
            fitted@ == of_width(line@, cols as int, self@.blank()),
    {
        fit_width(line, cols, self.create_blank_cell())
    }

    /// The end of the scrollback with the screen behind it.
    fn past_cells(&self) -> (cells: Vec<Vec<TerminalCell>>)
        requires
            self.wf(),
            self@.scroll_offset > 0,
        ensures
            lines_view(cells@) == self@.shown(),
    {
        let rows: usize = self.grid.rows();
        let cols: usize = self.grid.row_len();
        let blank = self.create_blank_cell();
        let offset: usize = self.scroll_offset;
        let len: usize = self.scrollback.len();
        let first: usize = if rows < len && offset < len - rows {
            len - rows - offset
        } else {
            0
        };
        let start: usize = self.find_logical_start(first);
        let past = self.reflow_lines(start, cols, blank);
        let ghost models = line_models(past@);
        let from: usize = past.len().saturating_sub(offset);
        let ghost wanted = cells_of(models.subrange(from as int, models.len() as int))
            + self@.grid.lines;
        proof {
            reveal(TerminalModel::shown);
            TerminalGrid::view_is_wf(&self.grid);
            assert(models == self@.reflowed_scrollback());
        }
        let mut cells: Vec<Vec<TerminalCell>> = Vec::new();
        let mut i: usize = from;
        proof {
            assert(lines_view(cells@) =~= wanted.subrange(0, 0));
        }
        while i < past.len() && cells.len() < rows
            invariant
                from <= i <= past@.len(),
                models == line_models(past@),
                wanted == cells_of(models.subrange(from as int, models.len() as int))
                    + self@.grid.lines,
                cells@.len() == i - from,
                cells@.len() <= rows,
                lines_view(cells@) == wanted.subrange(0, cells@.len() as int),
            decreases past@.len() - i,
        {
            let ghost before = lines_view(cells@);
            let line = past[i].decompress();
            proof {
                assert(wanted[i - from] == models[i as int].cells);
            }
            cells.push(line);
            i = i + 1;
            proof {
                assert(lines_view(cells@) =~= before.push(line@));
                assert(lines_view(cells@) =~= wanted.subrange(0, cells@.len() as int));
            }
        }
        let mut r: usize = 0;
        while r < rows && cells.len() < rows
            invariant
                self.wf(),
                r <= rows == self@.rows(),
                cols == self@.cols(),
                r > 0 ==> i == past@.len(),
                cells@.len() < rows ==> i == past@.len(),
                from <= i <= past@.len() == models.len(),
                wanted == cells_of(models.subrange(from as int, models.len() as int))
                    + self@.grid.lines,
                cells@.len() == i - from + r,
                cells@.len() <= rows,
                lines_view(cells@) == wanted.subrange(0, cells@.len() as int),
            decreases rows - r,
        {
            proof {
                TerminalGrid::view_is_wf(&self.grid);
            }
            let ghost before = lines_view(cells@);
            let line = self.normalize_line_width(self.grid.row(r), cols);
            proof {
                assert(line@ =~= self@.grid.lines[r as int]);
                assert(wanted[cells@.len() as int] == self@.grid.lines[r as int]);
            }
            cells.push(line);
            r = r + 1;
            proof {
                assert(lines_view(cells@) =~= before.push(line@));
                assert(lines_view(cells@) =~= wanted.subrange(0, cells@.len() as int));
            }
        }
        proof {
            assert(cells@.len() == rows);
            assert(first_lines(wanted, rows as int) =~= lines_view(cells@));
        }
        cells
    }

    /// The cells on view. Where nothing has been drawn or scrolled since the last
    /// call, those that were handed out then.
    pub fn get_visible_cells(&mut self) -> (cells: Arc<Vec<Vec<TerminalCell>>>)
        requires
            old(self).wf(),
        ensures
            final(self).wf(),
            lines_view(cells@) == old(self)@.visible_cells(),
            final(self)@ == old(self)@.with_visible_kept(),
            final(self).kitty_graphics == old(self).kitty_graphics,
            final(self).sync_output_start == old(self).sync_output_start,
    {
        proof {
            reveal(TerminalModel::with_visible_kept);
        }
        if let Some((version, offset, cells)) = &self.visible_cells_cache {
            if *version == self.grid_version && *offset == self.scroll_offset {
                return Arc::clone(cells);
            }
        }
        let lines = if self.scroll_offset == 0 {
            let lines = self.grid.to_vec();
            proof {
                reveal(TerminalModel::shown);
                assert(lines_view(lines@) =~= self@.grid.lines);
            }
            lines
        } else {
            self.past_cells()
        };
        let cells = Arc::new(lines);
        self.visible_cells_cache = Some((self.grid_version, self.scroll_offset, Arc::clone(&cells)));
        cells
    }

    /// Whether each visible line goes on in the next. Not known while scrolled up.
    pub fn get_visible_row_wrapped(&self) -> (marks: Vec<bool>)
        requires
            self.wf(),
        ensures
            marks@ == (if self@.scroll_offset == 0 {
                self@.grid.wrapped
            } else {
                Seq::new(self@.rows() as nat, |r: int| false)
            }),
    {
        if self.scroll_offset == 0 {
            return self.grid.wrap_marks();
        }
        let rows: usize = self.grid.rows();
        let mut marks: Vec<bool> = Vec::new();
        let mut r: usize = 0;
        while r < rows
            invariant
                r <= rows,
                marks@ == Seq::new(r as nat, |k: int| false),
            decreases rows - r,
        {
            marks.push(false);
            r = r + 1;
            proof {
                assert(marks@ =~= Seq::new(r as nat, |k: int| false));
            }
        }
        proof {
            assert(marks@ =~= Seq::new(self@.rows() as nat, |k: int| false));
        }
        marks
    }

    // ---- scrolling the view ----

    pub fn max_scrollback(&self) -> (n: usize)
        ensures
            n == self@.max_scrollback,
    {
        self.max_scrollback
    }

    /// How many lines the scrollback holds: the most that the view can be scrolled up.
    pub fn scrollback_len(&self) -> (n: usize)
        ensures
            n == self@.scrollback.len(),
    {
        self.scrollback.len()
    }

    /// The line at the top of the view, counted from the oldest of the scrollback.
    pub fn viewport_absolute_start(&self) -> (row: usize)
        requires
            self.wf(),
        ensures
            row == self@.absolute(0),
    {
        self.scrollback.len() - self.scroll_offset
    }

    /// Everything that can be searched: the scrollback, and the screen below it.
    pub fn search_lines(&self) -> (lines: Vec<Vec<TerminalCell>>)
        requires
            self.wf(),
        ensures
            rows_of(lines@) == self@.all_lines(),
    {
        let mut lines: Vec<Vec<TerminalCell>> = Vec::new();
        let scrolled: usize = self.scrollback.len();
        let mut i: usize = 0;
        while i < scrolled
            invariant
                self.wf(),
                scrolled == self@.scrollback.len(),
                i <= scrolled,
                lines@.len() == i,
                forall|r: int| 0 <= r < i ==> (#[trigger] lines@[r])@ == self@.line_at(r),
            decreases scrolled - i,
        {
            lines.push(self.scrollback[i].decompress());
            i = i + 1;
        }
        let rows: usize = self.grid.rows();
        let mut row: usize = 0;
        while row < rows
            invariant
                self.wf(),
                scrolled == self@.scrollback.len(),
                rows == self@.rows(),
                row <= rows,
                lines@.len() == scrolled + row,
                forall|r: int| 0 <= r < scrolled + row ==> (#[trigger] lines@[r])@ == self@.line_at(r),
            decreases rows - row,
        {
            lines.push(self.grid.get_row(row));
            row = row + 1;
        }
        proof {
            assert(rows_of(lines@) =~= self@.all_lines());
        }
        lines
    }

    /// Scrolls the view to a line, counted from the oldest of the scrollback, unless it
    /// is in sight.
    pub fn reveal_buffer_row(&mut self, row: usize)
        requires
            old(self).wf(),
        ensures
            final(self).wf(),
            final(self)@ == old(self)@.revealed(row as int),
            final(self).kitty_graphics == old(self).kitty_graphics,
            final(self).sync_output_start == old(self).sync_output_start,
    {
        let start: usize = self.viewport_absolute_start();
        let rows: usize = self.grid.rows();
        if row >= start && row - start < rows {
            return ;
        }
        let top: usize = row.saturating_sub(rows / 2);
        self.set_scroll_offset(self.scrollback.len().saturating_sub(top));
    }

    /// Scrolls the view to a number of lines above the live screen, as far as there
    /// are lines. Does nothing while the alternate screen is shown.
    pub fn set_scroll_offset(&mut self, offset: usize)
        requires
            old(self).wf(),
        ensures
            final(self).wf(),
            final(self)@ == old(self)@.scrolled_to(offset as int),
            final(self).kitty_graphics == old(self).kitty_graphics,
            final(self).sync_output_start == old(self).sync_output_start,
    {
        if self.use_alt_buffer {
            return ;
        }
        let len: usize = self.scrollback.len();
        self.scroll_offset = if offset < len {
            offset
        } else {
            len
        };
    }

    /// Limits the scrollback to a number of lines, at least one; the oldest go.
    pub fn set_max_scrollback(&mut self, max_scrollback: usize)
        requires
            old(self).wf(),
        ensures
            final(self).wf(),
            final(self)@ == old(self)@.limited_to(max_scrollback as int),
            final(self).kitty_graphics == old(self).kitty_graphics,
            final(self).sync_output_start == old(self).sync_output_start,
    {
        let limit: usize = if max_scrollback > 1 {
            max_scrollback
        } else {
            1
        };
        let ghost before = self@;
        proof {
            assert(before.scrollback.subrange(0, before.scrollback.len() as int)
                =~= before.scrollback);
        }
        while self.scrollback.len() > limit
            invariant
                1 <= limit,
                self.kitty_graphics == old(self).kitty_graphics,
                self.grid == old(self).grid,
                self.alt_grid == old(self).alt_grid,
                self.dirty_region == old(self).dirty_region,
                self.sync_output_start == old(self).sync_output_start,
                before == old(self)@,
                self@ == (TerminalModel { scrollback: self@.scrollback, ..before }),
                self@.scrollback.len() <= before.scrollback.len(),
                self@.scrollback.len() >= limit || self@.scrollback.len()
                    == before.scrollback.len(),
                self@.scrollback == before.scrollback.subrange(
                    before.scrollback.len() - self@.scrollback.len(),
                    before.scrollback.len() as int,
                ),
            decreases self@.scrollback.len(),
        {
            let ghost now = self@.scrollback;
            self.scrollback.pop_front();
            proof {
                assert(self@.scrollback =~= now.drop_first());
                assert(self@.scrollback =~= before.scrollback.subrange(
                    before.scrollback.len() - self@.scrollback.len(),
                    before.scrollback.len() as int,
                ));
            }
        }
        self.max_scrollback = limit;
        let len: usize = self.scrollback.len();
        if self.scroll_offset > len {
            self.scroll_offset = len;
        }
    }

    /// Back to the live screen.
    pub fn scroll_to_bottom(&mut self)
        requires
            old(self).wf(),
        ensures
            final(self).wf(),
            final(self)@ == (TerminalModel { scroll_offset: 0, ..old(self)@ }),
            final(self).kitty_graphics == old(self).kitty_graphics,
            final(self).sync_output_start == old(self).sync_output_start,
    {
        self.scroll_offset = 0;
    }

    /// Scrolls the view up by a number of lines, down where it is negative, as far as
    /// there are lines. Does nothing while the alternate screen is shown.
    pub fn scroll(&mut self, lines: isize)
        requires
            old(self).wf(),
        ensures
            final(self).wf(),
            final(self)@ == old(self)@.scrolled_to(old(self)@.scroll_offset + lines),
            final(self).kitty_graphics == old(self).kitty_graphics,
            final(self).sync_output_start == old(self).sync_output_start,
    {
        let target: usize = if lines > 0 {
            self.scroll_offset.saturating_add(lines as usize)
        } else if lines == isize::MIN {
            self.scroll_offset.saturating_sub(isize::MAX as usize + 1)
        } else {
            self.scroll_offset.saturating_sub((-lines) as usize)
        };
        self.set_scroll_offset(target);
    }
}

impl TerminalModel {
    /// The lines from the oldest of the scrollback to the last of the screen.
    pub open spec fn all_lines(self) -> Seq<Seq<TerminalCell>> {
        Seq::new(self.total_rows() as nat, |r: int| self.line_at(r))
    }

    /// A line is brought into the middle of the view, unless it is in sight.
    pub open spec fn revealed(self, row: int) -> Self {
        if self.absolute(0) <= row < self.absolute(0) + self.rows() {
            self
        } else {
            self.scrolled_to(
                not_below_zero(self.scrollback.len() - not_below_zero(row - self.rows() / 2)),
            )
        }
    }

    /// The view scrolled up by `offset` lines, brought into the range that there is.
    pub open spec fn scrolled_to(self, offset: int) -> Self {
        if self.use_alt_buffer {
            self
        } else {
            TerminalModel {
                scroll_offset: if offset < 0 {
                    0
                } else if offset < self.scrollback.len() {
                    offset
                } else {
                    self.scrollback.len() as int
                },
                ..self
            }
        }
    }

    /// The scrollback limited to its newest lines.
    pub open spec fn limited_to(self, max: int) -> Self {
        let limit = if max > 1 {
            max
        } else {
            1
        };
        let n = self.scrollback.len();
        let scrollback = if n > limit {
            self.scrollback.subrange(n - limit, n as int)
        } else {
            self.scrollback
        };
        TerminalModel {
            max_scrollback: limit,
            scrollback,
            scroll_offset: if self.scroll_offset < scrollback.len() {
                self.scroll_offset
            } else {
                scrollback.len() as int
            },
            ..self
        }
    }
}

/// On the main screen a line that was scrolled to is in sight, whatever line it is.
pub proof fn a_revealed_line_is_in_sight(m: TerminalModel, row: int)
    requires
        m.wf(),
        !m.use_alt_buffer,
        0 <= row < m.total_rows(),
    ensures
        ({
            let after = m.revealed(row);
            after.absolute(0) <= row < after.absolute(0) + after.rows()
        }),
        m.revealed(row).line_at(row) == m.line_at(row),
{
}

} // verus!
