//! What the terminal is, and what each of its operations does to it, as
//! functions on plain mathematical values.

use super::dirty::line_range;
use super::modes::is_tracked;
use super::types::{
    Charset, CommandZone, SavedCursor, Selection, ZoneState, MAX_TERMINAL_COLS, MAX_TERMINAL_ROWS,
};
use crate::cell::{Color, CursorShape, StyleFlags, TerminalCell, UnderlineStyle};
use crate::char_width::{char_width, WIDEST};
use crate::grid::{line_of, GridModel};
use crate::outside::nfc_of;
use crate::scrollback::{kept, LineModel};
use vstd::prelude::*;

verus! {

/// The state of a terminal.
pub struct TerminalModel {
    pub grid: GridModel,
    pub alt_grid: GridModel,
    pub scrollback: Seq<LineModel>,
    pub selection: Option<Selection>,
    pub scroll_offset: int,
    pub max_scrollback: int,
    pub use_alt_buffer: bool,
    pub cursor_row: int,
    pub cursor_col: int,
    pub saved_cursor_row: int,
    pub saved_cursor_col: int,
    pub saved_cursor: Option<SavedCursor>,
    pub tab_stops: Seq<bool>,
    pub last_printed_char: Option<char>,
    /// The columns of the widest character that was ever written, one at least.
    pub widest: int,
    pub alt_cursor_row: int,
    pub alt_cursor_col: int,
    pub cursor_shape: CursorShape,
    pub current_fg: Color,
    pub current_bg: Color,
    pub current_flags: StyleFlags,
    pub window_title: Seq<char>,
    pub global_bg: Color,
    pub scroll_region_top: int,
    pub scroll_region_bottom: int,
    /// The bytes of a character that is not complete yet, and how many it has.
    pub utf8: Seq<u8>,
    pub utf8_expected: int,
    pub pending_escape: Seq<u8>,
    pub g0_charset: Charset,
    pub g1_charset: Charset,
    pub active_charset: Charset,
    pub ime_enabled: bool,
    pub preedit_text: Seq<char>,
    pub preedit_selection: Option<(usize, usize)>,
    pub modes: Set<u16>,
    pub output: Seq<u8>,
    pub keyboard_flags: u16,
    pub keyboard_stack: Seq<u16>,
    pub alt_keyboard_flags: u16,
    pub alt_keyboard_stack: Seq<u16>,
    pub modify_other_keys: u16,
    pub format_other_keys: u16,
    pub clipboard_requests: Seq<Option<Seq<char>>>,
    pub paste_password: Option<Seq<char>>,
    pub dirty: Set<int>,
    pub grid_version: u64,
    pub row_versions: Seq<u64>,
    pub visible_cache: Option<(u64, usize, Seq<Seq<TerminalCell>>)>,
    pub hyperlink: Option<(Seq<char>, Option<Seq<char>>)>,
    pub sync_output_active: bool,
    pub clipboard_set: Option<Seq<char>>,
    pub clipboard_query: bool,
    pub command_zones: Seq<CommandZone>,
    pub zone_state: ZoneState,
    pub dynamic_fg: Option<(u8, u8, u8)>,
    pub dynamic_bg: Option<(u8, u8, u8)>,
    pub dynamic_cursor_color: Option<(u8, u8, u8)>,
    pub notifications: Seq<(Seq<char>, Seq<char>)>,
}

/// The standard tab stops: every eighth column but the first.
pub open spec fn standard_tab_stops(cols: int) -> Seq<bool> {
    Seq::new(cols as nat, |c: int| c % 8 == 0 && c != 0)
}

/// One cell of a line erased: it becomes `blank`, and so does the other half of a
/// wide character that it is a part of.
pub open spec fn erase_cell(line: Seq<TerminalCell>, col: int, blank: TerminalCell) -> Seq<
    TerminalCell,
> {
    let a = if line[col].flags@.wide_continuation && col > 0 {
        line.update(col - 1, blank)
    } else {
        line
    };
    let b = if a[col].flags@.wide && col + 1 < line.len() {
        a.update(col + 1, blank)
    } else {
        a
    };
    b.update(col, blank)
}

/// The cells `from .. to` of a line erased, from left to right.
pub open spec fn erase_span(
    line: Seq<TerminalCell>,
    from: int,
    to: int,
    blank: TerminalCell,
) -> Seq<TerminalCell>
    decreases to - from,
{
    if from >= to {
        line
    } else {
        erase_span(erase_cell(line, from, blank), from + 1, to, blank)
    }
}

/// The cell at a column of a line among lines of `cols` columns, where the columns behind
/// the last one are those of the lines below.
pub open spec fn place_in(cols: int, row: int, col: int) -> (int, int)
    decreases col,
{
    if col < cols || cols <= 0 {
        (row, col)
    } else {
        place_in(cols, row + 1, col - cols)
    }
}

/// The first `n` cells of a line erased.
pub open spec fn first_erased(line: Seq<TerminalCell>, n: int, blank: TerminalCell) -> Seq<
    TerminalCell,
> {
    Seq::new(
        line.len(),
        |c: int|
            if c < n {
                blank
            } else {
                line[c]
            },
    )
}

/// The first `n` cells below a line erased, line by line.
pub open spec fn cells_below_erased(grid: GridModel, row: int, n: int, blank: TerminalCell) -> GridModel
    decreases grid.lines.len() - row,
{
    if n <= 0 || !(0 < row + 1 < grid.lines.len()) {
        grid
    } else {
        cells_below_erased(
            grid.with_line(row + 1, first_erased(grid.lines[row + 1], n, blank)),
            row + 1,
            n - grid.cols,
            blank,
        )
    }
}

/// Cells from `col` on moved right by `count`; blanks fill the gap and what goes
/// over the edge is lost.
pub open spec fn shifted_right(
    line: Seq<TerminalCell>,
    col: int,
    count: int,
    blank: TerminalCell,
) -> Seq<TerminalCell> {
    Seq::new(
        line.len(),
        |c: int|
            if c < col {
                line[c]
            } else if c < col + count {
                blank
            } else {
                line[c - count]
            },
    )
}

/// One character written into a line: a wide character that is overwritten in
/// part loses its other half, and a wide one claims the next cell.
pub open spec fn write_char(
    line: Seq<TerminalCell>,
    col: int,
    cell: TerminalCell,
    wide: bool,
    blank: TerminalCell,
) -> Seq<TerminalCell> {
    let a = if col > 0 && line[col].flags@.wide_continuation {
        line.update(col - 1, blank)
    } else {
        line
    };
    let b = if a[col].flags@.wide && col + 1 < line.len() {
        a.update(col + 1, blank)
    } else {
        a
    };
    let c = b.update(col, cell);
    if wide && col + 1 < line.len() {
        c.update(
            col + 1,
            TerminalCell { flags: blank.flags.with_wide_continuation(true), ..blank },
        )
    } else {
        c
    }
}

/// The DEC special graphics character set.
pub open spec fn graphics_char(ch: char) -> char {
    if ch == '`' {
        '◆'
    } else if ch == 'a' {
        '▒'
    } else if ch == 'f' {
        '°'
    } else if ch == 'g' {
        '±'
    } else if ch == 'j' {
        '┘'
    } else if ch == 'k' {
        '┐'
    } else if ch == 'l' {
        '┌'
    } else if ch == 'm' {
        '└'
    } else if ch == 'n' {
        '┼'
    } else if ch == 'o' {
        '⎺'
    } else if ch == 'p' {
        '⎻'
    } else if ch == 'q' {
        '─'
    } else if ch == 'r' {
        '⎼'
    } else if ch == 's' {
        '⎽'
    } else if ch == 't' {
        '├'
    } else if ch == 'u' {
        '┤'
    } else if ch == 'v' {
        '┴'
    } else if ch == 'w' {
        '┬'
    } else if ch == 'x' {
        '│'
    } else if ch == 'y' {
        '≤'
    } else if ch == 'z' {
        '≥'
    } else if ch == '{' {
        'π'
    } else if ch == '|' {
        '≠'
    } else if ch == '}' {
        '£'
    } else if ch == '~' {
        '·'
    } else {
        ch
    }
}

/// The first tab stop right of `col`, or the last column.
pub open spec fn next_stop(stops: Seq<bool>, col: int) -> int
    decreases stops.len() - col,
{
    if col + 1 >= stops.len() {
        if stops.len() > 0 {
            stops.len() - 1
        } else {
            0
        }
    } else if stops[col + 1] {
        col + 1
    } else {
        next_stop(stops, col + 1)
    }
}

/// The last tab stop left of `col`, or the first column.
pub open spec fn prev_stop(stops: Seq<bool>, col: int) -> int
    decreases col,
{
    if col <= 0 {
        0
    } else if col - 1 < stops.len() && stops[col - 1] {
        col - 1
    } else {
        prev_stop(stops, col - 1)
    }
}

pub open spec fn next_stops(stops: Seq<bool>, col: int, n: nat) -> int
    decreases n,
{
    if n == 0 {
        col
    } else {
        next_stops(stops, next_stop(stops, col), (n - 1) as nat)
    }
}

pub open spec fn prev_stops(stops: Seq<bool>, col: int, n: nat) -> int
    decreases n,
{
    if n == 0 {
        col
    } else {
        prev_stops(stops, prev_stop(stops, col), (n - 1) as nat)
    }
}

/// Versions of which those of the lines `first ..= last` are the given one.
pub open spec fn stamped_rows(versions: Seq<u64>, first: int, last: int, version: u64) -> Seq<u64> {
    Seq::new(
        versions.len(),
        |r: int|
            if first <= r <= last {
                version
            } else {
                versions[r]
            },
    )
}

/// A line with the first `n` of some ASCII characters from a column on.
pub open spec fn overwritten(
    line: Seq<TerminalCell>,
    col: int,
    bytes: Seq<u8>,
    n: int,
    style: TerminalCell,
) -> Seq<TerminalCell> {
    Seq::new(
        line.len(),
        |c: int|
            if col <= c < col + n {
                TerminalCell { character: bytes[c - col] as char, ..style }
            } else {
                line[c]
            },
    )
}

impl TerminalModel {
    pub open spec fn rows(self) -> int {
        self.grid.lines.len() as int
    }

    pub open spec fn cols(self) -> int {
        self.grid.cols as int
    }

    pub open spec fn has(self, mode: u16) -> bool {
        self.modes.contains(mode)
    }

    /// A blank on the current background.
    pub open spec fn blank(self) -> TerminalCell {
        TerminalCell::blank_on(self.current_bg)
    }

    /// How far right the cursor can stand: behind the last column, or behind a
    /// character that is wider than the screen, once such a one was written.
    pub open spec fn furthest(self) -> int {
        if self.cols() < self.widest {
            self.widest
        } else {
            self.cols()
        }
    }

    /// Whether the widest character is the same in a later state, or is the one written last
    /// there.
    pub open spec fn widened_to(self, later: Self) -> bool {
        later.widest == self.widest || (later.last_printed_char matches Some(c) && later.widest
            == char_width(c))
    }

    /// The lines that the scrollback holds at most: as many as it may, and no more than
    /// can be counted together with those of the screen.
    pub open spec fn most_lines(self) -> int {
        if self.max_scrollback < usize::MAX - MAX_TERMINAL_ROWS {
            self.max_scrollback
        } else {
            usize::MAX - MAX_TERMINAL_ROWS
        }
    }

    /// The cell at a column of a line, where the columns behind the last one are those of
    /// the lines below.
    pub open spec fn place(self, row: int, col: int) -> (int, int) {
        place_in(self.cols(), row, col)
    }

    /// What holds of every terminal: both screens have the same supported size,
    /// every position lies on the screen (the cursor may stand right behind the
    /// last column, or behind a character that is wider than the screen), the scroll region
    /// is a range of lines, and every list stays within its bound.
    pub open spec fn wf(self) -> bool {
        &&& self.grid.wf()
        &&& self.alt_grid.wf()
        &&& 1 <= self.rows() <= MAX_TERMINAL_ROWS
        &&& 1 <= self.cols() <= MAX_TERMINAL_COLS
        &&& self.alt_grid.lines.len() == self.grid.lines.len()
        &&& self.alt_grid.cols == self.grid.cols
        &&& 1 <= self.widest <= WIDEST
        &&& 0 <= self.cursor_row < self.rows()
        &&& 0 <= self.cursor_col <= self.furthest()
        &&& 0 <= self.saved_cursor_row < self.rows()
        &&& 0 <= self.saved_cursor_col <= self.furthest()
        &&& 0 <= self.scroll_region_top <= self.scroll_region_bottom < self.rows()
        &&& self.tab_stops.len() == self.cols()
        &&& self.row_versions.len() == self.rows()
        &&& 1 <= self.max_scrollback <= usize::MAX
        &&& self.scrollback.len() <= self.most_lines()
        &&& 0 <= self.scroll_offset <= self.scrollback.len()
        &&& self.keyboard_stack.len() <= 32
        &&& self.alt_keyboard_stack.len() <= 32
        &&& self.command_zones.len() <= 256
        &&& self.notifications.len() <= 8
        &&& self.utf8_expected <= 4
        &&& self.utf8.len() > 0 ==> self.utf8.len() < self.utf8_expected
        &&& self.utf8.len() == 0 ==> self.utf8_expected == 0
    }

    // ---- marks for drawing ----

    pub open spec fn dirtied(self, row: int) -> Self {
        TerminalModel { dirty: self.dirty.insert(row), ..self }
    }

    pub open spec fn dirtied_rows(self, first: int, last: int) -> Self {
        TerminalModel { dirty: self.dirty.union(line_range(first, last)), ..self }
    }

    pub open spec fn all_dirtied(self) -> Self {
        TerminalModel { dirty: line_range(0, self.rows() - 1), ..self }
    }

    /// The lines `first ..= last` carry the current version.
    pub open spec fn stamped(self, first: int, last: int) -> Self {
        TerminalModel {
            row_versions: stamped_rows(self.row_versions, first, last, self.grid_version),
            ..self
        }
    }

    pub open spec fn touched(self, row: int) -> Self {
        self.dirtied(row).stamped(row, row)
    }

    pub open spec fn touched_rows(self, first: int, last: int) -> Self {
        self.dirtied_rows(first, last).stamped(first, last)
    }

    pub open spec fn all_touched(self) -> Self {
        self.all_dirtied().stamped(0, self.rows() - 1)
    }

    // ---- scrolling ----

    /// A line enters the scrollback of the main screen; the oldest leaves where
    /// the limit is reached. A view into the past stays on its lines.
    pub open spec fn pushed(self, line: LineModel) -> Self {
        if self.use_alt_buffer {
            self
        } else {
            let room = if self.scrollback.len() >= self.most_lines() {
                self.scrollback.drop_first()
            } else {
                self.scrollback
            };
            let scrollback = room.push(line);
            if self.scroll_offset > 0 {
                TerminalModel {
                    scrollback,
                    scroll_offset: if self.scroll_offset + 1 < scrollback.len() {
                        self.scroll_offset + 1
                    } else {
                        scrollback.len() as int
                    },
                    visible_cache: None,
                    ..self
                }
            } else {
                TerminalModel { scrollback, ..self }
            }
        }
    }

    /// The line at the top of the screen, as it would enter the scrollback.
    pub open spec fn leaving_line(self, row: int) -> LineModel {
        LineModel { cells: kept(self.grid.lines[row]), wrapped: self.grid.wrapped[row] }
    }

    /// The lines of a region move up by one. Only where the region is the whole
    /// main screen does the line that leaves enter the scrollback.
    pub open spec fn region_up(self, top: int, bottom: int) -> Self {
        if top >= self.rows() || bottom >= self.rows() || top > bottom {
            self
        } else {
            let moved = (TerminalModel { grid: self.grid.scrolled_up(top, bottom), ..self }).touched_rows(
                top,
                bottom,
            );
            if top == 0 && bottom + 1 == self.rows() && !self.use_alt_buffer {
                moved.pushed(self.leaving_line(top))
            } else {
                moved
            }
        }
    }

    /// The lines of a region move down by one.
    pub open spec fn region_down(self, top: int, bottom: int) -> Self {
        if top >= self.rows() || bottom >= self.rows() || top > bottom {
            self
        } else {
            (TerminalModel { grid: self.grid.scrolled_down(top, bottom), ..self }).touched_rows(
                top,
                bottom,
            )
        }
    }

    pub open spec fn region_up_times(self, n: nat) -> Self
        decreases n,
    {
        if n == 0 {
            self
        } else {
            self.region_up_times((n - 1) as nat).region_up(
                self.scroll_region_top,
                self.scroll_region_bottom,
            )
        }
    }

    pub open spec fn region_down_times(self, n: nat) -> Self
        decreases n,
    {
        if n == 0 {
            self
        } else {
            self.region_down_times((n - 1) as nat).region_down(
                self.scroll_region_top,
                self.scroll_region_bottom,
            )
        }
    }

    /// Linefeed: scroll on the last line of the region, else move down.
    pub open spec fn line_fed(self) -> Self {
        if self.cursor_row == self.scroll_region_bottom {
            self.region_up(self.scroll_region_top, self.scroll_region_bottom)
        } else if self.cursor_row + 1 < self.rows() {
            TerminalModel { cursor_row: self.cursor_row + 1, ..self }
        } else {
            self
        }
    }

    /// Autowrap: the line is marked as continued, and output goes on at the start
    /// of the next one.
    #[verifier::opaque]
    pub open spec fn wrapped_around(self) -> Self {
        (TerminalModel {
            grid: GridModel {
                wrapped: self.grid.wrapped.update(self.cursor_row, true),
                ..self.grid
            },
            cursor_col: 0,
            ..self
        }).line_fed()
    }

    /// Reverse index: scroll down on the first line of the region, else move up.
    #[verifier::opaque]
    pub open spec fn reverse_indexed(self) -> Self {
        if self.cursor_row > self.scroll_region_top {
            TerminalModel { cursor_row: self.cursor_row - 1, ..self }
        } else {
            self.region_down(self.scroll_region_top, self.scroll_region_bottom)
        }
    }

    /// Index: scroll up at or below the last line of the region, else move down.
    #[verifier::opaque]
    pub open spec fn indexed(self) -> Self {
        if self.cursor_row < self.scroll_region_bottom {
            TerminalModel { cursor_row: self.cursor_row + 1, ..self }
        } else {
            self.region_up(self.scroll_region_top, self.scroll_region_bottom)
        }
    }

    // ---- printing ----

    pub open spec fn with_line(self, row: int, line: Seq<TerminalCell>) -> Self {
        TerminalModel { grid: self.grid.with_line(row, line), ..self }
    }

    /// Insert mode: the rest of the line makes room.
    pub open spec fn made_room(self, row: int, col: int, count: int) -> Self {
        if count == 0 || col >= self.cols() {
            self
        } else {
            self.with_line(row, shifted_right(self.grid.lines[row], col, count, self.blank())).touched(
                row,
            )
        }
    }

    /// The cell of the character that stands before the cursor.
    pub open spec fn base_place(self) -> (int, int) {
        let left = self.cursor_col - 1;
        let (row, col) = self.place(self.cursor_row, left);
        if left > 0 && row < self.rows() && self.grid.lines[row][col].flags@.wide_continuation {
            self.place(self.cursor_row, left - 1)
        } else {
            (row, col)
        }
    }

    /// A mark without width joins the character before the cursor where the two
    /// compose to one character; else it is dropped.
    pub open spec fn combined(self, mark: char) -> Self {
        let (row, col) = self.base_place();
        if self.cursor_col == 0 || row >= self.rows() {
            self
        } else {
            let line = self.grid.lines[row];
            let cell = line[col];
            let composed = nfc_of(seq![cell.character, mark]);
            if composed.len() == 1 {
                self.with_line(
                    row,
                    line.update(col, TerminalCell { character: composed[0], ..cell }),
                ).touched(self.cursor_row)
            } else {
                self
            }
        }
    }

    /// A character in the active character set.
    pub open spec fn translated(self, ch: char) -> char {
        match self.active_charset {
            Charset::Ascii => ch,
            Charset::DecSpecialGraphics => graphics_char(ch),
        }
    }

    /// Where a character of some width goes: on the next line where it does not
    /// fit and autowrap is on, at the end of this one where autowrap is off.
    pub open spec fn made_fit(self, width: int) -> Self {
        if self.cursor_col + width > self.cols() {
            if self.has(7) {
                self.wrapped_around()
            } else {
                TerminalModel {
                    cursor_col: if width < self.cols() {
                        self.cols() - width
                    } else {
                        0
                    },
                    ..self
                }
            }
        } else {
            self
        }
    }

    /// A character of some width written at the cursor, which moves behind it.
    pub open spec fn written(self, ch: char, width: int) -> Self {
        let cell = TerminalCell {
            character: ch,
            foreground: self.current_fg,
            background: self.current_bg,
            flags: self.current_flags.with_wide(width == 2).with_wide_continuation(false),
        };
        let line = write_char(
            self.grid.lines[self.cursor_row],
            self.cursor_col,
            cell,
            width == 2,
            self.blank(),
        );
        (TerminalModel {
            cursor_col: self.cursor_col + width,
            last_printed_char: Some(ch),
            widest: if self.widest < width {
                width
            } else {
                self.widest
            },
            ..self.with_line(self.cursor_row, line)
        }).touched(self.cursor_row)
    }

    /// One character printed.
    #[verifier::opaque]
    pub open spec fn printed(self, ch: char) -> Self {
        let c = self.translated(ch);
        let width = char_width(c) as int;
        if width == 0 {
            self.combined(c)
        } else {
            let placed = self.made_fit(width);
            let ready = if placed.has(4) {
                placed.made_room(placed.cursor_row, placed.cursor_col, width)
            } else {
                placed
            };
            ready.written(c, width)
        }
    }

    pub open spec fn printed_times(self, ch: char, n: nat) -> Self
        decreases n,
    {
        if n == 0 {
            self
        } else {
            self.printed_times(ch, (n - 1) as nat).printed(ch)
        }
    }

    /// The start of a run of ASCII characters written at the cursor, as far as
    /// the line reaches.
    #[verifier::opaque]
    pub open spec fn run_written(self, bytes: Seq<u8>, n: int) -> Self {
        let style = TerminalCell {
            character: ' ',
            foreground: self.current_fg,
            background: self.current_bg,
            flags: self.current_flags.with_wide(false).with_wide_continuation(false),
        };
        let line = overwritten(
            self.grid.lines[self.cursor_row],
            self.cursor_col,
            bytes,
            n,
            style,
        );
        (TerminalModel {
            cursor_col: self.cursor_col + n,
            ..self.with_line(self.cursor_row, line)
        }).touched(self.cursor_row)
    }

    /// A run of ASCII characters, line by line. Without autowrap what does not
    /// fit is dropped and the cursor stays on the last column.
    #[verifier::opaque]
    pub open spec fn run_placed(self, bytes: Seq<u8>) -> Self
        decreases
            bytes.len(),
            if self.cursor_col >= self.cols() {
                1int
            } else {
                0int
            },
    {
        if bytes.len() == 0 {
            self
        } else {
            let room = self.cols() - self.cursor_col;
            let n = if bytes.len() < room {
                bytes.len() as int
            } else {
                room
            };
            let done = self.run_written(bytes, n);
            if n >= bytes.len() {
                done
            } else if self.has(7) {
                let next = done.wrapped_around();
                if 0 <= n && next.cursor_col < next.cols() {
                    next.run_placed(bytes.subrange(n, bytes.len() as int))
                } else {
                    next
                }
            } else {
                TerminalModel { cursor_col: self.cols() - 1, ..done }
            }
        }
    }

    /// A cursor that stands further right than behind the last column comes back there.
    pub open spec fn held_behind(self) -> Self {
        if self.cursor_col > self.cols() {
            TerminalModel { cursor_col: self.cols(), ..self }
        } else {
            self
        }
    }

    /// A run of printable ASCII characters printed.
    #[verifier::opaque]
    pub open spec fn run_printed(self, bytes: Seq<u8>) -> Self {
        (TerminalModel {
            last_printed_char: Some(bytes.last() as char),
            ..self.held_behind()
        }).run_placed(bytes)
    }

    // ---- the cursor ----

    #[verifier::opaque]
    pub open spec fn cursor_saved(self) -> Self {
        TerminalModel {
            saved_cursor: Some(
                SavedCursor {
                    row: self.cursor_row as usize,
                    col: self.cursor_col as usize,
                    fg: self.current_fg,
                    bg: self.current_bg,
                    flags: self.current_flags,
                    g0: self.g0_charset,
                    g1: self.g1_charset,
                    active: self.active_charset,
                    origin_mode: self.has(6),
                },
            ),
            ..self
        }
    }

    #[verifier::opaque]
    pub open spec fn cursor_restored(self) -> Self {
        match self.saved_cursor {
            Some(s) => TerminalModel {
                cursor_row: if s.row < self.rows() {
                    s.row as int
                } else {
                    self.rows() - 1
                },
                cursor_col: if s.col < self.cols() {
                    s.col as int
                } else {
                    self.cols() - 1
                },
                current_fg: s.fg,
                current_bg: s.bg,
                current_flags: s.flags,
                g0_charset: s.g0,
                g1_charset: s.g1,
                active_charset: s.active,
                modes: if s.origin_mode {
                    self.modes.insert(6)
                } else {
                    self.modes.remove(6)
                },
                ..self
            },
            None => TerminalModel { cursor_row: 0, cursor_col: 0, ..self },
        }
    }

    /// The line that a one-based line number stands for: counted from the top of
    /// the scroll region, and kept within it, in origin mode.
    pub open spec fn addressed_row(self, row: int) -> int {
        let row0 = if row > 0 {
            row - 1
        } else {
            0
        };
        if self.has(6) {
            if self.scroll_region_top + row0 < self.scroll_region_bottom {
                self.scroll_region_top + row0
            } else {
                self.scroll_region_bottom
            }
        } else if row0 < self.rows() {
            row0
        } else {
            self.rows() - 1
        }
    }

    /// The column that a one-based column number stands for.
    pub open spec fn addressed_col(self, col: int) -> int {
        let col0 = if col > 0 {
            col - 1
        } else {
            0
        };
        if col0 < self.cols() {
            col0
        } else {
            self.cols() - 1
        }
    }

    #[verifier::opaque]
    pub open spec fn cursor_placed(self, row: int, col: int) -> Self {
        TerminalModel {
            cursor_row: self.addressed_row(row),
            cursor_col: self.addressed_col(col),
            ..self
        }
    }

    /// The cursor in another row.
    #[verifier::opaque]
    pub open spec fn with_row(self, row: int) -> Self {
        TerminalModel { cursor_row: row, ..self }
    }

    /// The cursor in another column.
    #[verifier::opaque]
    pub open spec fn with_col(self, col: int) -> Self {
        TerminalModel { cursor_col: col, ..self }
    }

    /// Up by `n`, not across the top of the scroll region.
    pub open spec fn row_above(self, n: int) -> int {
        let limit = if self.cursor_row >= self.scroll_region_top {
            self.scroll_region_top
        } else {
            0
        };
        if self.cursor_row - n > limit {
            self.cursor_row - n
        } else {
            limit
        }
    }

    /// Down by `n`, not across the bottom of the scroll region.
    pub open spec fn row_below(self, n: int) -> int {
        let limit = if self.cursor_row <= self.scroll_region_bottom {
            self.scroll_region_bottom
        } else {
            self.rows() - 1
        };
        if self.cursor_row + n < limit {
            self.cursor_row + n
        } else {
            limit
        }
    }

    // ---- erasing and editing ----

    /// From the cursor to the end of the screen.
    #[verifier::opaque]
    pub open spec fn erased_below(self) -> Self {
        let blank = self.blank();
        (TerminalModel {
            grid: GridModel {
                lines: Seq::new(
                    self.grid.lines.len(),
                    |r: int|
                        if r < self.cursor_row {
                            self.grid.lines[r]
                        } else if r == self.cursor_row {
                            erase_span(self.grid.lines[r], self.cursor_col, self.cols(), blank)
                        } else {
                            line_of(blank, self.grid.cols)
                        },
                ),
                ..self.grid
            },
            ..self
        }).touched_rows(self.cursor_row, self.rows() - 1)
    }

    /// From the start of the screen to the cursor. Where the cursor stands behind the last
    /// column, the lines below lose as many cells as it is behind.
    #[verifier::opaque]
    pub open spec fn erased_above(self) -> Self {
        let blank = self.blank();
        (TerminalModel {
            grid: cells_below_erased(
                GridModel {
                    lines: Seq::new(
                        self.grid.lines.len(),
                        |r: int|
                            if r < self.cursor_row {
                                line_of(blank, self.grid.cols)
                            } else if r == self.cursor_row {
                                erase_span(self.grid.lines[r], 0, self.cursor_end(), blank)
                            } else {
                                self.grid.lines[r]
                            },
                    ),
                    ..self.grid
                },
                self.cursor_row,
                self.cursor_col + 1 - self.cols(),
                blank,
            ),
            ..self
        }).touched_rows(0, self.cursor_row)
    }

    /// From the start of the line to the cursor. Where the cursor stands behind the last
    /// column, the lines below lose as many cells as it is behind.
    #[verifier::opaque]
    pub open spec fn erased_up_to_cursor(self) -> Self {
        let blank = self.blank();
        let line = erase_span(
            self.grid.lines[self.cursor_row],
            0,
            self.cursor_end(),
            blank,
        );
        (TerminalModel {
            grid: cells_below_erased(
                self.grid.with_line(self.cursor_row, line),
                self.cursor_row,
                self.cursor_col + 1 - self.cols(),
                blank,
            ),
            ..self
        }).touched(self.cursor_row)
    }

    /// The column right behind the cursor's.
    pub open spec fn cursor_end(self) -> int {
        if self.cursor_col + 1 < self.cols() {
            self.cursor_col + 1
        } else {
            self.cols()
        }
    }

    /// Part of the cursor's line.
    #[verifier::opaque]
    pub open spec fn erased_in_line(self, from: int, to: int) -> Self {
        self.with_line(
            self.cursor_row,
            erase_span(self.grid.lines[self.cursor_row], from, to, self.blank()),
        ).touched(self.cursor_row)
    }

    /// The cursor's whole line.
    #[verifier::opaque]
    pub open spec fn erased_line(self) -> Self {
        self.with_line(self.cursor_row, line_of(self.blank(), self.grid.cols)).touched(
            self.cursor_row,
        )
    }

    /// The whole screen; the cursor stays.
    #[verifier::opaque]
    pub open spec fn erased_screen(self) -> Self {
        (TerminalModel { grid: self.grid.filled(self.blank()), ..self }).all_touched()
    }

    /// The whole screen, and the cursor to the top left.
    #[verifier::opaque]
    pub open spec fn cleared(self) -> Self {
        TerminalModel { cursor_row: 0, cursor_col: 0, ..self.erased_screen() }
    }

    /// The alignment pattern.
    #[verifier::opaque]
    pub open spec fn aligned(self) -> Self {
        (TerminalModel {
            grid: self.grid.filled(
                TerminalCell { character: 'E', ..TerminalCell::blank() },
            ),
            cursor_row: 0,
            cursor_col: 0,
            ..self
        }).all_touched()
    }

    pub open spec fn in_region(self) -> bool {
        self.scroll_region_top <= self.cursor_row <= self.scroll_region_bottom
    }

    pub open spec fn grid_lines_down(grid: GridModel, top: int, bottom: int, n: nat) -> GridModel
        decreases n,
    {
        if n == 0 {
            grid
        } else {
            Self::grid_lines_down(grid, top, bottom, (n - 1) as nat).lines_down(top, bottom)
        }
    }

    pub open spec fn grid_lines_up(grid: GridModel, top: int, bottom: int, n: nat) -> GridModel
        decreases n,
    {
        if n == 0 {
            grid
        } else {
            Self::grid_lines_up(grid, top, bottom, (n - 1) as nat).lines_up(top, bottom)
        }
    }

    /// Blank lines inserted at the cursor, within the scroll region.
    #[verifier::opaque]
    pub open spec fn lines_inserted(self, n: nat) -> Self {
        (if self.in_region() {
            TerminalModel {
                grid: Self::grid_lines_down(
                    self.grid,
                    self.cursor_row,
                    self.scroll_region_bottom,
                    n,
                ),
                ..self
            }
        } else {
            self
        }).stamped(self.cursor_row, self.scroll_region_bottom)
    }

    /// Lines deleted at the cursor, within the scroll region.
    #[verifier::opaque]
    pub open spec fn lines_deleted(self, n: nat) -> Self {
        (if self.in_region() {
            TerminalModel {
                grid: Self::grid_lines_up(
                    self.grid,
                    self.cursor_row,
                    self.scroll_region_bottom,
                    n,
                ),
                ..self
            }
        } else {
            self
        }).stamped(self.cursor_row, self.scroll_region_bottom)
    }

    pub open spec fn line_with_inserted(
        line: Seq<TerminalCell>,
        col: int,
        n: nat,
        blank: TerminalCell,
    ) -> Seq<TerminalCell>
        decreases n,
    {
        if n == 0 {
            line
        } else {
            GridModel::inserted_in_line(
                Self::line_with_inserted(line, col, (n - 1) as nat, blank),
                col,
                blank,
            )
        }
    }

    pub open spec fn line_with_deleted(
        line: Seq<TerminalCell>,
        col: int,
        n: nat,
        blank: TerminalCell,
    ) -> Seq<TerminalCell>
        decreases n,
    {
        if n == 0 {
            line
        } else {
            GridModel::removed_in_line(
                Self::line_with_deleted(line, col, (n - 1) as nat, blank),
                col,
            ).update(line.len() - 1, blank)
        }
    }

    /// Blanks inserted at the cursor.
    #[verifier::opaque]
    pub open spec fn chars_inserted(self, n: nat) -> Self {
        if self.cursor_col < self.cols() {
            self.with_line(
                self.cursor_row,
                Self::line_with_inserted(
                    self.grid.lines[self.cursor_row],
                    self.cursor_col,
                    n,
                    self.blank(),
                ),
            ).stamped(self.cursor_row, self.cursor_row)
        } else {
            self
        }
    }

    /// Characters deleted at the cursor.
    #[verifier::opaque]
    pub open spec fn chars_deleted(self, n: nat) -> Self {
        (if self.cursor_col < self.cols() {
            self.with_line(
                self.cursor_row,
                Self::line_with_deleted(
                    self.grid.lines[self.cursor_row],
                    self.cursor_col,
                    n,
                    self.blank(),
                ),
            )
        } else {
            self
        }).stamped(self.cursor_row, self.cursor_row)
    }

    /// Characters erased at the cursor.
    #[verifier::opaque]
    pub open spec fn chars_erased(self, n: int) -> Self {
        let end = if self.cursor_col + n < self.cols() {
            self.cursor_col + n
        } else {
            self.cols()
        };
        self.with_line(
            self.cursor_row,
            erase_span(
                self.grid.lines[self.cursor_row],
                self.cursor_col,
                end,
                self.blank(),
            ),
        ).stamped(self.cursor_row, self.cursor_row)
    }

    // ---- tab stops ----

    #[verifier::opaque]
    pub open spec fn tab_stop_at_cursor(self, v: bool) -> Self {
        if self.cursor_col < self.tab_stops.len() {
            TerminalModel { tab_stops: self.tab_stops.update(self.cursor_col, v), ..self }
        } else {
            self
        }
    }

    // ---- replies ----

    pub open spec fn replied(self, bytes: Seq<u8>) -> Self {
        TerminalModel { output: self.output + bytes, ..self }
    }

    // ---- keyboard protocol ----

    #[verifier::opaque]
    pub open spec fn keyboard_flags_set(self, flags: u16, mode: u16) -> Self {
        TerminalModel {
            keyboard_flags: if mode == 1 {
                flags
            } else if mode == 2 {
                self.keyboard_flags | flags
            } else if mode == 3 {
                self.keyboard_flags & !flags
            } else {
                self.keyboard_flags
            },
            ..self
        }
    }

    /// The stack of the keyboard protocol holds at most 32 entries; the oldest
    /// gives way.
    #[verifier::opaque]
    pub open spec fn keyboard_flags_pushed(self, flags: u16) -> Self {
        let room = if self.keyboard_stack.len() >= 32 {
            self.keyboard_stack.drop_first()
        } else {
            self.keyboard_stack
        };
        TerminalModel {
            keyboard_stack: room.push(self.keyboard_flags),
            keyboard_flags: flags,
            ..self
        }
    }

    /// `n` entries taken back; with none left the flags are zero.
    #[verifier::opaque]
    pub open spec fn keyboard_flags_popped(self, n: nat) -> Self {
        if n == 0 {
            self
        } else if n <= self.keyboard_stack.len() {
            TerminalModel {
                keyboard_flags: self.keyboard_stack[self.keyboard_stack.len() - n],
                keyboard_stack: self.keyboard_stack.subrange(0, self.keyboard_stack.len() - n),
                ..self
            }
        } else {
            TerminalModel { keyboard_flags: 0, keyboard_stack: Seq::empty(), ..self }
        }
    }

    // ---- modes and resets ----

    pub open spec fn mode_inserted(self, mode: u16) -> Self {
        TerminalModel {
            modes: if is_tracked(mode) {
                self.modes.insert(mode)
            } else {
                self.modes
            },
            ..self
        }
    }

    pub open spec fn mode_removed(self, mode: u16) -> Self {
        TerminalModel { modes: self.modes.remove(mode), ..self }
    }

    pub open spec fn full_region(self) -> Self {
        TerminalModel { scroll_region_top: 0, scroll_region_bottom: self.rows() - 1, ..self }
    }

    pub open spec fn buffers_swapped(self) -> Self {
        TerminalModel {
            grid: self.alt_grid,
            alt_grid: self.grid,
            keyboard_flags: self.alt_keyboard_flags,
            alt_keyboard_flags: self.keyboard_flags,
            keyboard_stack: self.alt_keyboard_stack,
            alt_keyboard_stack: self.keyboard_stack,
            ..self
        }
    }

    /// The alternate screen comes up, empty; the main screen waits behind it.
    #[verifier::opaque]
    pub open spec fn alt_entered(self, mode: u16) -> Self {
        if self.use_alt_buffer {
            self
        } else {
            (TerminalModel {
                saved_cursor_row: self.cursor_row,
                saved_cursor_col: self.cursor_col,
                alt_cursor_row: self.cursor_row,
                alt_cursor_col: self.cursor_col,
                scroll_offset: 0,
                use_alt_buffer: true,
                selection: None,
                ..self.buffers_swapped()
            }).full_region().cleared().mode_inserted(mode)
        }
    }

    /// The main screen comes back as it was left, with a plain rendition.
    #[verifier::opaque]
    pub open spec fn alt_left(self, mode: u16) -> Self {
        if self.use_alt_buffer {
            let version = self.grid_version.wrapping_add((self.rows() + 1) as u64);
            (TerminalModel {
                alt_cursor_row: self.cursor_row,
                alt_cursor_col: self.cursor_col,
                cursor_row: self.saved_cursor_row,
                cursor_col: self.saved_cursor_col,
                use_alt_buffer: false,
                selection: None,
                current_fg: Color::Default,
                current_bg: Color::Default,
                global_bg: Color::Default,
                current_flags: StyleFlags::none(),
                grid_version: version,
                ..self.buffers_swapped().mode_removed(mode)
            }).full_region().all_touched()
        } else {
            self
        }
    }

    #[verifier::opaque]
    pub open spec fn mode_set(self, mode: u16, private: bool) -> Self {
        if !private {
            // ANSI modes: only insert mode is known.
            if mode == 4 {
                self.mode_inserted(4)
            } else {
                self
            }
        } else if mode == 4 {
            self
        } else if mode == 1048 {
            self.cursor_saved()
        } else if mode == 47 || mode == 1047 || mode == 1049 {
            self.alt_entered(mode)
        } else if mode == 2026 {
            TerminalModel { sync_output_active: true, ..self.mode_inserted(2026) }
        } else {
            self.mode_inserted(mode)
        }
    }

    #[verifier::opaque]
    pub open spec fn mode_reset(self, mode: u16, private: bool) -> Self {
        if !private {
            if mode == 4 {
                self.mode_removed(4)
            } else {
                self
            }
        } else if mode == 4 {
            self
        } else if mode == 1048 {
            self.cursor_restored().mode_removed(1048)
        } else if mode == 47 || mode == 1047 || mode == 1049 {
            self.alt_left(mode)
        } else if mode == 2026 {
            self.sync_output_ended()
        } else {
            self.mode_removed(mode)
        }
    }

    /// Synchronized output ends and everything is drawn anew.
    #[verifier::opaque]
    pub open spec fn sync_output_ended(self) -> Self {
        (TerminalModel { sync_output_active: false, ..self.mode_removed(2026) }).all_touched()
    }

    pub open spec fn modes_set(self, modes: Seq<u16>, private: bool) -> Self
        decreases modes.len(),
    {
        if modes.len() == 0 {
            self
        } else {
            self.modes_set(modes.drop_last(), private).mode_set(modes.last(), private)
        }
    }

    pub open spec fn modes_reset(self, modes: Seq<u16>, private: bool) -> Self
        decreases modes.len(),
    {
        if modes.len() == 0 {
            self
        } else {
            self.modes_reset(modes.drop_last(), private).mode_reset(modes.last(), private)
        }
    }

    pub open spec fn rendition_reset(self) -> Self {
        TerminalModel {
            current_flags: StyleFlags::none(),
            current_fg: Color::Default,
            current_bg: Color::Default,
            ..self
        }
    }

    pub open spec fn charsets_reset(self) -> Self {
        TerminalModel {
            g0_charset: Charset::Ascii,
            g1_charset: Charset::Ascii,
            active_charset: Charset::Ascii,
            ..self
        }
    }

    /// The power-on state of everything that a program can set.
    #[verifier::opaque]
    pub open spec fn reset_to_initial(self) -> Self {
        let main = if self.use_alt_buffer {
            self.alt_left(1049)
        } else {
            self
        };
        (TerminalModel {
            global_bg: Color::Default,
            tab_stops: standard_tab_stops(main.cols()),
            saved_cursor: None,
            modes: Set::<u16>::empty().insert(25).insert(7),
            scroll_offset: 0,
            scrollback: Seq::empty(),
            cursor_shape: CursorShape::Block,
            dynamic_fg: None,
            dynamic_bg: None,
            dynamic_cursor_color: None,
            keyboard_flags: 0,
            keyboard_stack: Seq::empty(),
            alt_keyboard_flags: 0,
            alt_keyboard_stack: Seq::empty(),
            selection: None,
            hyperlink: None,
            ..main.rendition_reset().charsets_reset().full_region()
        }).cleared()
    }

    /// Soft reset: margins, rendition, character sets, saved cursor, and the
    /// origin, insert, cursor and autowrap modes; the screen stays.
    #[verifier::opaque]
    pub open spec fn soft_reset(self) -> Self {
        TerminalModel {
            global_bg: Color::Default,
            saved_cursor: None,
            modes: self.modes.remove(6).remove(4).insert(25).insert(7),
            ..self.rendition_reset().charsets_reset().full_region()
        }
    }

    // ---- graphic rendition ----

    pub open spec fn rendition(self) -> Rendition {
        Rendition {
            flags: self.current_flags,
            fg: self.current_fg,
            bg: self.current_bg,
            global_bg: self.global_bg,
        }
    }

    /// The rendition after some SGR parameters.
    #[verifier::opaque]
    pub open spec fn rendered(self, groups: Seq<Seq<u16>>) -> Self {
        let r = self.rendition().rendered_from(groups, 0);
        TerminalModel {
            current_flags: r.flags,
            current_fg: r.fg,
            current_bg: r.bg,
            global_bg: r.global_bg,
            ..self
        }
    }
}

/// The colours and attributes that new text gets, and the last background that
/// was set explicitly.
#[derive(Clone, Copy, Debug)]
pub struct Rendition {
    pub flags: StyleFlags,
    pub fg: Color,
    pub bg: Color,
    pub global_bg: Color,
}

impl Rendition {
    /// No attributes and default colours.
    pub open spec fn reset(self) -> Self {
        Rendition {
            flags: StyleFlags::none(),
            fg: Color::Default,
            bg: Color::Default,
            ..self
        }
    }

    pub open spec fn with_flags(self, flags: StyleFlags) -> Self {
        Rendition { flags, ..self }
    }

    pub open spec fn with_fg(self, color: Color) -> Self {
        Rendition { fg: color, ..self }
    }

    pub open spec fn with_bg(self, color: Color) -> Self {
        Rendition { bg: color, global_bg: color, ..self }
    }

    /// One rendition parameter with its sub-parameters, extended colours apart.
    pub open spec fn rendered_simple(self, g: Seq<u16>) -> Self {
        let param = if g.len() > 0 {
            g[0]
        } else {
            0
        };
        let f = self.flags;
        if param == 0 {
            self.reset()
        } else if param == 1 {
            self.with_flags(f.with_bold(true))
        } else if param == 2 {
            self.with_flags(f.with_dim(true))
        } else if param == 3 {
            self.with_flags(f.with_italic(true))
        } else if param == 4 {
            self.with_flags(
                f.with_underline(
                    underline_for(
                        if g.len() >= 2 {
                            g[1]
                        } else {
                            1
                        },
                    ),
                ),
            )
        } else if param == 5 {
            self.with_flags(f.with_blink(true))
        } else if param == 7 {
            self.with_flags(f.with_inverse(true))
        } else if param == 9 {
            self.with_flags(f.with_strikethrough(true))
        } else if param == 21 {
            self.with_flags(f.with_underline(UnderlineStyle::Double))
        } else if param == 22 {
            self.with_flags(f.with_bold(false).with_dim(false))
        } else if param == 23 {
            self.with_flags(f.with_italic(false))
        } else if param == 24 {
            self.with_flags(f.with_underline(UnderlineStyle::Off))
        } else if param == 25 {
            self.with_flags(f.with_blink(false))
        } else if param == 27 {
            self.with_flags(f.with_inverse(false))
        } else if param == 29 {
            self.with_flags(f.with_strikethrough(false))
        } else if param == 39 {
            self.with_fg(Color::Default)
        } else if 30 <= param <= 37 {
            self.with_fg(normal_color(param - 30))
        } else if param == 49 {
            Rendition { bg: Color::Default, ..self }
        } else if 40 <= param <= 47 {
            self.with_bg(normal_color(param - 40))
        } else if 90 <= param <= 97 {
            self.with_fg(bright_color(param - 90))
        } else if 100 <= param <= 107 {
            self.with_bg(bright_color(param - 100))
        } else {
            self
        }
    }

    /// The rendition parameters from group `i` on.
    pub open spec fn rendered_from(self, groups: Seq<Seq<u16>>, i: int) -> Self
        decreases
            if i < groups.len() {
                groups.len() - i
            } else {
                0
            },
    {
        if i >= groups.len() {
            self
        } else {
            let param = if groups[i].len() > 0 {
                groups[i][0]
            } else {
                0
            };
            if param == 38 || param == 48 || param == 58 {
                let (color, last) = extended_color(groups, i);
                let after = match color {
                    Some(c) => if param == 38 {
                        self.with_fg(c)
                    } else if param == 48 {
                        self.with_bg(c)
                    } else {
                        self
                    },
                    None => self,
                };
                if last >= i {
                    after.rendered_from(groups, last + 1)
                } else {
                    after
                }
            } else {
                self.rendered_simple(groups[i]).rendered_from(groups, i + 1)
            }
        }
    }
}

pub open spec fn underline_for(style: u16) -> UnderlineStyle {
    if style == 0 {
        UnderlineStyle::Off
    } else if style == 2 {
        UnderlineStyle::Double
    } else if style == 3 {
        UnderlineStyle::Curly
    } else if style == 4 {
        UnderlineStyle::Dotted
    } else if style == 5 {
        UnderlineStyle::Dashed
    } else {
        UnderlineStyle::Single
    }
}

pub open spec fn normal_color(i: int) -> Color {
    if i == 0 {
        Color::Black
    } else if i == 1 {
        Color::Red
    } else if i == 2 {
        Color::Green
    } else if i == 3 {
        Color::Yellow
    } else if i == 4 {
        Color::Blue
    } else if i == 5 {
        Color::Magenta
    } else if i == 6 {
        Color::Cyan
    } else {
        Color::White
    }
}

pub open spec fn bright_color(i: int) -> Color {
    if i == 0 {
        Color::BrightBlack
    } else if i == 1 {
        Color::BrightRed
    } else if i == 2 {
        Color::BrightGreen
    } else if i == 3 {
        Color::BrightYellow
    } else if i == 4 {
        Color::BrightBlue
    } else if i == 5 {
        Color::BrightMagenta
    } else if i == 6 {
        Color::BrightCyan
    } else {
        Color::BrightWhite
    }
}

/// The first value of a parameter group, where there is such a group.
pub open spec fn group_head(groups: Seq<Seq<u16>>, i: int) -> Option<u16> {
    if i < groups.len() && groups[i].len() > 0 {
        Some(groups[i][0])
    } else {
        None
    }
}

/// The low byte of a parameter.
pub open spec fn low_byte(v: u16) -> u8 {
    (v % 256) as u8
}

/// An extended colour (parameter 38, 48 or 58) and the last group that belongs to
/// it: either all in one group (`38:2:r:g:b`, `38:2:cs:r:g:b`, `38:5:n`) or
/// spread over several (`38;2;r;g;b`, `38;5;n`).
pub open spec fn extended_color(groups: Seq<Seq<u16>>, i: int) -> (Option<Color>, int) {
    let g = groups[i];
    if g.len() >= 2 {
        if g[1] == 5 {
            (
                if g.len() >= 3 {
                    Some(Color::Indexed(low_byte(g[2])))
                } else {
                    None
                },
                i,
            )
        } else if g[1] == 2 {
            (
                if g.len() >= 6 {
                    Some(Color::Rgb(low_byte(g[3]), low_byte(g[4]), low_byte(g[5])))
                } else if g.len() >= 5 {
                    Some(Color::Rgb(low_byte(g[2]), low_byte(g[3]), low_byte(g[4])))
                } else {
                    None
                },
                i,
            )
        } else {
            (None, i)
        }
    } else {
        match group_head(groups, i + 1) {
            Some(5) => (
                match group_head(groups, i + 2) {
                    Some(n) => Some(Color::Indexed(low_byte(n))),
                    None => None,
                },
                i + 2,
            ),
            Some(2) => (
                match (
                    group_head(groups, i + 2),
                    group_head(groups, i + 3),
                    group_head(groups, i + 4),
                ) {
                    (Some(r), Some(gr), Some(b)) => Some(
                        Color::Rgb(low_byte(r), low_byte(gr), low_byte(b)),
                    ),
                    _ => None,
                },
                i + 4,
            ),
            _ => (None, i),
        }
    }
}

} // verus!
