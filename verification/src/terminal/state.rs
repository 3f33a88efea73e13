//! The terminal state, its invariant, and what it stands for.

use super::dirty::DirtyRegion;
use super::model::{standard_tab_stops, TerminalModel};
use super::modes::TerminalModes;
use super::types::{
    clamp_terminal_dimensions, clamped, Charset, ClipboardReadRequest, CommandZone, SavedCursor,
    Selection, ZoneState, MAX_TERMINAL_COLS, MAX_TERMINAL_ROWS,
};
use crate::cell::{Color, CursorShape, StyleFlags, TerminalCell};
use crate::grid::{GridModel, TerminalGrid};
use crate::kitty_graphics::KittyGraphicsState;
use crate::scrollback::{LineModel, ScrollbackLine};
use std::collections::VecDeque;
use vstd::prelude::*;

verus! {

/// A terminal: two screens, the scrollback, the cursor, and everything that
/// control sequences can set.
pub struct TerminalState {
    pub grid: TerminalGrid,
    pub alt_grid: TerminalGrid,
    pub scrollback: VecDeque<ScrollbackLine>,
    pub selection: Option<Selection>,
    pub scroll_offset: usize,
    pub max_scrollback: usize,
    pub use_alt_buffer: bool,
    pub cursor_row: usize,
    pub cursor_col: usize,
    /// Cursor position of the main screen while the alternate one is shown. Kept
    /// apart from the DECSC slot so that the two do not clobber each other.
    pub saved_cursor_row: usize,
    pub saved_cursor_col: usize,
    /// DECSC/DECRC (and CSI s/u) saved cursor state.
    pub saved_cursor: Option<SavedCursor>,
    /// Per-column horizontal tab stops (HTS/TBC).
    pub tab_stops: Vec<bool>,
    /// Last printed character, for REP (CSI b).
    pub last_printed_char: Option<char>,
    /// The columns of the widest character that was ever written, one at least.
    pub widest: Ghost<int>,
    pub alt_cursor_row: usize,
    pub alt_cursor_col: usize,
    pub cursor_shape: CursorShape,
    pub current_fg: Color,
    pub current_bg: Color,
    pub current_flags: StyleFlags,
    pub window_title: String,
    /// The last background colour that was set explicitly.
    pub global_bg: Color,
    /// Scroll region (DECSTBM), both ends included.
    pub scroll_region_top: usize,
    pub scroll_region_bottom: usize,
    /// The bytes read so far of an incomplete UTF-8 character.
    pub utf8_buf: Vec<u8>,
    pub utf8_expected: u8,
    /// An incomplete escape sequence, kept until more input comes.
    pub pending_escape: Vec<u8>,
    pub g0_charset: Charset,
    pub g1_charset: Charset,
    pub active_charset: Charset,
    pub ime_enabled: bool,
    pub preedit_text: String,
    /// Byte range within `preedit_text` that the input method marks as active.
    pub preedit_selection: Option<std::ops::Range<usize>>,
    pub modes: TerminalModes,
    /// Replies to be sent back to the program.
    pub output_buffer: Vec<u8>,
    pub keyboard_enhancement_flags: u16,
    pub keyboard_enhancement_stack: Vec<u16>,
    pub alt_keyboard_enhancement_flags: u16,
    pub alt_keyboard_enhancement_stack: Vec<u16>,
    pub xterm_modify_other_keys: u16,
    pub xterm_format_other_keys: u16,
    pub pending_clipboard_requests: Vec<ClipboardReadRequest>,
    pub pending_paste_password: Option<String>,
    pub kitty_graphics: KittyGraphicsState,
    pub dirty_region: DirtyRegion,
    pub grid_version: u64,
    pub row_versions: Vec<u64>,
    /// The cells last handed out, with the version and scroll offset they show.
    pub visible_cells_cache: Option<(u64, usize, std::sync::Arc<Vec<Vec<TerminalCell>>>)>,
    /// The open OSC 8 hyperlink: its address and its id.
    pub current_hyperlink: Option<(String, Option<String>)>,
    /// Synchronized output (mode 2026): drawing waits until the mode is reset.
    pub sync_output_active: bool,
    pub sync_output_start: Option<std::time::Instant>,
    pub pending_osc52_clipboard_set: Option<String>,
    pub pending_osc52_clipboard_query: bool,
    pub command_zones: VecDeque<CommandZone>,
    pub current_zone_state: ZoneState,
    pub dynamic_fg: Option<(u8, u8, u8)>,
    pub dynamic_bg: Option<(u8, u8, u8)>,
    pub dynamic_cursor_color: Option<(u8, u8, u8)>,
    pub pending_notifications: Vec<(String, String)>,
}

pub open spec fn scrollback_view(lines: Seq<ScrollbackLine>) -> Seq<LineModel> {
    Seq::new(lines.len(), |i: int| lines[i]@)
}

pub open spec fn text_view(text: Option<String>) -> Option<Seq<char>> {
    match text {
        Some(s) => Some(s@),
        None => None,
    }
}

pub open spec fn range_view(range: Option<std::ops::Range<usize>>) -> Option<(usize, usize)> {
    match range {
        Some(r) => Some((r.start, r.end)),
        None => None,
    }
}

pub open spec fn requests_view(requests: Seq<ClipboardReadRequest>) -> Seq<Option<Seq<char>>> {
    Seq::new(requests.len(), |i: int| requests[i].mime())
}

pub open spec fn lines_view(lines: Seq<Vec<TerminalCell>>) -> Seq<Seq<TerminalCell>> {
    Seq::new(lines.len(), |i: int| lines[i]@)
}

pub open spec fn cache_view(
    cache: Option<(u64, usize, std::sync::Arc<Vec<Vec<TerminalCell>>>)>,
) -> Option<(u64, usize, Seq<Seq<TerminalCell>>)> {
    match cache {
        Some((version, offset, cells)) => Some((version, offset, lines_view(cells@))),
        None => None,
    }
}

pub open spec fn hyperlink_view(link: Option<(String, Option<String>)>) -> Option<
    (Seq<char>, Option<Seq<char>>),
> {
    match link {
        Some((uri, id)) => Some((uri@, text_view(id))),
        None => None,
    }
}

pub open spec fn notifications_view(notifications: Seq<(String, String)>) -> Seq<
    (Seq<char>, Seq<char>),
> {
    Seq::new(notifications.len(), |i: int| (notifications[i].0@, notifications[i].1@))
}

impl View for TerminalState {
    type V = TerminalModel;

    open spec fn view(&self) -> TerminalModel {
        TerminalModel {
            grid: self.grid@,
            alt_grid: self.alt_grid@,
            scrollback: scrollback_view(self.scrollback@),
            selection: self.selection,
            scroll_offset: self.scroll_offset as int,
            max_scrollback: self.max_scrollback as int,
            use_alt_buffer: self.use_alt_buffer,
            cursor_row: self.cursor_row as int,
            cursor_col: self.cursor_col as int,
            saved_cursor_row: self.saved_cursor_row as int,
            saved_cursor_col: self.saved_cursor_col as int,
            saved_cursor: self.saved_cursor,
            tab_stops: self.tab_stops@,
            last_printed_char: self.last_printed_char,
            widest: self.widest@,
            alt_cursor_row: self.alt_cursor_row as int,
            alt_cursor_col: self.alt_cursor_col as int,
            cursor_shape: self.cursor_shape,
            current_fg: self.current_fg,
            current_bg: self.current_bg,
            current_flags: self.current_flags,
            window_title: self.window_title@,
            global_bg: self.global_bg,
            scroll_region_top: self.scroll_region_top as int,
            scroll_region_bottom: self.scroll_region_bottom as int,
            utf8: self.utf8_buf@,
            utf8_expected: self.utf8_expected as int,
            pending_escape: self.pending_escape@,
            g0_charset: self.g0_charset,
            g1_charset: self.g1_charset,
            active_charset: self.active_charset,
            ime_enabled: self.ime_enabled,
            preedit_text: self.preedit_text@,
            preedit_selection: range_view(self.preedit_selection),
            modes: self.modes@,
            output: self.output_buffer@,
            keyboard_flags: self.keyboard_enhancement_flags,
            keyboard_stack: self.keyboard_enhancement_stack@,
            alt_keyboard_flags: self.alt_keyboard_enhancement_flags,
            alt_keyboard_stack: self.alt_keyboard_enhancement_stack@,
            modify_other_keys: self.xterm_modify_other_keys,
            format_other_keys: self.xterm_format_other_keys,
            clipboard_requests: requests_view(self.pending_clipboard_requests@),
            paste_password: text_view(self.pending_paste_password),
            dirty: self.dirty_region@,
            grid_version: self.grid_version,
            row_versions: self.row_versions@,
            visible_cache: cache_view(self.visible_cells_cache),
            hyperlink: hyperlink_view(self.current_hyperlink),
            sync_output_active: self.sync_output_active,
            clipboard_set: text_view(self.pending_osc52_clipboard_set),
            clipboard_query: self.pending_osc52_clipboard_query,
            command_zones: self.command_zones@,
            zone_state: self.current_zone_state,
            dynamic_fg: self.dynamic_fg,
            dynamic_bg: self.dynamic_bg,
            dynamic_cursor_color: self.dynamic_cursor_color,
            notifications: notifications_view(self.pending_notifications@),
        }
    }
}

impl TerminalModel {
    /// A terminal as it is made: empty, the cursor at the top left, visible, and
    /// autowrap on.
    pub open spec fn initial(cols: int, rows: int) -> TerminalModel {
        TerminalModel {
            grid: GridModel::blank(rows as nat, cols as nat),
            alt_grid: GridModel::blank(rows as nat, cols as nat),
            scrollback: Seq::empty(),
            selection: None,
            scroll_offset: 0,
            max_scrollback: 10000,
            use_alt_buffer: false,
            cursor_row: 0,
            cursor_col: 0,
            saved_cursor_row: 0,
            saved_cursor_col: 0,
            saved_cursor: None,
            tab_stops: standard_tab_stops(cols),
            last_printed_char: None,
            widest: 1,
            alt_cursor_row: 0,
            alt_cursor_col: 0,
            cursor_shape: CursorShape::Block,
            current_fg: Color::Default,
            current_bg: Color::Default,
            current_flags: StyleFlags::none(),
            window_title: Seq::empty(),
            global_bg: Color::Default,
            scroll_region_top: 0,
            scroll_region_bottom: rows - 1,
            utf8: Seq::empty(),
            utf8_expected: 0,
            pending_escape: Seq::empty(),
            g0_charset: Charset::Ascii,
            g1_charset: Charset::Ascii,
            active_charset: Charset::Ascii,
            ime_enabled: false,
            preedit_text: Seq::empty(),
            preedit_selection: None,
            modes: Set::<u16>::empty().insert(25).insert(7),
            output: Seq::empty(),
            keyboard_flags: 0,
            keyboard_stack: Seq::empty(),
            alt_keyboard_flags: 0,
            alt_keyboard_stack: Seq::empty(),
            modify_other_keys: 0,
            format_other_keys: 0,
            clipboard_requests: Seq::empty(),
            paste_password: None,
            dirty: super::dirty::line_range(0, rows - 1),
            grid_version: 1,
            row_versions: Seq::new(rows as nat, |r: int| 1u64),
            visible_cache: None,
            hyperlink: None,
            sync_output_active: false,
            clipboard_set: None,
            clipboard_query: false,
            command_zones: Seq::empty(),
            zone_state: ZoneState::Idle,
            dynamic_fg: None,
            dynamic_bg: None,
            dynamic_cursor_color: None,
            notifications: Seq::empty(),
        }
    }
}

impl TerminalState {
    /// What holds of every terminal state. Synchronized output has a moment at which it
    /// started.
    pub open spec fn wf(&self) -> bool {
        &&& self@.wf()
        &&& self.grid.wf()
        &&& self.alt_grid.wf()
        &&& self.dirty_region.wf()
        &&& self.kitty_graphics.wf()
        &&& self.sync_output_active == (self.sync_output_start is Some)
    }

    pub(crate) fn default_tab_stops(cols: usize) -> (stops: Vec<bool>)
        ensures
            stops@ == standard_tab_stops(cols as int),
    {
        let mut stops: Vec<bool> = Vec::new();
        let mut c: usize = 0;
        while c < cols
            invariant
                c <= cols,
                stops@ == standard_tab_stops(c as int),
            decreases cols - c,
        {
            proof {
                assert(standard_tab_stops(c as int).push(c % 8 == 0 && c != 0)
                    =~= standard_tab_stops(c + 1));
            }
            stops.push(c % 8 == 0 && c != 0);
            c = c + 1;
        }
        stops
    }

    /// A terminal of the given size, brought into the supported range.
    pub fn new(cols: usize, rows: usize) -> (state: Self)
        ensures
            state.wf(),
            state@ == TerminalModel::initial(
                clamped(cols as int, 1, MAX_TERMINAL_COLS as int),
                clamped(rows as int, 1, MAX_TERMINAL_ROWS as int),
            ),
    {
        let (cols, rows) = clamp_terminal_dimensions(cols, rows);
        proof {
            assert(rows * cols <= 512 * 1024) by (nonlinear_arith)
                requires
                    rows <= 512,
                    cols <= 1024,
            ;
        }
        let grid = TerminalGrid::new(rows, cols);
        let alt_grid = TerminalGrid::new(rows, cols);
        let mut modes = TerminalModes::new();
        modes.insert(25);
        modes.insert(7);
        let mut dirty_region = DirtyRegion::new(cols);
        // Everything has to be drawn the first time.
        dirty_region.mark_all(rows);
        let state = TerminalState {
            grid,
            alt_grid,
            scrollback: VecDeque::new(),
            selection: None,
            scroll_offset: 0,
            max_scrollback: 10000,
            use_alt_buffer: false,
            cursor_row: 0,
            cursor_col: 0,
            saved_cursor_row: 0,
            saved_cursor_col: 0,
            saved_cursor: None,
            tab_stops: Self::default_tab_stops(cols),
            last_printed_char: None,
            widest: Ghost(1),
            alt_cursor_row: 0,
            alt_cursor_col: 0,
            cursor_shape: CursorShape::default(),
            current_fg: Color::Default,
            current_bg: Color::Default,
            current_flags: StyleFlags::new(),
            window_title: String::new(),
            global_bg: Color::Default,
            scroll_region_top: 0,
            scroll_region_bottom: rows - 1,
            utf8_buf: Vec::new(),
            utf8_expected: 0,
            pending_escape: Vec::new(),
            g0_charset: Charset::Ascii,
            g1_charset: Charset::Ascii,
            active_charset: Charset::Ascii,
            ime_enabled: false,
            preedit_text: String::new(),
            preedit_selection: None,
            modes,
            output_buffer: Vec::new(),
            keyboard_enhancement_flags: 0,
            keyboard_enhancement_stack: Vec::new(),
            alt_keyboard_enhancement_flags: 0,
            alt_keyboard_enhancement_stack: Vec::new(),
            xterm_modify_other_keys: 0,
            xterm_format_other_keys: 0,
            pending_clipboard_requests: Vec::new(),
            pending_paste_password: None,
            kitty_graphics: KittyGraphicsState::new(),
            dirty_region,
            grid_version: 1,
            row_versions: vec![1u64; rows],
            visible_cells_cache: None,
            current_hyperlink: None,
            sync_output_active: false,
            sync_output_start: None,
            pending_osc52_clipboard_set: None,
            pending_osc52_clipboard_query: false,
            command_zones: VecDeque::new(),
            current_zone_state: ZoneState::Idle,
            dynamic_fg: None,
            dynamic_bg: None,
            dynamic_cursor_color: None,
            pending_notifications: Vec::new(),
        };
        proof {
            let want = TerminalModel::initial(cols as int, rows as int);
            assert(state@.scrollback =~= want.scrollback);
            assert(state@.row_versions =~= want.row_versions);
            assert(state@.clipboard_requests =~= want.clipboard_requests);
            assert(state@.notifications =~= want.notifications);
            assert(state@.window_title =~= want.window_title);
            assert(state@.preedit_text =~= want.preedit_text);
            assert(state@ =~= want);
            TerminalGrid::view_is_wf(&state.grid);
            TerminalGrid::view_is_wf(&state.alt_grid);
        }
        state
    }
}

} // verus!
