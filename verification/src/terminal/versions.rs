//! What is shown does not depend on the version that changes are marked with.

use super::csi::{arg, count, csi_params};
use super::model::{
    next_stop, next_stops, prev_stops, standard_tab_stops, TerminalModel,
};
use super::osc::{color_reply, first_chars};
use super::parser::{ascii_end, char_length, is_private, osc_end_at, CsiParts, Step};
use super::rendition::sgr_groups;
use crate::cell::{Color, CursorShape};
use crate::char_width::char_width;
use crate::grid::GridModel;
use crate::scrollback::LineModel;
use crate::text::split_once;
use vstd::prelude::*;
use vstd::utf8::{decode_utf8, valid_utf8};

verus! {

impl TerminalModel {
    /// Whether all is the same but for the versions by which changed lines are found.
    pub open spec fn alike(self, other: Self) -> bool {
        self == (TerminalModel {
            grid_version: self.grid_version,
            row_versions: self.row_versions,
            ..other
        })
    }
}

/// Whether two steps read the same bytes and lead to states that are alike.
pub open spec fn steps_alike(s: Step, t: Step) -> bool {
    s.state.alike(t.state) && s.next == t.next && s.graphics == t.graphics
}

proof fn lemma_pushed(a: TerminalModel, b: TerminalModel, line: LineModel)
    requires
        a.alike(b),
    ensures
        a.pushed(line).alike(b.pushed(line)),
{
}

proof fn lemma_region_up(a: TerminalModel, b: TerminalModel, top: int, bottom: int)
    requires
        a.alike(b),
    ensures
        a.region_up(top, bottom).alike(b.region_up(top, bottom)),
{
    lemma_pushed(a, b, b.leaving_line(top));
}

proof fn lemma_region_down(a: TerminalModel, b: TerminalModel, top: int, bottom: int)
    requires
        a.alike(b),
    ensures
        a.region_down(top, bottom).alike(b.region_down(top, bottom)),
{
}

proof fn lemma_region_up_times(a: TerminalModel, b: TerminalModel, n: nat)
    requires
        a.alike(b),
    ensures
        a.region_up_times(n).alike(b.region_up_times(n)),
    decreases n,
{
    if n > 0 {
        let m = (n - 1) as nat;
        lemma_region_up_times(a, b, m);
        let x = a.region_up_times(m);
        let y = b.region_up_times(m);
        lemma_region_up(x, y, b.scroll_region_top, b.scroll_region_bottom);
    }
}

proof fn lemma_region_down_times(a: TerminalModel, b: TerminalModel, n: nat)
    requires
        a.alike(b),
    ensures
        a.region_down_times(n).alike(b.region_down_times(n)),
    decreases n,
{
    if n > 0 {
        let m = (n - 1) as nat;
        lemma_region_down_times(a, b, m);
        let x = a.region_down_times(m);
        let y = b.region_down_times(m);
        lemma_region_down(x, y, b.scroll_region_top, b.scroll_region_bottom);
    }
}

proof fn lemma_line_fed(a: TerminalModel, b: TerminalModel)
    requires
        a.alike(b),
    ensures
        a.line_fed().alike(b.line_fed()),
{
    lemma_region_up(a, b, b.scroll_region_top, b.scroll_region_bottom);
}

proof fn lemma_wrapped_around(a: TerminalModel, b: TerminalModel)
    requires
        a.alike(b),
    ensures
        a.wrapped_around().alike(b.wrapped_around()),
{
    reveal(TerminalModel::wrapped_around);
    let x = TerminalModel {
        grid: GridModel { wrapped: a.grid.wrapped.update(a.cursor_row, true), ..a.grid },
        cursor_col: 0,
        ..a
    };
    let y = TerminalModel {
        grid: GridModel { wrapped: b.grid.wrapped.update(b.cursor_row, true), ..b.grid },
        cursor_col: 0,
        ..b
    };
    lemma_line_fed(x, y);
}

proof fn lemma_reverse_indexed(a: TerminalModel, b: TerminalModel)
    requires
        a.alike(b),
    ensures
        a.reverse_indexed().alike(b.reverse_indexed()),
{
    reveal(TerminalModel::reverse_indexed);
    lemma_region_down(a, b, b.scroll_region_top, b.scroll_region_bottom);
}

proof fn lemma_indexed(a: TerminalModel, b: TerminalModel)
    requires
        a.alike(b),
    ensures
        a.indexed().alike(b.indexed()),
{
    reveal(TerminalModel::indexed);
    lemma_region_up(a, b, b.scroll_region_top, b.scroll_region_bottom);
}

proof fn lemma_combined(a: TerminalModel, b: TerminalModel, mark: char)
    requires
        a.alike(b),
    ensures
        a.combined(mark).alike(b.combined(mark)),
{
}

proof fn lemma_made_fit(a: TerminalModel, b: TerminalModel, width: int)
    requires
        a.alike(b),
    ensures
        a.made_fit(width).alike(b.made_fit(width)),
{
    lemma_wrapped_around(a, b);
}

proof fn lemma_made_room(a: TerminalModel, b: TerminalModel, row: int, col: int, count: int)
    requires
        a.alike(b),
    ensures
        a.made_room(row, col, count).alike(b.made_room(row, col, count)),
{
}

proof fn lemma_written(a: TerminalModel, b: TerminalModel, ch: char, width: int)
    requires
        a.alike(b),
    ensures
        a.written(ch, width).alike(b.written(ch, width)),
{
}

#[verifier::spinoff_prover]
#[verifier::rlimit(60)]
proof fn lemma_printed(a: TerminalModel, b: TerminalModel, ch: char)
    requires
        a.alike(b),
    ensures
        a.printed(ch).alike(b.printed(ch)),
{
    reveal(TerminalModel::printed);
    let c = b.translated(ch);
    let width = char_width(c) as int;
    if width == 0 {
        lemma_combined(a, b, c);
    }
    lemma_made_fit(a, b, width);
    let x = a.made_fit(width);
    let y = b.made_fit(width);
    if y.has(4) {
        lemma_made_room(x, y, y.cursor_row, y.cursor_col, width);
    }
    if width != 0 {
        if y.has(4) {
            lemma_written(
                x.made_room(y.cursor_row, y.cursor_col, width),
                y.made_room(y.cursor_row, y.cursor_col, width),
                c,
                width,
            );
        } else {
            lemma_written(x, y, c, width);
        }
    }
}

proof fn lemma_printed_times(a: TerminalModel, b: TerminalModel, ch: char, n: nat)
    requires
        a.alike(b),
    ensures
        a.printed_times(ch, n).alike(b.printed_times(ch, n)),
    decreases n,
{
    if n > 0 {
        let m = (n - 1) as nat;
        lemma_printed_times(a, b, ch, m);
        lemma_printed(a.printed_times(ch, m), b.printed_times(ch, m), ch);
    }
}

proof fn lemma_run_written(a: TerminalModel, b: TerminalModel, bytes: Seq<u8>, n: int)
    requires
        a.alike(b),
    ensures
        a.run_written(bytes, n).alike(b.run_written(bytes, n)),
{
    reveal(TerminalModel::run_written);
}

#[verifier::spinoff_prover]
#[verifier::rlimit(60)]
proof fn lemma_run_placed(a: TerminalModel, b: TerminalModel, bytes: Seq<u8>)
    requires
        a.alike(b),
    ensures
        a.run_placed(bytes).alike(b.run_placed(bytes)),
    decreases
            bytes.len(),
            if b.cursor_col >= b.cols() {
                1int
            } else {
                0int
            },
{
    reveal(TerminalModel::run_placed);
    if bytes.len() > 0 {
        let room = b.cols() - b.cursor_col;
        let n = if bytes.len() < room {
            bytes.len() as int
        } else {
            room
        };
        lemma_run_written(a, b, bytes, n);
        let x = a.run_written(bytes, n);
        let y = b.run_written(bytes, n);
        lemma_wrapped_around(x, y);
        let next = y.wrapped_around();
        if n < bytes.len() && b.has(7) && 0 <= n && next.cursor_col < next.cols() {
            lemma_run_placed(x.wrapped_around(), next, bytes.subrange(n, bytes.len() as int));
        }
    }
}

proof fn lemma_run_printed(a: TerminalModel, b: TerminalModel, bytes: Seq<u8>)
    requires
        a.alike(b),
    ensures
        a.run_printed(bytes).alike(b.run_printed(bytes)),
{
    reveal(TerminalModel::run_printed);
    let last = Some(bytes.last() as char);
    lemma_run_placed(
        TerminalModel { last_printed_char: last, ..a.held_behind() },
        TerminalModel { last_printed_char: last, ..b.held_behind() },
        bytes,
    );
}

proof fn lemma_cursor_saved(a: TerminalModel, b: TerminalModel)
    requires
        a.alike(b),
    ensures
        a.cursor_saved().alike(b.cursor_saved()),
{
    reveal(TerminalModel::cursor_saved);
}

proof fn lemma_cursor_restored(a: TerminalModel, b: TerminalModel)
    requires
        a.alike(b),
    ensures
        a.cursor_restored().alike(b.cursor_restored()),
{
    reveal(TerminalModel::cursor_restored);
}

proof fn lemma_cursor_placed(a: TerminalModel, b: TerminalModel, row: int, col: int)
    requires
        a.alike(b),
    ensures
        a.cursor_placed(row, col).alike(b.cursor_placed(row, col)),
{
    reveal(TerminalModel::cursor_placed);
}

proof fn lemma_with_row(a: TerminalModel, b: TerminalModel, row: int)
    requires
        a.alike(b),
    ensures
        a.with_row(row).alike(b.with_row(row)),
{
    reveal(TerminalModel::with_row);
}

proof fn lemma_with_col(a: TerminalModel, b: TerminalModel, col: int)
    requires
        a.alike(b),
    ensures
        a.with_col(col).alike(b.with_col(col)),
{
    reveal(TerminalModel::with_col);
}

proof fn lemma_erased_below(a: TerminalModel, b: TerminalModel)
    requires
        a.alike(b),
    ensures
        a.erased_below().alike(b.erased_below()),
{
    reveal(TerminalModel::erased_below);
    assert(a.erased_below().grid.lines =~= b.erased_below().grid.lines);
}

proof fn lemma_erased_above(a: TerminalModel, b: TerminalModel)
    requires
        a.alike(b),
    ensures
        a.erased_above().alike(b.erased_above()),
{
    reveal(TerminalModel::erased_above);
    assert(a.grid == b.grid);
}

proof fn lemma_erased_up_to_cursor(a: TerminalModel, b: TerminalModel)
    requires
        a.alike(b),
    ensures
        a.erased_up_to_cursor().alike(b.erased_up_to_cursor()),
{
    reveal(TerminalModel::erased_up_to_cursor);
}

proof fn lemma_erased_in_line(a: TerminalModel, b: TerminalModel, from: int, to: int)
    requires
        a.alike(b),
    ensures
        a.erased_in_line(from, to).alike(b.erased_in_line(from, to)),
{
    reveal(TerminalModel::erased_in_line);
}

proof fn lemma_erased_line(a: TerminalModel, b: TerminalModel)
    requires
        a.alike(b),
    ensures
        a.erased_line().alike(b.erased_line()),
{
    reveal(TerminalModel::erased_line);
}

proof fn lemma_erased_screen(a: TerminalModel, b: TerminalModel)
    requires
        a.alike(b),
    ensures
        a.erased_screen().alike(b.erased_screen()),
{
    reveal(TerminalModel::erased_screen);
}

proof fn lemma_cleared(a: TerminalModel, b: TerminalModel)
    requires
        a.alike(b),
    ensures
        a.cleared().alike(b.cleared()),
{
    reveal(TerminalModel::cleared);
    lemma_erased_screen(a, b);
}

proof fn lemma_aligned(a: TerminalModel, b: TerminalModel)
    requires
        a.alike(b),
    ensures
        a.aligned().alike(b.aligned()),
{
    reveal(TerminalModel::aligned);
}

proof fn lemma_lines_inserted(a: TerminalModel, b: TerminalModel, n: nat)
    requires
        a.alike(b),
    ensures
        a.lines_inserted(n).alike(b.lines_inserted(n)),
{
    reveal(TerminalModel::lines_inserted);
}

proof fn lemma_lines_deleted(a: TerminalModel, b: TerminalModel, n: nat)
    requires
        a.alike(b),
    ensures
        a.lines_deleted(n).alike(b.lines_deleted(n)),
{
    reveal(TerminalModel::lines_deleted);
}

proof fn lemma_chars_inserted(a: TerminalModel, b: TerminalModel, n: nat)
    requires
        a.alike(b),
    ensures
        a.chars_inserted(n).alike(b.chars_inserted(n)),
{
    reveal(TerminalModel::chars_inserted);
}

proof fn lemma_chars_deleted(a: TerminalModel, b: TerminalModel, n: nat)
    requires
        a.alike(b),
    ensures
        a.chars_deleted(n).alike(b.chars_deleted(n)),
{
    reveal(TerminalModel::chars_deleted);
}

proof fn lemma_chars_erased(a: TerminalModel, b: TerminalModel, n: int)
    requires
        a.alike(b),
    ensures
        a.chars_erased(n).alike(b.chars_erased(n)),
{
    reveal(TerminalModel::chars_erased);
}

proof fn lemma_tab_stop_at_cursor(a: TerminalModel, b: TerminalModel, v: bool)
    requires
        a.alike(b),
    ensures
        a.tab_stop_at_cursor(v).alike(b.tab_stop_at_cursor(v)),
{
    reveal(TerminalModel::tab_stop_at_cursor);
}

proof fn lemma_keyboard_flags_set(a: TerminalModel, b: TerminalModel, flags: u16, mode: u16)
    requires
        a.alike(b),
    ensures
        a.keyboard_flags_set(flags, mode).alike(b.keyboard_flags_set(flags, mode)),
{
    reveal(TerminalModel::keyboard_flags_set);
}

proof fn lemma_keyboard_flags_pushed(a: TerminalModel, b: TerminalModel, flags: u16)
    requires
        a.alike(b),
    ensures
        a.keyboard_flags_pushed(flags).alike(b.keyboard_flags_pushed(flags)),
{
    reveal(TerminalModel::keyboard_flags_pushed);
}

proof fn lemma_keyboard_flags_popped(a: TerminalModel, b: TerminalModel, n: nat)
    requires
        a.alike(b),
    ensures
        a.keyboard_flags_popped(n).alike(b.keyboard_flags_popped(n)),
{
    reveal(TerminalModel::keyboard_flags_popped);
}

proof fn lemma_alt_entered(a: TerminalModel, b: TerminalModel, mode: u16)
    requires
        a.alike(b),
    ensures
        a.alt_entered(mode).alike(b.alt_entered(mode)),
{
    reveal(TerminalModel::alt_entered);
    let x = (TerminalModel {
        saved_cursor_row: a.cursor_row,
        saved_cursor_col: a.cursor_col,
        alt_cursor_row: a.cursor_row,
        alt_cursor_col: a.cursor_col,
        scroll_offset: 0,
        use_alt_buffer: true,
        selection: None,
        ..a.buffers_swapped()
    }).full_region();
    let y = (TerminalModel {
        saved_cursor_row: b.cursor_row,
        saved_cursor_col: b.cursor_col,
        alt_cursor_row: b.cursor_row,
        alt_cursor_col: b.cursor_col,
        scroll_offset: 0,
        use_alt_buffer: true,
        selection: None,
        ..b.buffers_swapped()
    }).full_region();
    lemma_cleared(x, y);
}

proof fn lemma_alt_left(a: TerminalModel, b: TerminalModel, mode: u16)
    requires
        a.alike(b),
    ensures
        a.alt_left(mode).alike(b.alt_left(mode)),
{
    reveal(TerminalModel::alt_left);
}

proof fn lemma_sync_output_ended(a: TerminalModel, b: TerminalModel)
    requires
        a.alike(b),
    ensures
        a.sync_output_ended().alike(b.sync_output_ended()),
{
    reveal(TerminalModel::sync_output_ended);
}

proof fn lemma_mode_set(a: TerminalModel, b: TerminalModel, mode: u16, private: bool)
    requires
        a.alike(b),
    ensures
        a.mode_set(mode, private).alike(b.mode_set(mode, private)),
{
    reveal(TerminalModel::mode_set);
    lemma_cursor_saved(a, b);
    lemma_alt_entered(a, b, mode);
}

proof fn lemma_mode_reset(a: TerminalModel, b: TerminalModel, mode: u16, private: bool)
    requires
        a.alike(b),
    ensures
        a.mode_reset(mode, private).alike(b.mode_reset(mode, private)),
{
    reveal(TerminalModel::mode_reset);
    lemma_cursor_restored(a, b);
    lemma_alt_left(a, b, mode);
    lemma_sync_output_ended(a, b);
}

proof fn lemma_modes_set(a: TerminalModel, b: TerminalModel, modes: Seq<u16>, private: bool)
    requires
        a.alike(b),
    ensures
        a.modes_set(modes, private).alike(b.modes_set(modes, private)),
    decreases modes.len(),
{
    if modes.len() > 0 {
        let rest = modes.drop_last();
        lemma_modes_set(a, b, rest, private);
        lemma_mode_set(a.modes_set(rest, private), b.modes_set(rest, private), modes.last(), private);
    }
}

proof fn lemma_modes_reset(a: TerminalModel, b: TerminalModel, modes: Seq<u16>, private: bool)
    requires
        a.alike(b),
    ensures
        a.modes_reset(modes, private).alike(b.modes_reset(modes, private)),
    decreases modes.len(),
{
    if modes.len() > 0 {
        let rest = modes.drop_last();
        lemma_modes_reset(a, b, rest, private);
        lemma_mode_reset(a.modes_reset(rest, private), b.modes_reset(rest, private), modes.last(), private);
    }
}

proof fn lemma_reset_to_initial(a: TerminalModel, b: TerminalModel)
    requires
        a.alike(b),
    ensures
        a.reset_to_initial().alike(b.reset_to_initial()),
{
    reveal(TerminalModel::reset_to_initial);
    lemma_alt_left(a, b, 1049);
    let p = if a.use_alt_buffer {
        a.alt_left(1049)
    } else {
        a
    };
    let q = if b.use_alt_buffer {
        b.alt_left(1049)
    } else {
        b
    };
    let x = (TerminalModel {
        global_bg: Color::Default,
        tab_stops: standard_tab_stops(p.cols()),
        saved_cursor: None,
        modes: Set::<u16>::empty().insert(25).insert(7),
        scroll_offset: 0,
        scrollback: Seq::empty(),
        cursor_shape: CursorShape::Block,
        dynamic_fg: None,
        dynamic_bg: None,
        dynamic_cursor_color: None,
        keyboard_flags: 0,
        keyboard_stack: Seq::empty(),
        alt_keyboard_flags: 0,
        alt_keyboard_stack: Seq::empty(),
        selection: None,
        hyperlink: None,
        ..p.rendition_reset().charsets_reset().full_region()
    });
    let y = (TerminalModel {
        global_bg: Color::Default,
        tab_stops: standard_tab_stops(q.cols()),
        saved_cursor: None,
        modes: Set::<u16>::empty().insert(25).insert(7),
        scroll_offset: 0,
        scrollback: Seq::empty(),
        cursor_shape: CursorShape::Block,
        dynamic_fg: None,
        dynamic_bg: None,
        dynamic_cursor_color: None,
        keyboard_flags: 0,
        keyboard_stack: Seq::empty(),
        alt_keyboard_flags: 0,
        alt_keyboard_stack: Seq::empty(),
        selection: None,
        hyperlink: None,
        ..q.rendition_reset().charsets_reset().full_region()
    });
    lemma_cleared(x, y);
}

proof fn lemma_soft_reset(a: TerminalModel, b: TerminalModel)
    requires
        a.alike(b),
    ensures
        a.soft_reset().alike(b.soft_reset()),
{
    reveal(TerminalModel::soft_reset);
}

proof fn lemma_rendered(a: TerminalModel, b: TerminalModel, groups: Seq<Seq<u16>>)
    requires
        a.alike(b),
    ensures
        a.rendered(groups).alike(b.rendered(groups)),
{
    reveal(TerminalModel::rendered);
}

proof fn lemma_title_set(a: TerminalModel, b: TerminalModel, title: Seq<char>)
    requires
        a.alike(b),
    ensures
        a.title_set(title).alike(b.title_set(title)),
{
    reveal(TerminalModel::title_set);
}

proof fn lemma_hyperlink_set(a: TerminalModel, b: TerminalModel, value: Seq<char>)
    requires
        a.alike(b),
    ensures
        a.hyperlink_set(value).alike(b.hyperlink_set(value)),
{
    reveal(TerminalModel::hyperlink_set);
}

proof fn lemma_replied(a: TerminalModel, b: TerminalModel, bytes: Seq<u8>)
    requires
        a.alike(b),
    ensures
        a.replied(bytes).alike(b.replied(bytes)),
{
}

proof fn lemma_color_asked(a: TerminalModel, b: TerminalModel, command: Seq<char>)
    requires
        a.alike(b),
    ensures
        a.color_handled(command, "?"@).alike(b.color_handled(command, "?"@)),
{
    reveal(TerminalModel::color_handled);
    let color = if command == "10"@ {
        b.dynamic_fg.unwrap_or((255, 255, 255))
    } else if command == "11"@ {
        b.dynamic_bg.unwrap_or((0, 0, 0))
    } else {
        b.dynamic_cursor_color.unwrap_or((255, 255, 255))
    };
    let reply = color_reply(command, color);
    if command == "10"@ || command == "11"@ || command == "12"@ {
        assert(a.color_handled(command, "?"@) == a.replied(reply));
        assert(b.color_handled(command, "?"@) == b.replied(reply));
        lemma_replied(a, b, reply);
    }
}

proof fn lemma_color_handled(a: TerminalModel, b: TerminalModel, command: Seq<char>, value: Seq<char>)
    requires
        a.alike(b),
    ensures
        a.color_handled(command, value).alike(b.color_handled(command, value)),
{
    if value == "?"@ {
        lemma_color_asked(a, b, command);
    } else {
        reveal(TerminalModel::color_handled);
    }
}

proof fn lemma_notified(a: TerminalModel, b: TerminalModel, title: Seq<char>, body: Seq<char>)
    requires
        a.alike(b),
    ensures
        a.notified(title, body).alike(b.notified(title, body)),
{
    reveal(TerminalModel::notified);
}

proof fn lemma_rxvt_notified(a: TerminalModel, b: TerminalModel, value: Seq<char>)
    requires
        a.alike(b),
    ensures
        a.rxvt_notified(value).alike(b.rxvt_notified(value)),
{
    reveal(TerminalModel::rxvt_notified);
    reveal(TerminalModel::notified);
}

proof fn lemma_shell_marked(a: TerminalModel, b: TerminalModel, value: Seq<char>)
    requires
        a.alike(b),
    ensures
        a.shell_marked(value).alike(b.shell_marked(value)),
{
    reveal(TerminalModel::shell_marked);
}

proof fn lemma_clipboard_handled(a: TerminalModel, b: TerminalModel, value: Seq<char>)
    requires
        a.alike(b),
    ensures
        a.clipboard_handled(value).alike(b.clipboard_handled(value)),
{
    reveal(TerminalModel::clipboard_handled);
}

proof fn lemma_clipboard_asked(a: TerminalModel, b: TerminalModel, metadata: Seq<char>)
    requires
        a.alike(b),
    ensures
        a.clipboard_asked(metadata).alike(b.clipboard_asked(metadata)),
{
    reveal(TerminalModel::clipboard_asked);
}

proof fn lemma_osc(a: TerminalModel, b: TerminalModel, payload: Seq<char>)
    requires
        a.alike(b),
    ensures
        a.osc(payload).alike(b.osc(payload)),
{
    reveal(TerminalModel::osc);
    if let Some((command, value)) = split_once(payload, ';') {
        lemma_title_set(a, b, value);
        lemma_hyperlink_set(a, b, value);
        lemma_color_handled(a, b, command, value);
        lemma_notified(a, b, "jterm2"@, first_chars(value, 256));
        lemma_rxvt_notified(a, b, value);
        lemma_shell_marked(a, b, value);
        lemma_clipboard_handled(a, b, value);
        lemma_clipboard_asked(a, b, value);
        if let Some((metadata, _)) = split_once(value, ';') {
            lemma_clipboard_asked(a, b, metadata);
        }
    }
}

proof fn lemma_csi_erase_display(a: TerminalModel, b: TerminalModel, what: u16)
    requires
        a.alike(b),
    ensures
        a.csi_erase_display(what).alike(b.csi_erase_display(what)),
{
    reveal(TerminalModel::csi_erase_display);
    lemma_erased_below(a, b);
    lemma_erased_above(a, b);
    lemma_erased_screen(a, b);
}

proof fn lemma_csi_erase_line(a: TerminalModel, b: TerminalModel, what: u16)
    requires
        a.alike(b),
    ensures
        a.csi_erase_line(what).alike(b.csi_erase_line(what)),
{
    reveal(TerminalModel::csi_erase_line);
    lemma_erased_in_line(a, b, b.cursor_col, b.cols());
    lemma_erased_up_to_cursor(a, b);
    lemma_erased_line(a, b);
}

proof fn lemma_csi_clear_tabs(a: TerminalModel, b: TerminalModel, what: u16)
    requires
        a.alike(b),
    ensures
        a.csi_clear_tabs(what).alike(b.csi_clear_tabs(what)),
{
    reveal(TerminalModel::csi_clear_tabs);
    lemma_tab_stop_at_cursor(a, b, false);
}

proof fn lemma_csi_keyboard(a: TerminalModel, b: TerminalModel, params: Seq<u16>, prefix: Option<u8>)
    requires
        a.alike(b),
    ensures
        a.csi_keyboard(params, prefix).alike(b.csi_keyboard(params, prefix)),
{
    reveal(TerminalModel::csi_keyboard);
    lemma_cursor_restored(a, b);
    lemma_keyboard_flags_set(a, b, arg(params, 0, 0), arg(params, 1, 1));
    lemma_keyboard_flags_pushed(a, b, arg(params, 0, 0));
    lemma_keyboard_flags_popped(a, b, arg(params, 0, 1) as nat);
    lemma_keyboard_flags_popped(a, b, 1);
}

proof fn lemma_csi_status(a: TerminalModel, b: TerminalModel, what: u16)
    requires
        a.alike(b),
    ensures
        a.csi_status(what).alike(b.csi_status(what)),
{
    reveal(TerminalModel::csi_status);
}

proof fn lemma_csi_attributes(a: TerminalModel, b: TerminalModel, prefix: Option<u8>)
    requires
        a.alike(b),
    ensures
        a.csi_attributes(prefix).alike(b.csi_attributes(prefix)),
{
    reveal(TerminalModel::csi_attributes);
}

proof fn lemma_csi_request(a: TerminalModel, b: TerminalModel, params: Seq<u16>, prefix: Option<u8>, intermediates: Seq<u8>)
    requires
        a.alike(b),
    ensures
        a.csi_request(params, prefix, intermediates).alike(b.csi_request(params, prefix, intermediates)),
{
    reveal(TerminalModel::csi_request);
    lemma_soft_reset(a, b);
}

proof fn lemma_csi_region(a: TerminalModel, b: TerminalModel, params: Seq<u16>)
    requires
        a.alike(b),
    ensures
        a.csi_region(params).alike(b.csi_region(params)),
{
    reveal(TerminalModel::csi_region);
}

proof fn lemma_csi_shape(a: TerminalModel, b: TerminalModel, params: Seq<u16>, prefix: Option<u8>, intermediates: Seq<u8>)
    requires
        a.alike(b),
    ensures
        a.csi_shape(params, prefix, intermediates).alike(b.csi_shape(params, prefix, intermediates)),
{
    reveal(TerminalModel::csi_shape);
}

proof fn lemma_csi_rendition(a: TerminalModel, b: TerminalModel, params: Seq<u16>, raw: Seq<u8>, prefix: Option<u8>, intermediates: Seq<u8>)
    requires
        a.alike(b),
    ensures
        a.csi_rendition(params, raw, prefix, intermediates).alike(b.csi_rendition(params, raw, prefix, intermediates)),
{
    reveal(TerminalModel::csi_rendition);
    lemma_rendered(a, b, sgr_groups(raw));
}

proof fn lemma_csi_position(a: TerminalModel, b: TerminalModel, params: Seq<u16>, prefix: Option<u8>, intermediates: Seq<u8>)
    requires
        a.alike(b),
    ensures
        a.csi_position(params, prefix, intermediates).alike(b.csi_position(params, prefix, intermediates)),
{
    reveal(TerminalModel::csi_position);
    lemma_cursor_placed(a, b, arg(params, 0, 1) as int, arg(params, 1, 1) as int);
}

#[verifier::spinoff_prover]
#[verifier::rlimit(60)]
proof fn lemma_csi_move(a: TerminalModel, b: TerminalModel, cmd: char, params: Seq<u16>)
    requires
        a.alike(b),
    ensures
        a.csi_move(cmd, params).alike(b.csi_move(cmd, params)),
{
    reveal(TerminalModel::csi_move);
    let n = count(params) as int;
    let up = b.row_above(n);
    let down = b.row_below(n);
    match cmd {
        'A' => lemma_with_row(a, b, up),
        'B' => lemma_with_row(a, b, down),
        'C' => lemma_with_col(a, b, b.col_right(n)),
        'D' => lemma_with_col(a, b, b.col_left(n)),
        'E' => {
            lemma_with_row(a, b, down);
            lemma_with_col(a.with_row(down), b.with_row(down), 0);
        },
        'F' => {
            lemma_with_row(a, b, up);
            lemma_with_col(a.with_row(up), b.with_row(up), 0);
        },
        'G' | '`' => lemma_with_col(a, b, b.addressed_col(arg(params, 0, 1) as int)),
        'd' => lemma_with_row(a, b, b.addressed_row(arg(params, 0, 1) as int)),
        'I' => lemma_with_col(a, b, next_stops(b.tab_stops, b.cursor_col, n as nat)),
        'Z' => lemma_with_col(a, b, prev_stops(b.tab_stops, b.cursor_col, n as nat)),
        _ => {},
    }
}

proof fn lemma_csi(a: TerminalModel, b: TerminalModel, params: Seq<u16>, raw: Seq<u8>, cmd: char, prefix: Option<u8>, intermediates: Seq<u8>)
    requires
        a.alike(b),
    ensures
        a.csi(params, raw, cmd, prefix, intermediates).alike(b.csi(params, raw, cmd, prefix, intermediates)),
{
    reveal(TerminalModel::csi);
    let n = count(params) as nat;
    match cmd {
        'A' | 'B' | 'C' | 'D' | 'E' | 'F' | 'G' | '`' | 'd' | 'I' | 'Z' => {
            lemma_csi_move(a, b, cmd, params);
        },
        'b' => {
            if let Some(ch) = b.last_printed_char {
                lemma_printed_times(a, b, ch, n);
            }
        },
        'g' => lemma_csi_clear_tabs(a, b, arg(params, 0, 0)),
        'H' => lemma_cursor_placed(a, b, arg(params, 0, 1) as int, arg(params, 1, 1) as int),
        'f' => lemma_csi_position(a, b, params, prefix, intermediates),
        'J' => lemma_csi_erase_display(a, b, arg(params, 0, 0)),
        'K' => lemma_csi_erase_line(a, b, arg(params, 0, 0)),
        'L' => lemma_lines_inserted(a, b, n),
        'M' => lemma_lines_deleted(a, b, n),
        'm' => lemma_csi_rendition(a, b, params, raw, prefix, intermediates),
        's' => lemma_cursor_saved(a, b),
        'u' => lemma_csi_keyboard(a, b, params, prefix),
        'S' => lemma_region_up_times(a, b, n),
        'T' => lemma_region_down_times(a, b, n),
        'n' => lemma_csi_status(a, b, arg(params, 0, 0)),
        'c' => lemma_csi_attributes(a, b, prefix),
        'p' => lemma_csi_request(a, b, params, prefix, intermediates),
        'h' => lemma_modes_set(a, b, params, prefix == Some(63u8)),
        'l' => lemma_modes_reset(a, b, params, prefix == Some(63u8)),
        'r' => lemma_csi_region(a, b, params),
        '@' => lemma_chars_inserted(a, b, n),
        'P' => lemma_chars_deleted(a, b, n),
        'X' => lemma_chars_erased(a, b, n as int),
        'q' => lemma_csi_shape(a, b, params, prefix, intermediates),
        _ => {},
    }
}

proof fn lemma_charset_selected(a: TerminalModel, b: TerminalModel, first: bool, designator: u8)
    requires
        a.alike(b),
    ensures
        a.charset_selected(first, designator).alike(b.charset_selected(first, designator)),
{
    reveal(TerminalModel::charset_selected);
}

proof fn lemma_with_utf8(a: TerminalModel, b: TerminalModel, bytes: Seq<u8>, expected: int)
    requires
        a.alike(b),
    ensures
        a.with_utf8(bytes, expected).alike(b.with_utf8(bytes, expected)),
{
    reveal(TerminalModel::with_utf8);
}

proof fn lemma_printed_bytes(a: TerminalModel, b: TerminalModel, bytes: Seq<u8>)
    requires
        a.alike(b),
    ensures
        a.printed_bytes(bytes).alike(b.printed_bytes(bytes)),
{
    if valid_utf8(bytes) && decode_utf8(bytes).len() > 0 {
        lemma_printed(a, b, decode_utf8(bytes)[0]);
    }
}

proof fn lemma_csi_step(a: TerminalModel, b: TerminalModel, data: Seq<u8>, i: int)
    requires
        a.alike(b),
    ensures
        steps_alike(a.csi_step(data, i), b.csi_step(data, i)),
{
    reveal(TerminalModel::csi_step);
    reveal(TerminalModel::kept_from);
    if let Some(parts) = CsiParts::empty().read(data, i + 2) {
        let private = parts.params.len() > 0 && is_private(parts.params[0]);
        let raw = if private {
            parts.params.drop_first()
        } else {
            parts.params
        };
        let prefix = if private {
            Some(parts.params[0])
        } else {
            None
        };
        lemma_csi(
            a,
            b,
            csi_params(raw),
            raw,
            data[parts.end] as char,
            prefix,
            parts.intermediates,
        );
    }
}

proof fn lemma_escape_step(a: TerminalModel, b: TerminalModel, data: Seq<u8>, i: int)
    requires
        a.alike(b),
    ensures
        steps_alike(a.escape_step(data, i), b.escape_step(data, i)),
{
    reveal(TerminalModel::escape_step);
    reveal(TerminalModel::kept_from);
    if i + 1 < data.len() {
        let c = data[i + 1];
        if c == 55 {
            lemma_cursor_saved(a, b);
        } else if c == 56 {
            lemma_cursor_restored(a, b);
        } else if c == 69 {
            lemma_with_col(a, b, 0);
            lemma_line_fed(a.with_col(0), b.with_col(0));
        } else if c == 72 {
            lemma_tab_stop_at_cursor(a, b, true);
        } else if c == 99 {
            lemma_reset_to_initial(a, b);
        } else if c == 35 {
            lemma_aligned(a, b);
        } else if c == 93 {
            reveal(TerminalModel::osc_step);
            let end = osc_end_at(data, i + 2);
            let payload = data.subrange(i + 2, end);
            if valid_utf8(payload) {
                lemma_osc(a, b, decode_utf8(payload));
            }
        } else if c == 80 || c == 88 || c == 94 || c == 95 {
            reveal(TerminalModel::string_step);
        } else if c == 40 || c == 41 {
            lemma_charset_selected(a, b, c == 40, data[i + 2]);
        } else if c == 77 {
            lemma_reverse_indexed(a, b);
        } else if c == 68 {
            lemma_indexed(a, b);
        } else if c == 91 {
            lemma_csi_step(a, b, data, i);
        }
    }
}

proof fn lemma_trail_step(a: TerminalModel, b: TerminalModel, data: Seq<u8>, i: int)
    requires
        a.alike(b),
    ensures
        steps_alike(a.trail_step(data, i), b.trail_step(data, i)),
{
    reveal(TerminalModel::trail_step);
    let bytes = b.utf8.push(data[i]);
    lemma_printed_bytes(a, b, bytes);
    lemma_with_utf8(a.printed_bytes(bytes), b.printed_bytes(bytes), Seq::empty(), 0);
    lemma_with_utf8(a, b, bytes, b.utf8_expected);
    lemma_with_utf8(a, b, Seq::empty(), 0);
}

#[verifier::spinoff_prover]
#[verifier::rlimit(60)]
proof fn lemma_step(a: TerminalModel, b: TerminalModel, data: Seq<u8>, i: int)
    requires
        a.alike(b),
    ensures
        steps_alike(a.step(data, i), b.step(data, i)),
{
    reveal(TerminalModel::step);
    let c = data[i];
    if c == 8 {
        lemma_with_col(
            a,
            b,
            if b.cursor_col > 0 {
                b.cursor_col - 1
            } else {
                0
            },
        );
    } else if c == 127 || c == 7 {
    } else if c == 10 {
        lemma_line_fed(a, b);
    } else if c == 13 {
        lemma_with_col(a, b, 0);
    } else if c == 14 || c == 15 {
        reveal(TerminalModel::with_active);
    } else if c == 9 {
        lemma_with_col(a, b, next_stop(b.tab_stops, b.cursor_col));
    } else if c == 27 {
        lemma_escape_step(a, b, data, i);
    } else if 32 <= c <= 126 {
        reveal(TerminalModel::ascii_step);
        lemma_run_printed(a, b, data.subrange(i, ascii_end(data, i + 1)));
        lemma_printed(a, b, c as char);
    } else if char_length(c) > 0 {
        let n = char_length(c);
        reveal(TerminalModel::lead_step);
        lemma_printed_bytes(a, b, data.subrange(i, i + n));
        lemma_with_utf8(a, b, seq![c], n);
    } else {
        lemma_trail_step(a, b, data, i);
    }
}

/// However input is read, it is read the same whatever the versions are.
proof fn lemma_run(a: TerminalModel, b: TerminalModel, data: Seq<u8>, i: int)
    requires
        a.alike(b),
    ensures
        a.run(data, i).0.alike(b.run(data, i).0),
        a.run(data, i).1 == b.run(data, i).1,
        a.leaves_sync(data, i) == b.leaves_sync(data, i),
        a.writes_narrow(data, i) == b.writes_narrow(data, i),
    decreases data.len() - i,
{
    if i < data.len() {
        lemma_step(a, b, data, i);
        let s = a.step(data, i);
        let t = b.step(data, i);
        if i < t.next <= data.len() {
            lemma_run(s.state, t.state, data, t.next);
        }
    }
}

/// A batch of input shows what the same input shows by itself: screen, cursor, history,
/// replies, graphics commands and all else are the same but for the versions by which
/// changed lines are found.
pub proof fn a_batch_shows_the_same(m: TerminalModel, input: Seq<u8>)
    ensures
        m.next_version().fed(input).0.alike(m.fed(input).0),
        m.next_version().fed(input).1 == m.fed(input).1,
        m.next_version().fed_leaves_sync(input) == m.fed_leaves_sync(input),
        m.next_version().fed_writes_narrow(input) == m.fed_writes_narrow(input),
{
    lemma_run(
        m.next_version().with_none_kept(),
        m.with_none_kept(),
        m.behind_kept(input),
        0,
    );
}

// ---- input without escape sequences ----

proof fn lemma_wrapping_keeps_version(m: TerminalModel)
    ensures
        m.wrapped_around().grid_version == m.grid_version,
{
    reveal(TerminalModel::wrapped_around);
}

proof fn lemma_printing_keeps_version(m: TerminalModel, ch: char)
    ensures
        m.printed(ch).grid_version == m.grid_version,
{
    reveal(TerminalModel::printed);
    lemma_wrapping_keeps_version(m);
}

proof fn lemma_placing_keeps_version(m: TerminalModel, bytes: Seq<u8>)
    ensures
        m.run_placed(bytes).grid_version == m.grid_version,
    decreases
            bytes.len(),
            if m.cursor_col >= m.cols() {
                1int
            } else {
                0int
            },
{
    reveal(TerminalModel::run_placed);
    reveal(TerminalModel::run_written);
    if bytes.len() > 0 {
        let room = m.cols() - m.cursor_col;
        let n = if bytes.len() < room {
            bytes.len() as int
        } else {
            room
        };
        let done = m.run_written(bytes, n);
        lemma_wrapping_keeps_version(done);
        let next = done.wrapped_around();
        if n < bytes.len() && m.has(7) && 0 <= n && next.cursor_col < next.cols() {
            lemma_placing_keeps_version(next, bytes.subrange(n, bytes.len() as int));
        }
    }
}

proof fn lemma_plain_step_keeps_version(m: TerminalModel, data: Seq<u8>, i: int)
    requires
        data[i] != 27,
    ensures
        m.step(data, i).state.grid_version == m.grid_version,
{
    reveal(TerminalModel::step);
    let c = data[i];
    if 32 <= c <= 126 {
        reveal(TerminalModel::ascii_step);
        reveal(TerminalModel::run_printed);
        let bytes = data.subrange(i, ascii_end(data, i + 1));
        lemma_placing_keeps_version(
            TerminalModel { last_printed_char: Some(bytes.last() as char), ..m.held_behind() },
            bytes,
        );
        lemma_printing_keeps_version(m, c as char);
    } else if char_length(c) > 0 {
        reveal(TerminalModel::lead_step);
        reveal(TerminalModel::with_utf8);
        let bytes = data.subrange(i, i + char_length(c));
        lemma_printing_keeps_version(m, decode_utf8(bytes)[0]);
    } else {
        reveal(TerminalModel::trail_step);
        reveal(TerminalModel::with_utf8);
        reveal(TerminalModel::with_col);
        reveal(TerminalModel::with_active);
        lemma_printing_keeps_version(m, decode_utf8(m.utf8.push(c))[0]);
    }
}

proof fn lemma_plain_run_keeps_version(m: TerminalModel, data: Seq<u8>, i: int)
    requires
        0 <= i,
        forall|k: int| 0 <= k < data.len() ==> #[trigger] data[k] != 27,
    ensures
        m.run(data, i).0.grid_version == m.grid_version,
    decreases data.len() - i,
{
    if i < data.len() {
        lemma_plain_step_keeps_version(m, data, i);
        let s = m.step(data, i);
        if i < s.next <= data.len() {
            lemma_plain_run_keeps_version(s.state, data, s.next);
        }
    }
}

/// A batch without escape sequences is one version, however long it is.
pub proof fn a_batch_is_one_version(m: TerminalModel, input: Seq<u8>)
    requires
        m.pending_escape.len() == 0,
        forall|k: int| 0 <= k < input.len() ==> #[trigger] input[k] != 27,
    ensures
        m.next_version().fed(input).0.grid_version == m.grid_version.wrapping_add(1),
{
    assert(m.pending_escape + input =~= input);
    let n = m.next_version();
    lemma_plain_run_keeps_version(
        TerminalModel { pending_escape: Seq::empty(), ..n },
        n.pending_escape + input,
        0,
    );
}

} // verus!
