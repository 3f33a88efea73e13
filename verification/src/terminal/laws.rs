//! What holds of a terminal whatever a program does.

use super::model::TerminalModel;
use super::modes::is_tracked;
use super::parser::{ascii_end, char_length, continues_char};
use super::resize::at_most;
use super::selection::text_between;
use super::types::{Charset, Selection, SelectionMode, MAX_TERMINAL_COLS, MAX_TERMINAL_ROWS};
use crate::cell::{TerminalCell, UnderlineStyle};
use crate::char_width::char_width;
use crate::grid::line_of;
use crate::scrollback::LineModel;
use vstd::prelude::*;
use vstd::utf8::{
    char_is_scalar, encode_scalar, encode_utf8, encode_utf8_decode_utf8, encode_utf8_valid_utf8,
};

verus! {

/// Whatever happens in between, restoring the cursor brings it back to where it was
/// saved, with its rendition, character sets and origin mode, on a screen of the same
/// size. (Right behind the last column it comes back on the last column.)
pub proof fn a_saved_cursor_is_restored(m: TerminalModel, later: TerminalModel)
    requires
        m.wf(),
        later.wf(),
        later.saved_cursor == m.cursor_saved().saved_cursor,
        later.rows() == m.rows(),
        later.cols() == m.cols(),
    ensures
        ({
            let r = later.cursor_restored();
            &&& r.cursor_row == m.cursor_row
            &&& r.cursor_col == at_most(m.cursor_col, m.cols() - 1)
            &&& r.current_fg == m.current_fg
            &&& r.current_bg == m.current_bg
            &&& r.current_flags == m.current_flags
            &&& r.g0_charset == m.g0_charset
            &&& r.g1_charset == m.g1_charset
            &&& r.active_charset == m.active_charset
            &&& r.has(6) == m.has(6)
            &&& r.grid == later.grid
            &&& r.scrollback == later.scrollback
        }),
{
    reveal(TerminalModel::cursor_saved);
    reveal(TerminalModel::cursor_restored);
}

/// The alternate screen comes up empty and the main screen waits behind it; whatever is
/// done to the alternate screen, leaving it brings back the main screen and the cursor
/// as they were.
pub proof fn the_main_screen_comes_back(m: TerminalModel, later: TerminalModel, mode: u16)
    requires
        m.wf(),
        !m.use_alt_buffer,
        later.wf(),
        later.use_alt_buffer,
        later.alt_grid == m.alt_entered(mode).alt_grid,
        later.saved_cursor_row == m.alt_entered(mode).saved_cursor_row,
        later.saved_cursor_col == m.alt_entered(mode).saved_cursor_col,
        later.scrollback == m.alt_entered(mode).scrollback,
    ensures
        m.alt_entered(mode).use_alt_buffer,
        forall|r: int|
            0 <= r < m.rows() ==> #[trigger] m.alt_entered(mode).grid.lines[r] == line_of(
                m.blank(),
                m.grid.cols,
            ),
        ({
            let back = later.alt_left(mode);
            &&& !back.use_alt_buffer
            &&& back.grid == m.grid
            &&& back.scrollback == m.scrollback
            &&& back.cursor_row == m.cursor_row
            &&& back.cursor_col == m.cursor_col
            &&& back.scroll_region_top == 0
            &&& back.scroll_region_bottom == m.rows() - 1
            &&& back.selection is None
        }),
{
    reveal(TerminalModel::alt_entered);
    reveal(TerminalModel::alt_left);
    reveal(TerminalModel::cleared);
    reveal(TerminalModel::erased_screen);
}

/// A mode that a program sets is set, one that it resets is not, and no other mode
/// changes with it. (The modes with more to them, as the alternate screen, are not meant.)
pub proof fn modes_are_set_and_reset(m: TerminalModel, mode: u16, other: u16)
    requires
        is_tracked(mode),
        mode != 4 && mode != 47 && mode != 1047 && mode != 1048 && mode != 1049,
        other != mode,
    ensures
        m.mode_set(mode, true).has(mode),
        !m.mode_reset(mode, true).has(mode),
        m.mode_set(mode, true).has(other) == m.has(other),
        m.mode_reset(mode, true).has(other) == m.has(other),
{
    reveal(TerminalModel::mode_set);
    reveal(TerminalModel::mode_reset);
    reveal(TerminalModel::sync_output_ended);
}

/// Keyboard flags that a program pushes are gone when it pops them: what was before is
/// back. (With thirty-two entries waiting the oldest is lost.)
pub proof fn popped_keyboard_flags_are_those_before(m: TerminalModel, flags: u16)
    requires
        m.keyboard_stack.len() < 32,
    ensures
        m.keyboard_flags_pushed(flags).keyboard_flags == flags,
        m.keyboard_flags_pushed(flags).keyboard_flags_popped(1) == m,
{
    reveal(TerminalModel::keyboard_flags_pushed);
    reveal(TerminalModel::keyboard_flags_popped);
    let p = m.keyboard_flags_pushed(flags);
    assert(p.keyboard_stack.subrange(0, p.keyboard_stack.len() - 1) =~= m.keyboard_stack);
}

/// A linefeed on the last line of the whole main screen keeps the text: the first line
/// enters the scrollback as the newest, all others move up by one, and a blank line
/// comes at the bottom.
pub proof fn a_linefeed_at_the_bottom_keeps_the_text(m: TerminalModel)
    requires
        m.wf(),
        !m.use_alt_buffer,
        m.scroll_region_top == 0,
        m.scroll_region_bottom == m.rows() - 1,
        m.cursor_row == m.rows() - 1,
    ensures
        ({
            let f = m.line_fed();
            &&& f.scrollback.len() > 0
            &&& f.scrollback.last() == m.leaving_line(0)
            &&& m.scrollback.len() < m.most_lines() ==> f.scrollback == m.scrollback.push(
                m.leaving_line(0),
            )
            &&& f.scrollback.len() <= m.max_scrollback
            &&& f.cursor_row == m.cursor_row
            &&& f.cursor_col == m.cursor_col
            &&& forall|r: int|
                0 <= r < m.rows() - 1 ==> #[trigger] f.grid.lines[r] == m.grid.lines[r + 1]
            &&& f.grid.lines[m.rows() - 1] == line_of(TerminalCell::blank(), m.grid.cols)
        }),
{
}

/// Scrolling within a region leaves the lines outside of it alone, and the scrollback
/// too unless the region is the whole main screen.
pub proof fn scrolling_stays_within_the_region(m: TerminalModel, top: int, bottom: int)
    requires
        m.wf(),
        0 <= top <= bottom < m.rows(),
    ensures
        forall|r: int|
            0 <= r < m.rows() && !(top <= r <= bottom) ==> #[trigger] m.region_up(
                top,
                bottom,
            ).grid.lines[r] == m.grid.lines[r],
        forall|r: int|
            0 <= r < m.rows() && !(top <= r <= bottom) ==> #[trigger] m.region_down(
                top,
                bottom,
            ).grid.lines[r] == m.grid.lines[r],
        m.region_down(top, bottom).scrollback == m.scrollback,
        top > 0 || bottom < m.rows() - 1 || m.use_alt_buffer ==> m.region_up(
            top,
            bottom,
        ).scrollback == m.scrollback,
        m.region_up(top, bottom).cursor_row == m.cursor_row,
        m.region_down(top, bottom).cursor_row == m.cursor_row,
{
}

/// A view into the past stays on its lines when new ones come in behind them.
pub proof fn a_view_into_the_past_stays(m: TerminalModel, line: LineModel)
    requires
        m.wf(),
        !m.use_alt_buffer,
        0 < m.scroll_offset,
        m.scroll_offset < m.most_lines(),
    ensures
        m.pushed(line).scroll_offset == m.scroll_offset + 1,
        m.pushed(line).scrollback[m.pushed(line).scrollback.len() - m.pushed(line).scroll_offset]
            == m.scrollback[m.scrollback.len() - m.scroll_offset],
{
}

/// The screen has the size that it is given, a scroll region that is the whole screen
/// stays so, the cursor stays on the screen, and the text stays where it is: but for the
/// lines that leave at the top, where the screen gets fewer, and enter the scrollback.
pub proof fn a_resized_screen_keeps_its_text(m: TerminalModel, cols: int, rows: int)
    requires
        m.wf(),
        1 <= cols <= MAX_TERMINAL_COLS,
        1 <= rows <= MAX_TERMINAL_ROWS,
    ensures
        m.resized(cols, rows).cols() == cols,
        m.resized(cols, rows).rows() == rows,
        m.scroll_region_top == 0 && m.scroll_region_bottom == m.rows() - 1 ==> m.resized(
            cols,
            rows,
        ).scroll_region_top == 0 && m.resized(cols, rows).scroll_region_bottom == rows - 1,
        0 <= m.resized(cols, rows).cursor_row < rows,
        0 <= m.resized(cols, rows).cursor_col < cols,
        forall|r: int, c: int|
            0 <= r < rows && r + m.lines_over(rows) < m.rows() && 0 <= c < cols && c < m.cols()
                ==> #[trigger] m.resized(cols, rows).grid.lines[r][c] == m.grid.lines[r
                + m.lines_over(rows)][c],
        m.use_alt_buffer || m.rows() <= rows ==> m.lines_over(rows) == 0,
{
    reveal(TerminalModel::shrunk);
    reveal(TerminalModel::recut);
    super::resize::lemma_lines_pushed(m, m.lines_over(rows) as nat);
}

/// Resetting a terminal brings back what it was made as, but for its size and what
/// nobody sets: an empty screen, the cursor at the top left, plain rendition.
pub proof fn a_reset_terminal_is_as_new(m: TerminalModel)
    requires
        m.wf(),
    ensures
        ({
            let r = m.reset_to_initial();
            let new = TerminalModel::initial(m.cols(), m.rows());
            &&& !r.use_alt_buffer
            &&& r.cursor_row == new.cursor_row
            &&& r.cursor_col == new.cursor_col
            &&& r.grid.lines == new.grid.lines
            &&& r.modes == new.modes
            &&& r.scrollback == new.scrollback
            &&& r.scroll_offset == new.scroll_offset
            &&& r.current_fg == new.current_fg
            &&& r.current_bg == new.current_bg
            &&& r.current_flags == new.current_flags
            &&& r.g0_charset == new.g0_charset
            &&& r.g1_charset == new.g1_charset
            &&& r.active_charset == new.active_charset
            &&& r.scroll_region_top == new.scroll_region_top
            &&& r.scroll_region_bottom == new.scroll_region_bottom
            &&& r.tab_stops == new.tab_stops
            &&& r.saved_cursor == new.saved_cursor
            &&& r.keyboard_flags == new.keyboard_flags
            &&& r.selection == new.selection
        }),
{
    reveal(TerminalModel::reset_to_initial);
    reveal(TerminalModel::alt_left);
    reveal(TerminalModel::cleared);
    reveal(TerminalModel::erased_screen);
    let r = m.reset_to_initial();
    let new = TerminalModel::initial(m.cols(), m.rows());
    assert(r.grid.lines =~= new.grid.lines);
    assert(r.modes =~= new.modes);
    assert(r.tab_stops =~= new.tab_stops);
}

impl TerminalModel {
    /// The next text is taken as it stands: nothing of what came before is incomplete, and
    /// neither line drawing nor insert mode is on.
    pub open spec fn takes_text(self) -> bool {
        &&& self.pending_escape.len() == 0
        &&& self.utf8.len() == 0
        &&& self.active_charset == Charset::Ascii
        &&& !self.has(4)
    }

    /// A character as it is shown in the rendition of the moment.
    pub open spec fn cell_of(self, ch: char) -> TerminalCell {
        TerminalCell {
            character: ch,
            foreground: self.current_fg,
            background: self.current_bg,
            flags: self.current_flags.with_wide(false).with_wide_continuation(false),
        }
    }
}

/// Whether some bytes are printable ASCII characters.
pub open spec fn is_printable(text: Seq<u8>) -> bool {
    forall|i: int| 0 <= i < text.len() ==> 32 <= #[trigger] text[i] <= 126
}

proof fn lemma_ascii_end(text: Seq<u8>, i: int)
    requires
        is_printable(text),
        0 <= i <= text.len(),
    ensures
        ascii_end(text, i) == text.len(),
    decreases text.len() - i,
{
    if i < text.len() {
        lemma_ascii_end(text, i + 1);
    }
}

/// Text that fits into the line is shown from the cursor on, in the rendition of the
/// moment; the cursor goes behind it, and nothing else on the screen changes.
#[verifier::spinoff_prover]
#[verifier::rlimit(60)]
pub proof fn printed_text_is_shown(m: TerminalModel, text: Seq<u8>)
    requires
        m.wf(),
        m.takes_text(),
        text.len() > 0,
        is_printable(text),
        m.cursor_col + text.len() <= m.cols(),
    ensures
        ({
            let r = m.fed(text).0;
            &&& r.cursor_row == m.cursor_row
            &&& r.cursor_col == m.cursor_col + text.len()
            &&& r.rows() == m.rows()
            &&& r.cols() == m.cols()
            &&& r.grid.lines[m.cursor_row].len() == m.cols()
            &&& forall|i: int|
                0 <= i < text.len() ==> #[trigger] r.grid.lines[m.cursor_row][m.cursor_col + i]
                    == m.cell_of(text[i] as char)
            &&& forall|c: int|
                0 <= c < m.cols() && !(m.cursor_col <= c < m.cursor_col + text.len())
                    ==> #[trigger] r.grid.lines[m.cursor_row][c] == m.grid.lines[m.cursor_row][c]
            &&& forall|row: int|
                0 <= row < m.rows() && row != m.cursor_row ==> #[trigger] r.grid.lines[row]
                    == m.grid.lines[row]
            &&& r.scrollback == m.scrollback
            &&& r.scroll_offset == m.scroll_offset
        }),
        m.fed(text).1.len() == 0,
{
    reveal(TerminalModel::step);
    reveal(TerminalModel::ascii_step);
    reveal(TerminalModel::run_printed);
    reveal(TerminalModel::run_placed);
    reveal(TerminalModel::run_written);
    assert(m.pending_escape =~= Seq::empty());
    assert(m.pending_escape + text =~= text);
    lemma_ascii_end(text, 1);
    assert(text.subrange(0, text.len() as int) =~= text);
    assert(m.held_behind() == m);
    let s = m.step(text, 0);
    assert(s.state.run(text, text.len() as int) == (s.state, Seq::<Seq<char>>::empty()));
    let r = m.fed(text).0;
    assert forall|i: int| 0 <= i < text.len() implies #[trigger] r.grid.lines[m.cursor_row][m.cursor_col + i]
        == m.cell_of(text[i] as char) by {
        assert(text[m.cursor_col + i - m.cursor_col] == text[i]);
    }
}

proof fn lemma_text_between(line: Seq<TerminalCell>, from: int, text: Seq<u8>, n: int)
    requires
        0 <= from,
        from + text.len() <= line.len(),
        0 <= n <= text.len(),
        forall|i: int|
            0 <= i < text.len() ==> (#[trigger] line[from + i]).character == text[i] as char
                && !line[from + i].flags@.wide_continuation,
    ensures
        text_between(line, from, from + n - 1) == Seq::new(n as nat, |i: int| text[i] as char),
    decreases n,
{
    if n == 0 {
        assert(text_between(line, from, from - 1) =~= Seq::new(0, |i: int| text[i] as char));
    } else {
        lemma_text_between(line, from, text, n - 1);
        assert(line[from + (n - 1)].character == text[n - 1] as char);
        assert(Seq::new(n as nat, |i: int| text[i] as char) =~= Seq::new(
            (n - 1) as nat,
            |i: int| text[i] as char,
        ).push(text[n - 1] as char));
    }
}

/// What was printed can be copied: the selection from its first to its last character is
/// the text itself.
pub proof fn printed_text_is_copied(m: TerminalModel, text: Seq<u8>, sel: Selection)
    requires
        m.wf(),
        m.takes_text(),
        text.len() > 0,
        is_printable(text),
        m.cursor_col + text.len() <= m.cols(),
        sel.mode == SelectionMode::Normal,
        sel.anchor.0 == m.scrollback.len() + m.cursor_row,
        sel.anchor.1 == m.cursor_col,
        sel.active.0 == m.scrollback.len() + m.cursor_row,
        sel.active.1 == m.cursor_col + text.len() - 1,
    ensures
        m.fed(text).0.copied(sel) == Seq::new(text.len(), |i: int| text[i] as char),
{
    printed_text_is_shown(m, text);
    let r = m.fed(text).0;
    let line = r.grid.lines[m.cursor_row];
    assert forall|i: int| 0 <= i < text.len() implies (#[trigger] line[m.cursor_col + i]).character
        == text[i] as char && !line[m.cursor_col + i].flags@.wide_continuation by {
        assert(line[m.cursor_col + i] == m.cell_of(text[i] as char));
        m.current_flags.with_wide(false).setting_an_attribute_changes_only_it(
            false,
            UnderlineStyle::Off,
        );
    }
    lemma_text_between(line, m.cursor_col, text, text.len() as int);
    let row = sel.anchor.0 as int;
    assert(r.selected_text(sel, row, row) =~= Seq::empty());
    assert(r.selected_text(sel, row, row + 1) =~= r.selected_in(sel, row));
}

impl TerminalModel {
    /// Characters printed one after the other.
    pub open spec fn printed_all(self, chars: Seq<char>) -> Self
        decreases chars.len(),
    {
        if chars.len() == 0 {
            self
        } else {
            self.printed(chars[0]).printed_all(chars.drop_first())
        }
    }
}

/// The bytes of a character that is not ASCII: the first says how many there are, and the
/// others continue it.
pub(crate) proof fn lemma_encoded(c: char)
    requires
        c as u32 >= 0x80,
    ensures
        encode_scalar(c as u32).len() == char_length(encode_scalar(c as u32)[0]),
        encode_scalar(c as u32).len() > 1,
        encode_scalar(c as u32)[0] >= 0x80,
        forall|k: int|
            0 < k < encode_scalar(c as u32).len() ==> continues_char(
                #[trigger] encode_scalar(c as u32)[k],
            ),
        encode_utf8(seq![c]) == encode_scalar(c as u32),
{
    let v = c as u32;
    char_is_scalar(c);
    assert(0x80 <= v <= 0x7ff ==> 0xc2u8 <= (0xC0u8 | ((v >> 6) & 0x1F) as u8) <= 0xdfu8)
        by (bit_vector);
    assert(0x800 <= v <= 0xffff ==> 0xe0u8 <= (0xE0u8 | ((v >> 12) & 0x0F) as u8) <= 0xefu8)
        by (bit_vector);
    assert(0x10000 <= v <= 0x10ffff ==> 0xf0u8 <= (0xF0u8 | ((v >> 18) & 0x7) as u8) <= 0xf4u8)
        by (bit_vector);
    assert(0x80u8 <= (0x80u8 | (v & 0x3F) as u8) <= 0xbfu8) by (bit_vector);
    assert(0x80u8 <= (0x80u8 | ((v >> 6) & 0x3F) as u8) <= 0xbfu8) by (bit_vector);
    assert(0x80u8 <= (0x80u8 | ((v >> 12) & 0x3F) as u8) <= 0xbfu8) by (bit_vector);
    let chars = seq![c];
    reveal_with_fuel(encode_utf8, 2);
    assert(encode_utf8(chars) =~= encode_scalar(v));
}

/// The bytes of such a character print it, wherever they stand.
proof fn lemma_char_step(m: TerminalModel, data: Seq<u8>, i: int, c: char)
    requires
        c as u32 >= 0x80,
        0 <= i,
        i + encode_scalar(c as u32).len() <= data.len(),
        data.subrange(i, i + encode_scalar(c as u32).len()) == encode_scalar(c as u32),
    ensures
        m.step(data, i) == m.printed(c).up_to(i + encode_scalar(c as u32).len()),
{
    reveal(TerminalModel::step);
    reveal(TerminalModel::lead_step);
    let bytes = encode_scalar(c as u32);
    let n = bytes.len() as int;
    lemma_encoded(c);
    let part = data.subrange(i, i + n);
    assert(data[i] == part[0]);
    assert forall|k: int| i < k < i + n implies continues_char(#[trigger] data[k]) by {
        assert(data[k] == part[k - i]);
    }
    encode_utf8_valid_utf8(seq![c]);
    encode_utf8_decode_utf8(seq![c]);
}

proof fn lemma_run_chars(m: TerminalModel, data: Seq<u8>, i: int, chars: Seq<char>)
    requires
        0 <= i <= data.len(),
        data.subrange(i, data.len() as int) == encode_utf8(chars),
        forall|k: int| 0 <= k < chars.len() ==> #[trigger] chars[k] as u32 >= 0x80,
    ensures
        m.run(data, i).0 == m.printed_all(chars),
        m.run(data, i).1.len() == 0,
    decreases chars.len(),
{
    let rest = data.subrange(i, data.len() as int);
    if chars.len() > 0 {
        let c = chars[0];
        let bytes = encode_scalar(c as u32);
        let n = bytes.len() as int;
        lemma_encoded(c);
        assert(rest == bytes + encode_utf8(chars.drop_first()));
        assert(rest.subrange(0, n) =~= bytes);
        assert(data.subrange(i, i + n) =~= rest.subrange(0, n));
        lemma_char_step(m, data, i, c);
        assert(rest.subrange(n, rest.len() as int) =~= encode_utf8(chars.drop_first()));
        assert(data.subrange(i + n, data.len() as int) =~= rest.subrange(n, rest.len() as int));
        lemma_run_chars(m.printed(c), data, i + n, chars.drop_first());
    } else {
        assert(rest.len() == 0);
    }
}

/// Text in any script comes out as it was sent: its bytes print its characters, one after
/// the other. (ASCII characters come in runs; see [`printed_text_is_shown`].)
pub proof fn text_in_any_script_is_printed(m: TerminalModel, chars: Seq<char>)
    requires
        m.pending_escape.len() == 0,
        forall|k: int| 0 <= k < chars.len() ==> #[trigger] chars[k] as u32 >= 0x80,
    ensures
        m.fed(encode_utf8(chars)).0 == m.printed_all(chars),
        m.fed(encode_utf8(chars)).1.len() == 0,
{
    let data = encode_utf8(chars);
    assert(m.pending_escape =~= Seq::empty());
    assert(m.pending_escape + data =~= data);
    assert(data.subrange(0, data.len() as int) =~= data);
    lemma_run_chars(m, data, 0, chars);
}

/// The cursor stands on the screen, or right behind the last column of its line. Where there
/// are only two columns this needs that no character of three was ever written, and on a
/// single column none of two.
pub proof fn the_cursor_stays_on_the_screen(m: TerminalModel)
    requires
        m.wf(),
        m.cols() >= 3 || m.widest <= m.cols(),
    ensures
        0 <= m.cursor_row < m.rows(),
        0 <= m.cursor_col <= m.cols(),
{
}

/// The widest character that was written is one of those that were: writing a character
/// keeps it, or makes it that character. A new terminal has none wider than a column.
pub proof fn only_writing_widens(m: TerminalModel, c: char, cols: int, rows: int)
    requires
        m.wf(),
    ensures
        TerminalModel::initial(cols, rows).widest == 1,
        m.printed(c).widest == (if m.widest < char_width(m.translated(c)) {
            char_width(m.translated(c)) as int
        } else {
            m.widest
        }),
{
    reveal(TerminalModel::printed);
    reveal(TerminalModel::wrapped_around);
}

/// A wide character that fits into the line takes two columns: it is shown in the first,
/// the second is marked as its other half, and the cursor goes behind both.
pub proof fn a_wide_character_takes_two_columns(m: TerminalModel, c: char)
    requires
        m.wf(),
        m.active_charset == Charset::Ascii,
        !m.has(4),
        char_width(c) == 2,
        m.cursor_col + 2 <= m.cols(),
    ensures
        ({
            let r = m.printed(c);
            let line = r.grid.lines[m.cursor_row];
            &&& line[m.cursor_col].character == c
            &&& line[m.cursor_col].flags@.wide
            &&& !line[m.cursor_col].flags@.wide_continuation
            &&& line[m.cursor_col + 1].flags@.wide_continuation
            &&& r.cursor_row == m.cursor_row
            &&& r.cursor_col == m.cursor_col + 2
            &&& forall|row: int|
                0 <= row < m.rows() && row != m.cursor_row ==> #[trigger] r.grid.lines[row]
                    == m.grid.lines[row]
        }),
{
    reveal(TerminalModel::printed);
    let wide = m.current_flags.with_wide(true);
    m.current_flags.setting_an_attribute_changes_only_it(true, UnderlineStyle::Off);
    wide.setting_an_attribute_changes_only_it(false, UnderlineStyle::Off);
    m.blank().flags.setting_an_attribute_changes_only_it(true, UnderlineStyle::Off);
}

} // verus!
