//! How characters come onto the screen at its edges, over others and again.

use super::model::TerminalModel;
use super::parser::ascii_end;
use super::sequences::{
    is_ready, lemma_escape, lemma_sequence, lemma_step_alone, plain_sequence, sent, sequence,
};
use super::types::Charset;
use crate::cell::{StyleFlags, UnderlineStyle};
use crate::char_width::char_width;
use crate::grid::line_of;
use vstd::prelude::*;

verus! {

/// A character that is printed behind the last column of a line goes onto the next one where
/// autowrap is on: into its first column, and the line before is marked as going on.
#[verifier::spinoff_prover]
#[verifier::rlimit(60)]
pub proof fn text_goes_on_in_the_next_line(m: TerminalModel, b: u8)
    requires
        m.wf(),
        m.takes_text(),
        m.has(7),
        32 <= b <= 126,
        m.cursor_col == m.cols(),
        m.cursor_row < m.scroll_region_bottom,
    ensures
        ({
            let r = sent(m, seq![b]);
            &&& r.cursor_row == m.cursor_row + 1
            &&& r.cursor_col == 1
            &&& r.grid.lines[m.cursor_row + 1][0] == m.cell_of(b as char)
            &&& forall|c: int|
                0 < c < m.cols() ==> #[trigger] r.grid.lines[m.cursor_row + 1][c]
                    == m.grid.lines[m.cursor_row + 1][c]
            &&& forall|row: int|
                0 <= row < m.rows() && row != m.cursor_row + 1 ==> #[trigger] r.grid.lines[row]
                    == m.grid.lines[row]
            &&& r.grid.wrapped[m.cursor_row]
            &&& r.scrollback == m.scrollback
        }),
{
    let data = seq![b];
    reveal(TerminalModel::step);
    reveal(TerminalModel::ascii_step);
    assert(ascii_end(data, 1) == 1);
    assert(data.subrange(0, 1) =~= data);
    lemma_step_alone(m, data);
    reveal(TerminalModel::run_printed);
    let start = TerminalModel { last_printed_char: Some(b as char), ..m.held_behind() };
    assert(sent(m, data) == start.run_placed(data));
    reveal(TerminalModel::run_written);
    reveal(TerminalModel::wrapped_around);
    let done = start.run_written(data, 0);
    assert(done.grid.lines[m.cursor_row] =~= m.grid.lines[m.cursor_row]);
    let next = done.wrapped_around();
    assert(data.subrange(0, 1) =~= data);
    assert(start.run_placed(data) == next.run_placed(data)) by {
        reveal_with_fuel(TerminalModel::run_placed, 1);
    }
    assert(next.run_placed(data) == next.run_written(data, 1)) by {
        reveal_with_fuel(TerminalModel::run_placed, 1);
    }
}

/// Without autowrap, what is printed behind the last column is lost: nothing on the screen
/// changes, and the cursor stays on the last column.
#[verifier::spinoff_prover]
#[verifier::rlimit(60)]
pub proof fn without_autowrap_the_line_ends(m: TerminalModel, b: u8)
    requires
        m.wf(),
        m.takes_text(),
        !m.has(7),
        32 <= b <= 126,
        m.cursor_col == m.cols(),
    ensures
        ({
            let r = sent(m, seq![b]);
            &&& r.cursor_row == m.cursor_row
            &&& r.cursor_col == m.cols() - 1
            &&& r.grid.lines == m.grid.lines
            &&& r.scrollback == m.scrollback
        }),
{
    let data = seq![b];
    reveal(TerminalModel::step);
    reveal(TerminalModel::ascii_step);
    assert(ascii_end(data, 1) == 1);
    assert(data.subrange(0, 1) =~= data);
    lemma_step_alone(m, data);
    reveal(TerminalModel::run_printed);
    reveal(TerminalModel::run_written);
    let start = TerminalModel { last_printed_char: Some(b as char), ..m.held_behind() };
    let done = start.run_written(data, 0);
    assert(done.grid.lines[m.cursor_row] =~= m.grid.lines[m.cursor_row]);
    assert(done.grid.lines =~= m.grid.lines);
    reveal_with_fuel(TerminalModel::run_placed, 1);
}

/// In insert mode a character pushes the rest of its line to the right by its width; what
/// goes over the edge is lost.
pub proof fn insert_mode_makes_room(m: TerminalModel, c: char, k: int)
    requires
        m.wf(),
        m.has(4),
        m.active_charset == Charset::Ascii,
        char_width(c) == 1,
        m.cursor_col < m.cols(),
        0 <= k < m.cols(),
        !m.grid.lines[m.cursor_row][m.cursor_col].flags@.wide_continuation,
    ensures
        ({
            let r = m.printed(c);
            let line = r.grid.lines[m.cursor_row];
            &&& k == m.cursor_col ==> line[k].character == c
            &&& k < m.cursor_col ==> line[k] == m.grid.lines[m.cursor_row][k]
            &&& k > m.cursor_col ==> line[k] == m.grid.lines[m.cursor_row][k - 1]
            &&& r.cursor_col == m.cursor_col + 1
            &&& r.cursor_row == m.cursor_row
        }),
{
    reveal(TerminalModel::printed);
    StyleFlags::none_is_plain();
}

/// A wide character that does not fit into the line goes onto the next one as a whole, where
/// autowrap is on.
pub proof fn a_wide_character_is_not_cut(m: TerminalModel, c: char)
    requires
        m.wf(),
        m.has(7),
        !m.has(4),
        m.active_charset == Charset::Ascii,
        char_width(c) == 2,
        m.cols() >= 2,
        m.cursor_col + 2 > m.cols(),
        m.cursor_row < m.scroll_region_bottom,
    ensures
        ({
            let r = m.printed(c);
            let line = r.grid.lines[m.cursor_row + 1];
            &&& r.cursor_row == m.cursor_row + 1
            &&& r.cursor_col == 2
            &&& line[0].character == c && line[0].flags@.wide
            &&& line[1].flags@.wide_continuation
            &&& r.grid.lines[m.cursor_row] == m.grid.lines[m.cursor_row]
        }),
{
    reveal(TerminalModel::printed);
    reveal(TerminalModel::wrapped_around);
    let wide = m.current_flags.with_wide(true);
    m.current_flags.setting_an_attribute_changes_only_it(true, UnderlineStyle::Off);
    wide.setting_an_attribute_changes_only_it(false, UnderlineStyle::Off);
    m.blank().flags.setting_an_attribute_changes_only_it(true, UnderlineStyle::Off);
}

/// A wide character that is overwritten in part is gone: its other half becomes blank.
pub proof fn half_a_character_does_not_stay(m: TerminalModel, c: char)
    requires
        m.wf(),
        !m.has(4),
        m.active_charset == Charset::Ascii,
        char_width(c) == 1,
        m.cursor_col < m.cols(),
    ensures
        ({
            let line = m.grid.lines[m.cursor_row];
            let after = m.printed(c).grid.lines[m.cursor_row];
            let col = m.cursor_col;
            &&& after[col].character == c
            &&& after[col].foreground == m.current_fg && after[col].background == m.current_bg
            &&& col > 0 && line[col].flags@.wide_continuation ==> after[col - 1] == m.blank()
            &&& col + 1 < m.cols() && line[col].flags@.wide ==> after[col + 1] == m.blank()
        }),
{
    reveal(TerminalModel::printed);
}

/// `CSI n b` prints the last character again, `n` times.
pub proof fn the_last_character_is_repeated(m: TerminalModel, c: char, n: u16)
    requires
        is_ready(m),
        m.last_printed_char == Some(c),
        0 < n < 65535,
    ensures
        sent(m, plain_sequence(seq![1], 0x62)) == m.printed(c),
        sent(m, plain_sequence(seq![(n + 1) as u16], 0x62)) == sent(
            m,
            plain_sequence(seq![n], 0x62),
        ).printed(c),
{
    lemma_sequence(m, None, seq![1], Seq::empty(), 0x62);
    lemma_sequence(m, None, seq![n], Seq::empty(), 0x62);
    lemma_sequence(m, None, seq![(n + 1) as u16], Seq::empty(), 0x62);
    reveal(TerminalModel::csi);
    reveal_with_fuel(TerminalModel::printed_times, 2);
}

/// `CSI ? 1049 h`, and 47 and 1047, bring up the alternate screen, which is blank, and the
/// same numbers with `l` bring back the main screen, the cursor and the scrollback as they
/// were.
pub proof fn the_alternate_screen_comes_and_goes(m: TerminalModel, mode: u16)
    requires
        m.wf(),
        is_ready(m),
        !m.use_alt_buffer,
        mode == 47 || mode == 1047 || mode == 1049,
    ensures
        ({
            let there = sent(m, sequence(Some(0x3f), seq![mode], Seq::empty(), 0x68));
            let back = sent(there, sequence(Some(0x3f), seq![mode], Seq::empty(), 0x6c));
            &&& there.use_alt_buffer
            &&& forall|row: int|
                0 <= row < m.rows() ==> #[trigger] there.grid.lines[row] == line_of(
                    m.blank(),
                    m.grid.cols,
                )
            &&& there.scrollback == m.scrollback
            &&& !back.use_alt_buffer
            &&& back.grid == m.grid
            &&& back.scrollback == m.scrollback
            &&& back.cursor_row == m.cursor_row
            &&& back.cursor_col == m.cursor_col
            &&& sent(there, sequence(Some(0x3f), seq![mode], Seq::empty(), 0x68)) == there
            &&& sent(m, sequence(Some(0x3f), seq![mode], Seq::empty(), 0x6c)) == m
        }),
{
    let e = Seq::<u8>::empty();
    lemma_sequence(m, Some(0x3f), seq![mode], e, 0x68);
    lemma_sequence(m, Some(0x3f), seq![mode], e, 0x6c);
    let there = sent(m, sequence(Some(0x3f), seq![mode], e, 0x68));
    reveal(TerminalModel::csi);
    reveal(TerminalModel::mode_set);
    reveal(TerminalModel::mode_reset);
    reveal(TerminalModel::alt_entered);
    reveal(TerminalModel::alt_left);
    reveal(TerminalModel::cleared);
    reveal(TerminalModel::erased_screen);
    reveal_with_fuel(TerminalModel::modes_set, 2);
    reveal_with_fuel(TerminalModel::modes_reset, 2);
    assert(seq![mode].drop_last() =~= Seq::<u16>::empty());
    lemma_sequence(there, Some(0x3f), seq![mode], e, 0x68);
    lemma_sequence(there, Some(0x3f), seq![mode], e, 0x6c);
}

/// `ESC c` resets the terminal: the screen is blank, the cursor at its top left, and the
/// scrollback, the modes and the rendition are as at the start.
pub proof fn a_reset_brings_back_the_start(m: TerminalModel, row: int, c: int)
    requires
        m.wf(),
        is_ready(m),
        0 <= row < m.rows(),
        0 <= c < m.cols(),
    ensures
        ({
            let r = sent(m, seq![0x1bu8, 0x63]);
            &&& r.grid.lines[row][c].character == ' '
            &&& r.cursor_row == 0 && r.cursor_col == 0
            &&& r.scrollback.len() == 0
            &&& !r.use_alt_buffer
            &&& r.has(7) && r.has(25) && !r.has(4) && !r.has(6) && !r.has(2004) && !r.has(1)
            &&& r.scroll_region_top == 0 && r.scroll_region_bottom == m.rows() - 1
            &&& r.current_flags == StyleFlags::none()
            &&& r.active_charset == Charset::Ascii
        }),
{
    lemma_escape(m, 0x63);
    reveal(TerminalModel::escape_step);
    reveal(TerminalModel::reset_to_initial);
    reveal(TerminalModel::alt_left);
    reveal(TerminalModel::cleared);
    reveal(TerminalModel::erased_screen);
}

/// A soft reset (`CSI ! p`) leaves the screen, the scrollback and the cursor; margins,
/// rendition, character sets and the origin, insert and autowrap modes are as at the start.
pub proof fn a_soft_reset_keeps_the_screen(m: TerminalModel)
    requires
        m.wf(),
        is_ready(m),
    ensures
        ({
            let r = sent(m, sequence(None, Seq::empty(), seq![0x21], 0x70));
            &&& r.grid == m.grid
            &&& r.scrollback == m.scrollback
            &&& r.cursor_row == m.cursor_row && r.cursor_col == m.cursor_col
            &&& r.scroll_region_top == 0 && r.scroll_region_bottom == m.rows() - 1
            &&& !r.has(6) && !r.has(4) && r.has(7) && r.has(25)
            &&& r.has(2004) == m.has(2004)
            &&& r.current_flags == StyleFlags::none()
            &&& r.active_charset == Charset::Ascii
            &&& r.saved_cursor is None
        }),
{
    lemma_sequence(m, None, Seq::empty(), seq![0x21], 0x70);
    reveal(TerminalModel::csi);
    reveal(TerminalModel::csi_request);
    reveal(TerminalModel::soft_reset);
}

/// The alignment pattern (`ESC # 8`) fills the screen with the letter E.
pub proof fn the_pattern_fills_the_screen(m: TerminalModel, row: int, c: int)
    requires
        m.wf(),
        is_ready(m),
        0 <= row < m.rows(),
        0 <= c < m.cols(),
    ensures
        sent(m, seq![0x1bu8, 0x23, 0x38]).grid.lines[row][c].character == 'E',
        sent(m, seq![0x1bu8, 0x23, 0x38]).cursor_row == 0,
        sent(m, seq![0x1bu8, 0x23, 0x38]).cursor_col == 0,
        sent(m, seq![0x1bu8, 0x23, 0x38]).scrollback == m.scrollback,
{
    reveal(TerminalModel::step);
    reveal(TerminalModel::escape_step);
    reveal(TerminalModel::aligned);
    lemma_step_alone(m, seq![0x1bu8, 0x23, 0x38]);
}

/// A line that a character is printed on, and a line that is erased, counts as changed: it is
/// marked to be drawn and has the version of the moment.
pub proof fn changed_lines_are_marked(m: TerminalModel, c: char)
    requires
        m.wf(),
        is_ready(m),
        char_width(m.translated(c)) == 1,
        m.cursor_col < m.cols(),
    ensures
        ({
            let r = m.printed(c);
            &&& r.dirty.contains(m.cursor_row)
            &&& r.row_versions[m.cursor_row] == m.grid_version
        }),
        ({
            let r = sent(m, plain_sequence(seq![2], 0x4b));
            &&& r.dirty.contains(m.cursor_row)
            &&& r.row_versions[m.cursor_row] == m.grid_version
        }),
        ({
            let r = sent(m, plain_sequence(seq![2], 0x4a));
            forall|row: int|
                0 <= row < m.rows() ==> #[trigger] r.row_versions[row] == m.grid_version
                    && r.dirty.contains(row)
        }),
{
    lemma_sequence(m, None, seq![2], Seq::empty(), 0x4b);
    lemma_sequence(m, None, seq![2], Seq::empty(), 0x4a);
    reveal(TerminalModel::csi);
    reveal(TerminalModel::csi_erase_line);
    reveal(TerminalModel::csi_erase_display);
    reveal(TerminalModel::erased_line);
    reveal(TerminalModel::erased_screen);
    reveal(TerminalModel::printed);
}

} // verus!
