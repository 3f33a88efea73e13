//! Where control sequences move the cursor to.

use super::model::TerminalModel;
use super::sequences::{is_ready, lemma_sequence, plain_sequence, sent};
use crate::text::decimal;
use vstd::prelude::*;
use vstd::utf8::{encode_utf8, is_ascii_chars, is_ascii_chars_encode_utf8};

verus! {

/// A count that is left out or zero is one.
pub open spec fn steps(n: u16) -> int {
    if n == 0 {
        1
    } else {
        n as int
    }
}

proof fn lemma_move(m: TerminalModel, numbers: Seq<u16>, last: u8)
    requires
        is_ready(m),
        numbers.len() <= 2,
        last == 0x41 || last == 0x42 || last == 0x43 || last == 0x44 || last == 0x45 || last
            == 0x46 || last == 0x47 || last == 0x60 || last == 0x64 || last == 0x49 || last == 0x5a,
    ensures
        sent(m, plain_sequence(numbers, last)) == m.csi_move(last as char, numbers),
{
    lemma_sequence(m, None, numbers, Seq::empty(), last);
    reveal(TerminalModel::csi);
}

/// `CSI n A` moves the cursor up by `n` lines in its column and changes nothing else. From
/// the scroll region, or below it, it goes no further than the region's top, and from above
/// the region no further than the top of the screen; closer than `n` lines to that it ends
/// there.
pub proof fn up_goes_up_by_lines(m: TerminalModel, n: u16)
    requires
        m.wf(),
        is_ready(m),
    ensures
        ({
            let r = sent(m, plain_sequence(seq![n], 0x41));
            let limit = if m.cursor_row < m.scroll_region_top {
                0
            } else {
                m.scroll_region_top
            };
            &&& r == (TerminalModel { cursor_row: r.cursor_row, ..m })
            &&& m.cursor_row >= limit + steps(n) ==> r.cursor_row == m.cursor_row - steps(n)
            &&& m.cursor_row < limit + steps(n) ==> r.cursor_row == limit
        }),
{
    lemma_move(m, seq![n], 0x41);
    reveal(TerminalModel::csi_move);
    reveal(TerminalModel::with_row);
}

/// `CSI n B` moves the cursor down by `n` lines in its column and changes nothing else. From
/// the scroll region, or above it, it goes no further than the region's bottom, and from
/// below the region no further than the bottom of the screen.
pub proof fn down_goes_down_by_lines(m: TerminalModel, n: u16)
    requires
        m.wf(),
        is_ready(m),
    ensures
        ({
            let r = sent(m, plain_sequence(seq![n], 0x42));
            let limit = if m.cursor_row > m.scroll_region_bottom {
                m.rows() - 1
            } else {
                m.scroll_region_bottom
            };
            &&& r == (TerminalModel { cursor_row: r.cursor_row, ..m })
            &&& m.cursor_row + steps(n) <= limit ==> r.cursor_row == m.cursor_row + steps(n)
            &&& m.cursor_row + steps(n) > limit ==> r.cursor_row == limit
        }),
{
    lemma_move(m, seq![n], 0x42);
    reveal(TerminalModel::csi_move);
    reveal(TerminalModel::with_row);
}

/// `CSI n C` moves the cursor right by `n` columns and `CSI n D` left, in its line and no
/// further than the last and the first column, and they change nothing else.
pub proof fn right_and_left_go_by_columns(m: TerminalModel, n: u16)
    requires
        m.wf(),
        is_ready(m),
    ensures
        ({
            let right = sent(m, plain_sequence(seq![n], 0x43));
            let left = sent(m, plain_sequence(seq![n], 0x44));
            &&& right == (TerminalModel { cursor_col: right.cursor_col, ..m })
            &&& left == (TerminalModel { cursor_col: left.cursor_col, ..m })
            &&& m.cursor_col + steps(n) < m.cols() ==> right.cursor_col == m.cursor_col + steps(n)
            &&& m.cursor_col + steps(n) >= m.cols() ==> right.cursor_col == m.cols() - 1
            &&& m.cursor_col >= steps(n) ==> left.cursor_col == m.cursor_col - steps(n)
            &&& m.cursor_col < steps(n) ==> left.cursor_col == 0
        }),
{
    lemma_move(m, seq![n], 0x43);
    lemma_move(m, seq![n], 0x44);
    reveal(TerminalModel::csi_move);
    reveal(TerminalModel::with_col);
}

/// What goes down by some lines and then up by as many is where it was, unless a margin was
/// in the way; and so for right and left.
pub proof fn moves_undo_each_other(m: TerminalModel, n: u16)
    requires
        m.wf(),
        is_ready(m),
        n > 0,
    ensures
        m.scroll_region_top <= m.cursor_row && m.cursor_row + n <= m.scroll_region_bottom ==> sent(
            sent(m, plain_sequence(seq![n], 0x42)),
            plain_sequence(seq![n], 0x41),
        ) == m,
        m.scroll_region_top + n <= m.cursor_row <= m.scroll_region_bottom ==> sent(
            sent(m, plain_sequence(seq![n], 0x41)),
            plain_sequence(seq![n], 0x42),
        ) == m,
        m.cursor_col + n < m.cols() ==> sent(
            sent(m, plain_sequence(seq![n], 0x43)),
            plain_sequence(seq![n], 0x44),
        ) == m,
{
    down_goes_down_by_lines(m, n);
    up_goes_up_by_lines(m, n);
    right_and_left_go_by_columns(m, n);
    let down = sent(m, plain_sequence(seq![n], 0x42));
    let up = sent(m, plain_sequence(seq![n], 0x41));
    let right = sent(m, plain_sequence(seq![n], 0x43));
    assert(down.wf() && up.wf() && right.wf());
    up_goes_up_by_lines(down, n);
    down_goes_down_by_lines(up, n);
    right_and_left_go_by_columns(right, n);
}

/// `CSI n E` and `CSI n F` go down and up as `CSI n B` and `CSI n A` do, to the first column.
pub proof fn lines_start_at_the_first_column(m: TerminalModel, n: u16)
    requires
        m.wf(),
        is_ready(m),
    ensures
        sent(m, plain_sequence(seq![n], 0x45)) == (TerminalModel {
            cursor_col: 0,
            ..sent(m, plain_sequence(seq![n], 0x42))
        }),
        sent(m, plain_sequence(seq![n], 0x46)) == (TerminalModel {
            cursor_col: 0,
            ..sent(m, plain_sequence(seq![n], 0x41))
        }),
{
    lemma_move(m, seq![n], 0x41);
    lemma_move(m, seq![n], 0x42);
    lemma_move(m, seq![n], 0x45);
    lemma_move(m, seq![n], 0x46);
    reveal(TerminalModel::csi_move);
    reveal(TerminalModel::with_row);
    reveal(TerminalModel::with_col);
}

/// A position counted from one, at most the last of `len`.
pub open spec fn position(n: u16, len: int) -> int {
    if n == 0 {
        0
    } else if n <= len {
        n - 1
    } else {
        len - 1
    }
}

/// `CSI r ; c H`, and `CSI r ; c f`, put the cursor on line `r` and column `c`, both counted
/// from one, or on the last ones where there are not so many. In origin mode lines are
/// counted from the top of the scroll region and end with it. Nothing else changes.
pub proof fn positions_are_counted_from_one(m: TerminalModel, row: u16, col: u16)
    requires
        m.wf(),
        is_ready(m),
    ensures
        ({
            let r = sent(m, plain_sequence(seq![row, col], 0x48));
            &&& r == (TerminalModel { cursor_row: r.cursor_row, cursor_col: r.cursor_col, ..m })
            &&& r.cursor_col == position(col, m.cols())
            &&& !m.has(6) ==> r.cursor_row == position(row, m.rows())
            &&& m.has(6) ==> r.cursor_row == m.scroll_region_top + position(
                row,
                m.scroll_region_bottom - m.scroll_region_top + 1,
            )
            &&& sent(m, plain_sequence(seq![row, col], 0x66)) == r
        }),
        sent(m, plain_sequence(Seq::empty(), 0x48)) == sent(m, plain_sequence(seq![1, 1], 0x48)),
        sent(m, plain_sequence(seq![row], 0x48)) == sent(m, plain_sequence(seq![row, 1], 0x48)),
{
    lemma_sequence(m, None, seq![row, col], Seq::empty(), 0x48);
    lemma_sequence(m, None, seq![row, col], Seq::empty(), 0x66);
    lemma_sequence(m, None, Seq::empty(), Seq::empty(), 0x48);
    lemma_sequence(m, None, seq![1, 1], Seq::empty(), 0x48);
    lemma_sequence(m, None, seq![row], Seq::empty(), 0x48);
    lemma_sequence(m, None, seq![row, 1], Seq::empty(), 0x48);
    reveal(TerminalModel::csi);
    reveal(TerminalModel::csi_position);
    reveal(TerminalModel::cursor_placed);
}

/// `CSI c G` and its other form give the column as `CSI r ; c H` does and keep the line;
/// `CSI r d` gives the line and keeps the column.
pub proof fn a_column_or_a_line_alone(m: TerminalModel, n: u16)
    requires
        m.wf(),
        is_ready(m),
    ensures
        ({
            let placed = sent(m, plain_sequence(seq![n, n], 0x48));
            &&& sent(m, plain_sequence(seq![n], 0x47)) == (TerminalModel {
                cursor_col: placed.cursor_col,
                ..m
            })
            &&& sent(m, plain_sequence(seq![n], 0x60)) == sent(m, plain_sequence(seq![n], 0x47))
            &&& sent(m, plain_sequence(seq![n], 0x64)) == (TerminalModel {
                cursor_row: placed.cursor_row,
                ..m
            })
        }),
{
    lemma_sequence(m, None, seq![n, n], Seq::empty(), 0x48);
    lemma_move(m, seq![n], 0x47);
    lemma_move(m, seq![n], 0x60);
    lemma_move(m, seq![n], 0x64);
    reveal(TerminalModel::csi);
    reveal(TerminalModel::cursor_placed);
    reveal(TerminalModel::csi_move);
    reveal(TerminalModel::with_row);
    reveal(TerminalModel::with_col);
}

/// A move without a count is a move by one.
pub proof fn a_move_without_a_count_is_by_one(m: TerminalModel, last: u8)
    requires
        is_ready(m),
        last == 0x41 || last == 0x42 || last == 0x43 || last == 0x44 || last == 0x45 || last
            == 0x46 || last == 0x47 || last == 0x60 || last == 0x64 || last == 0x49 || last == 0x5a,
    ensures
        sent(m, plain_sequence(Seq::empty(), last)) == sent(m, plain_sequence(seq![1], last)),
{
    lemma_move(m, Seq::empty(), last);
    lemma_move(m, seq![1], last);
    reveal(TerminalModel::csi_move);
}

/// A program that asks for the cursor (`CSI 6 n`) is told its line and column, counted from
/// one, and nothing else changes: what it is told brings the cursor back there.
pub proof fn the_cursor_is_told_as_it_is_placed(m: TerminalModel)
    requires
        m.wf(),
        is_ready(m),
    ensures
        ({
            let r = sent(m, plain_sequence(seq![6], 0x6e));
            &&& r == (TerminalModel { output: r.output, ..m })
            &&& r.output == m.output + (seq![0x1bu8, 0x5b] + decimal((m.cursor_row + 1) as nat)
                + seq![0x3bu8] + decimal((m.cursor_col + 1) as nat) + seq![0x52u8])
        }),
        !m.has(6) && m.cursor_col < m.cols() ==> sent(
            m,
            plain_sequence(seq![(m.cursor_row + 1) as u16, (m.cursor_col + 1) as u16], 0x48),
        ) == m,
        sent(m, plain_sequence(seq![5], 0x6e)) == (TerminalModel {
            output: m.output + seq![0x1bu8, 0x5b, 0x30, 0x6e],
            ..m
        }),
{
    lemma_sequence(m, None, seq![6], Seq::empty(), 0x6e);
    lemma_sequence(m, None, seq![5], Seq::empty(), 0x6e);
    reveal(TerminalModel::csi);
    reveal(TerminalModel::csi_status);
    lemma_ascii_texts();
    if !m.has(6) && m.cursor_col < m.cols() {
        positions_are_counted_from_one(
            m,
            (m.cursor_row + 1) as u16,
            (m.cursor_col + 1) as u16,
        );
    }
}

proof fn lemma_ascii_texts()
    ensures
        encode_utf8("\x1b["@) == seq![0x1bu8, 0x5b],
        encode_utf8(";"@) == seq![0x3bu8],
        encode_utf8("R"@) == seq![0x52u8],
        encode_utf8("\x1b[0n"@) == seq![0x1bu8, 0x5b, 0x30, 0x6e],
{
    reveal_strlit("\x1b[");
    reveal_strlit(";");
    reveal_strlit("R");
    reveal_strlit("\x1b[0n");
    lemma_ascii("\x1b["@, seq![0x1bu8, 0x5b]);
    lemma_ascii(";"@, seq![0x3bu8]);
    lemma_ascii("R"@, seq![0x52u8]);
    lemma_ascii("\x1b[0n"@, seq![0x1bu8, 0x5b, 0x30, 0x6e]);
}

/// ASCII characters are encoded as themselves.
pub(crate) proof fn lemma_ascii(text: Seq<char>, bytes: Seq<u8>)
    requires
        text.len() == bytes.len(),
        forall|i: int| 0 <= i < bytes.len() ==> #[trigger] bytes[i] < 128 && text[i] == bytes[i] as char,
    ensures
        encode_utf8(text) == bytes,
{
    assert(is_ascii_chars(text)) by {
        assert forall|i: int| 0 <= i < text.len() implies '\0' <= #[trigger] text[i]
            <= '\u{7f}' by {
            assert(bytes[i] < 128);
        }
    }
    is_ascii_chars_encode_utf8(text);
    assert forall|i: int| 0 <= i < bytes.len() implies encode_utf8(text)[i] == #[trigger] bytes[i] by {
        assert(text[i] as u8 == encode_utf8(text)[i]);
    }
    assert(encode_utf8(text) =~= bytes);
}

} // verus!
