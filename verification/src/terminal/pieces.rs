//! Input in pieces: where it is cut does not matter.

use super::model::{overwritten, stamped_rows, TerminalModel};
use super::parser::{
    ascii_end, char_length, continues_char, osc_end_at, string_end_at, CsiParts, Step,
    MAX_PENDING_ESCAPE,
};
use super::types::Charset;
use crate::cell::TerminalCell;
use vstd::prelude::*;

verus! {

// ---- runs of printable characters ----

impl TerminalModel {
    /// The terminal with another character as the one printed last.
    pub open spec fn with_last(self, ch: Option<char>) -> Self {
        TerminalModel { last_printed_char: ch, ..self }
    }

    /// Whether what decides how input is read is the same, and the size.
    pub open spec fn reads_like(self, other: Self) -> bool {
        &&& self.modes == other.modes
        &&& self.utf8 == other.utf8
        &&& self.utf8_expected == other.utf8_expected
        &&& self.active_charset == other.active_charset
        &&& self.pending_escape == other.pending_escape
        &&& self.grid.cols == other.grid.cols
        &&& self.grid.lines.len() == other.grid.lines.len()
    }
}

proof fn lemma_wrapped_around(m: TerminalModel)
    requires
        0 <= m.cursor_row < m.rows(),
    ensures
        0 <= m.wrapped_around().cursor_row < m.rows(),
        m.wrapped_around().reads_like(m),
        m.wrapped_around().cursor_col == 0,
        forall|ch: Option<char>|
            (#[trigger] m.with_last(ch)).wrapped_around() == m.wrapped_around().with_last(ch),
{
    reveal(TerminalModel::wrapped_around);
}

proof fn lemma_run_written(m: TerminalModel, bytes: Seq<u8>, n: int)
    requires
        0 <= m.cursor_row < m.rows(),
    ensures
        m.run_written(bytes, n).cursor_row == m.cursor_row,
        m.run_written(bytes, n).reads_like(m),
        m.run_written(bytes, n).cursor_col == m.cursor_col + n,
        m.run_written(bytes, n).last_printed_char == m.last_printed_char,
        forall|ch: Option<char>|
            (#[trigger] m.with_last(ch)).run_written(bytes, n) == m.run_written(
                bytes,
                n,
            ).with_last(ch),
{
    reveal(TerminalModel::run_written);
}

proof fn lemma_run_placed(m: TerminalModel, bytes: Seq<u8>)
    requires
        0 <= m.cursor_row < m.rows(),
    ensures
        m.run_placed(bytes).reads_like(m),
        0 <= m.run_placed(bytes).cursor_row < m.rows(),
        m.cursor_col <= m.cols() ==> m.run_placed(bytes).cursor_col <= m.cols(),
    decreases
            bytes.len(),
            if m.cursor_col >= m.cols() {
                1int
            } else {
                0int
            },
{
    reveal(TerminalModel::run_placed);
    if bytes.len() > 0 {
        let room = m.cols() - m.cursor_col;
        let n = if bytes.len() < room {
            bytes.len() as int
        } else {
            room
        };
        let done = m.run_written(bytes, n);
        lemma_run_written(m, bytes, n);
        lemma_wrapped_around(done);
        let next = done.wrapped_around();
        if n < bytes.len() && m.has(7) && 0 <= n && next.cursor_col < next.cols() {
            lemma_run_placed(next, bytes.subrange(n, bytes.len() as int));
        }
    }
}

proof fn lemma_placed_with_last(m: TerminalModel, bytes: Seq<u8>, ch: Option<char>)
    requires
        0 <= m.cursor_row < m.rows(),
    ensures
        m.with_last(ch).run_placed(bytes) == m.run_placed(bytes).with_last(ch),
    decreases
            bytes.len(),
            if m.cursor_col >= m.cols() {
                1int
            } else {
                0int
            },
{
    reveal(TerminalModel::run_placed);
    if bytes.len() > 0 {
        let room = m.cols() - m.cursor_col;
        let n = if bytes.len() < room {
            bytes.len() as int
        } else {
            room
        };
        let l = m.with_last(ch);
        let done = m.run_written(bytes, n);
        lemma_run_written(m, bytes, n);
        lemma_wrapped_around(done);
        assert(l.run_written(bytes, n) == done.with_last(ch));
        assert(done.with_last(ch).wrapped_around() == done.wrapped_around().with_last(ch));
        let next = done.wrapped_around();
        if n < bytes.len() && m.has(7) && 0 <= n && next.cursor_col < next.cols() {
            lemma_placed_with_last(next, bytes.subrange(n, bytes.len() as int), ch);
        }
    }
}

/// Characters written right behind others, on the same line.
proof fn lemma_written_twice(m: TerminalModel, x: Seq<u8>, y: Seq<u8>, n: int)
    requires
        0 <= m.cursor_row < m.rows(),
        0 <= n <= y.len(),
        0 <= m.cursor_col,
    ensures
        m.run_written(x, x.len() as int).run_written(y, n) == m.run_written(x + y, x.len() + n),
{
    reveal(TerminalModel::run_written);
    let first = m.run_written(x, x.len() as int);
    let style = TerminalCell {
        character: ' ',
        foreground: m.current_fg,
        background: m.current_bg,
        flags: m.current_flags.with_wide(false).with_wide_continuation(false),
    };
    let line = m.grid.lines[m.cursor_row];
    let a = overwritten(line, m.cursor_col, x, x.len() as int, style);
    let b = overwritten(a, m.cursor_col + x.len(), y, n, style);
    let both = overwritten(line, m.cursor_col, x + y, x.len() + n, style);
    assert(b =~= both);
    assert(first.grid.lines[m.cursor_row] == a);
    assert(m.grid.lines.update(m.cursor_row, a).update(m.cursor_row, b) =~= m.grid.lines.update(
        m.cursor_row,
        both,
    ));
    let v = stamped_rows(m.row_versions, m.cursor_row, m.cursor_row, m.grid_version);
    assert(stamped_rows(v, m.cursor_row, m.cursor_row, m.grid_version) =~= v);
    assert(m.dirty.insert(m.cursor_row).insert(m.cursor_row) =~= m.dirty.insert(m.cursor_row));
}

/// A run of characters placed in two parts, with autowrap.
proof fn lemma_placed_twice(m: TerminalModel, x: Seq<u8>, y: Seq<u8>)
    requires
        0 <= m.cursor_row < m.rows(),
        0 <= m.cursor_col <= m.cols(),
        m.cols() >= 1,
        m.has(7),
        y.len() > 0,
    ensures
        m.run_placed(x).run_placed(y) == m.run_placed(x + y),
    decreases
            x.len(),
            if m.cursor_col >= m.cols() {
                1int
            } else {
                0int
            },
{
    reveal(TerminalModel::run_placed);
    let room = m.cols() - m.cursor_col;
    let all = x + y;
    if x.len() == 0 {
        assert(all =~= y);
    } else if x.len() <= room {
        let first = m.run_written(x, x.len() as int);
        lemma_run_written(m, x, x.len() as int);
        assert(m.run_placed(x) == first);
        let left = room - x.len();
        let n = if y.len() < left {
            y.len() as int
        } else {
            left
        };
        lemma_written_twice(m, x, y, n);
        assert(first.cols() - first.cursor_col == left);
        if y.len() > left {
            let done = m.run_written(all, room);
            assert(first.run_written(y, left) == done);
            assert(all.subrange(room, all.len() as int) =~= y.subrange(left, y.len() as int));
        }
    } else {
        let done_x = m.run_written(x, room);
        let done = m.run_written(all, room);
        assert(done_x == done) by {
            reveal(TerminalModel::run_written);
            let style = TerminalCell {
                character: ' ',
                foreground: m.current_fg,
                background: m.current_bg,
                flags: m.current_flags.with_wide(false).with_wide_continuation(false),
            };
            let line = m.grid.lines[m.cursor_row];
            assert(overwritten(line, m.cursor_col, x, room, style) =~= overwritten(
                line,
                m.cursor_col,
                all,
                room,
                style,
            ));
        }
        lemma_run_written(m, all, room);
        let next = done.wrapped_around();
        lemma_wrapped_around(done);
        let rest = x.subrange(room, x.len() as int);
        assert(all.subrange(room, all.len() as int) =~= rest + y);
        lemma_placed_twice(next, rest, y);
    }
}

/// A run of characters printed in two parts, with autowrap.
proof fn lemma_printed_twice(m: TerminalModel, x: Seq<u8>, y: Seq<u8>)
    requires
        0 <= m.cursor_row < m.rows(),
        0 <= m.cursor_col,
        m.cols() >= 1,
        m.has(7),
        x.len() > 0,
        y.len() > 0,
    ensures
        m.run_printed(x).run_printed(y) == m.run_printed(x + y),
        m.run_printed(x).reads_like(m),
{
    reveal(TerminalModel::run_printed);
    let last_x = Some(x.last() as char);
    let last_y = Some(y.last() as char);
    assert((x + y).last() == y.last());
    let h = m.held_behind();
    lemma_run_placed(h, x);
    lemma_placed_twice(h, x, y);
    let first = h.run_placed(x);
    lemma_placed_with_last(h, x, last_x);
    lemma_placed_with_last(h, x + y, last_y);
    lemma_placed_with_last(first, y, last_y);
    assert(m.run_printed(x) == first.with_last(last_x));
    assert(first.with_last(last_x).held_behind() == first.with_last(last_x));
    assert(first.with_last(last_x).with_last(last_y) == first.with_last(last_y));
}

// ---- characters of several bytes ----

proof fn lemma_wrapped_with_utf8(m: TerminalModel, bytes: Seq<u8>, expected: int)
    ensures
        m.with_utf8(bytes, expected).wrapped_around() == m.wrapped_around().with_utf8(
            bytes,
            expected,
        ),
{
    reveal(TerminalModel::with_utf8);
    reveal(TerminalModel::wrapped_around);
}

proof fn lemma_combined_with_utf8(m: TerminalModel, mark: char, bytes: Seq<u8>, expected: int)
    ensures
        m.with_utf8(bytes, expected).combined(mark) == m.combined(mark).with_utf8(bytes, expected),
{
    reveal(TerminalModel::with_utf8);
}

proof fn lemma_written_with_utf8(
    m: TerminalModel,
    ch: char,
    width: int,
    bytes: Seq<u8>,
    expected: int,
)
    ensures
        m.with_utf8(bytes, expected).written(ch, width) == m.written(ch, width).with_utf8(
            bytes,
            expected,
        ),
        m.with_utf8(bytes, expected).made_room(m.cursor_row, m.cursor_col, width) == m.made_room(
            m.cursor_row,
            m.cursor_col,
            width,
        ).with_utf8(bytes, expected),
{
    reveal(TerminalModel::with_utf8);
}

/// Printing a character does not depend on the bytes of an incomplete one.
proof fn lemma_printed_with_utf8(m: TerminalModel, ch: char, bytes: Seq<u8>, expected: int)
    ensures
        m.with_utf8(bytes, expected).printed(ch) == m.printed(ch).with_utf8(bytes, expected),
{
    reveal(TerminalModel::printed);
    let a = m.with_utf8(bytes, expected);
    let c = m.translated(ch);
    assert(a.translated(ch) == c && a.cursor_col == m.cursor_col && a.cols() == m.cols()
        && a.modes == m.modes) by {
        reveal(TerminalModel::with_utf8);
    }
    let width = crate::char_width::char_width(c) as int;
    if width == 0 {
        lemma_combined_with_utf8(m, c, bytes, expected);
    } else {
        lemma_wrapped_with_utf8(m, bytes, expected);
        let placed = m.made_fit(width);
        assert(a.made_fit(width) == placed.with_utf8(bytes, expected)) by {
            reveal(TerminalModel::with_utf8);
        }
        let other = placed.with_utf8(bytes, expected);
        assert(other.cursor_row == placed.cursor_row && other.cursor_col == placed.cursor_col
            && other.modes == placed.modes) by {
            reveal(TerminalModel::with_utf8);
        }
        lemma_written_with_utf8(placed, c, width, bytes, expected);
        let ready = if placed.has(4) {
            placed.made_room(placed.cursor_row, placed.cursor_col, width)
        } else {
            placed
        };
        lemma_written_with_utf8(ready, c, width, bytes, expected);
    }
}

proof fn lemma_printed_keeps_utf8(m: TerminalModel, ch: char)
    ensures
        m.printed(ch).utf8 == m.utf8,
        m.printed(ch).utf8_expected == m.utf8_expected,
        m.printed(ch).pending_escape == m.pending_escape,
{
    reveal(TerminalModel::printed);
    reveal(TerminalModel::wrapped_around);
}

/// A character that is complete leaves no trace of the bytes that came before.
proof fn lemma_completed(m: TerminalModel, before: Seq<u8>, n: int, bytes: Seq<u8>)
    requires
        m.utf8.len() == 0,
        m.utf8_expected == 0,
    ensures
        m.with_utf8(before, n).printed_bytes(bytes).with_utf8(Seq::empty(), 0) == m.printed_bytes(
            bytes,
        ),
{
    reveal(TerminalModel::with_utf8);
    assert(m.utf8 =~= Seq::empty());
    if vstd::utf8::valid_utf8(bytes) && vstd::utf8::decode_utf8(bytes).len() > 0 {
        let ch = vstd::utf8::decode_utf8(bytes)[0];
        lemma_printed_with_utf8(m, ch, before, n);
        lemma_printed_keeps_utf8(m, ch);
    }
}

// ---- the position in the input ----

/// A step a number of bytes further on.
pub open spec fn shifted_step(s: Step, by: int) -> Step {
    Step { next: s.next + by, ..s }
}

proof fn lemma_ends_shifted(x: Seq<u8>, y: Seq<u8>, j: int)
    requires
        0 <= j,
    ensures
        osc_end_at(x + y, x.len() + j) == x.len() + osc_end_at(y, j),
        string_end_at(x + y, x.len() + j) == x.len() + string_end_at(y, j),
        ascii_end(x + y, x.len() + j) == x.len() + ascii_end(y, j),
        j <= y.len() ==> j <= osc_end_at(y, j) <= y.len(),
        j <= y.len() ==> j <= string_end_at(y, j) <= y.len(),
        j <= y.len() ==> j <= ascii_end(y, j) <= y.len(),
    decreases y.len() - j,
{
    if j < y.len() {
        lemma_ends_shifted(x, y, j + 1);
    }
}

proof fn lemma_parts_shifted(parts: CsiParts, x: Seq<u8>, y: Seq<u8>, j: int)
    requires
        0 <= j,
    ensures
        parts.read(x + y, x.len() + j) == (match parts.read(y, j) {
            Some(p) => Some(CsiParts { end: p.end + x.len(), ..p }),
            None => None,
        }),
        parts.read(y, j) matches Some(p) ==> j <= p.end < y.len(),
    decreases y.len() - j,
{
    if j < y.len() {
        lemma_parts_shifted(parts.with_param(y[j]), x, y, j + 1);
        lemma_parts_shifted(parts.with_intermediate(y[j]), x, y, j + 1);
    }
}

proof fn lemma_kept_shifted(m: TerminalModel, x: Seq<u8>, y: Seq<u8>, j: int)
    requires
        0 <= j <= y.len(),
    ensures
        m.kept_from(x + y, x.len() + j) == shifted_step(m.kept_from(y, j), x.len() as int),
{
    reveal(TerminalModel::kept_from);
    assert((x + y).subrange(x.len() + j, (x + y).len() as int) =~= y.subrange(j, y.len() as int));
}

proof fn lemma_escape_shifted(m: TerminalModel, x: Seq<u8>, y: Seq<u8>, j: int)
    requires
        0 <= j < y.len(),
    ensures
        m.escape_step(x + y, x.len() + j) == shifted_step(m.escape_step(y, j), x.len() as int),
{
    let d = x + y;
    let i = x.len() + j;
    reveal(TerminalModel::escape_step);
    lemma_kept_shifted(m, x, y, j);
    lemma_ends_shifted(x, y, j + 2);
    if j + 1 < y.len() {
        assert(d[i + 1] == y[j + 1]);
        if j + 2 < y.len() {
            assert(d[i + 2] == y[j + 2]);
        }
        if y[j + 1] == 93 {
            reveal(TerminalModel::osc_step);
            let end = osc_end_at(y, j + 2);
            if end < y.len() {
                assert(d.subrange(i + 2, x.len() + end) =~= y.subrange(j + 2, end));
                assert(d[x.len() + end] == y[end]);
            }
        } else if y[j + 1] == 91 {
            reveal(TerminalModel::csi_step);
            lemma_parts_shifted(CsiParts::empty(), x, y, j + 2);
            if let Some(p) = CsiParts::empty().read(y, j + 2) {
                assert(d[x.len() + p.end] == y[p.end]);
            }
        } else if y[j + 1] == 80 || y[j + 1] == 88 || y[j + 1] == 94 || y[j + 1] == 95 {
            reveal(TerminalModel::string_step);
            let end = string_end_at(y, j + 2);
            if end < y.len() {
                assert(d.subrange(i + 2, x.len() + end) =~= y.subrange(j + 2, end));
            }
        }
    }
}

proof fn lemma_step_shifted(m: TerminalModel, x: Seq<u8>, y: Seq<u8>, j: int)
    requires
        0 <= j < y.len(),
    ensures
        m.step(x + y, x.len() + j) == shifted_step(m.step(y, j), x.len() as int),
{
    let d = x + y;
    let i = x.len() + j;
    let b = y[j];
    assert(d[i] == b);
    reveal(TerminalModel::step);
    if b == 27 {
        lemma_escape_shifted(m, x, y, j);
    } else if 32 <= b <= 126 {
        reveal(TerminalModel::ascii_step);
        lemma_ends_shifted(x, y, j + 1);
        let end = ascii_end(y, j + 1);
        assert(d.subrange(i, x.len() + end) =~= y.subrange(j, end));
    } else if char_length(b) > 0 {
        reveal(TerminalModel::lead_step);
        let n = char_length(b);
        if j + n <= y.len() {
            assert(d.subrange(i, i + n) =~= y.subrange(j, j + n));
            assert forall|k: int| j < k < j + n implies #[trigger] y[k] == d[x.len() + k] by {}
            if forall|k: int| j < k < j + n ==> continues_char(#[trigger] y[k]) {
                assert forall|k: int| i < k < i + n implies continues_char(#[trigger] d[k]) by {
                    assert(d[k] == y[k - x.len()]);
                }
            }
            if forall|k: int| i < k < i + n ==> continues_char(#[trigger] d[k]) {
                assert forall|k: int| j < k < j + n implies continues_char(#[trigger] y[k]) by {
                    assert(d[x.len() + k] == y[k]);
                }
            }
        }
    } else {
        reveal(TerminalModel::trail_step);
    }
}

/// What is read does not depend on what came before it in the input.
proof fn lemma_run_shifted(m: TerminalModel, x: Seq<u8>, y: Seq<u8>, j: int)
    requires
        0 <= j <= y.len(),
    ensures
        m.run(x + y, x.len() + j) == m.run(y, j),
    decreases y.len() - j,
{
    if j < y.len() {
        lemma_step_shifted(m, x, y, j);
        let s = m.step(y, j);
        if j < s.next <= y.len() {
            lemma_run_shifted(s.state, x, y, s.next);
        }
    }
}

// ---- where input may be cut ----

/// Whether an escape sequence at `i` is complete.
pub open spec fn is_complete_escape(data: Seq<u8>, i: int) -> bool {
    if i + 1 >= data.len() {
        false
    } else {
        match data[i + 1] {
            93 => osc_end_at(data, i + 2) < data.len(),
            80 | 88 | 94 | 95 => string_end_at(data, i + 2) < data.len(),
            40 | 41 | 35 => i + 2 < data.len(),
            91 => CsiParts::empty().read(data, i + 2) is Some,
            _ => true,
        }
    }
}

impl TerminalModel {
    /// Whether printable characters are taken as a run.
    pub open spec fn takes_runs(self) -> bool {
        self.utf8.len() == 0 && self.active_charset == Charset::Ascii && !self.has(4)
    }

    /// Whether what stands at `i` is read the same whatever comes behind the input: an
    /// escape sequence that is complete, a run of printable characters that has ended, a
    /// character of several bytes that is complete or never will be, a byte of its own.
    pub open spec fn is_settled(self, data: Seq<u8>, i: int) -> bool {
        let b = data[i];
        if b == 27 {
            is_complete_escape(data, i)
        } else if 32 <= b <= 126 {
            self.takes_runs() ==> ascii_end(data, i + 1) < data.len()
        } else if char_length(b) > 0 {
            i + char_length(b) <= data.len() || exists|k: int|
                i < k < data.len() && !continues_char(#[trigger] data[k])
        } else {
            true
        }
    }

    /// Whether input may be cut behind `data`, read from `i` on. It may be cut anywhere
    /// but in three places: behind `ESC #`; in a run of printable characters without
    /// autowrap; in a character of several bytes while the bytes of another one wait.
    pub open spec fn may_be_cut(self, data: Seq<u8>, i: int) -> bool
        decreases data.len() - i,
    {
        if i >= data.len() {
            self.wf() && self.pending_escape.len() == 0
        } else if self.is_settled(data, i) {
            let s = self.step(data, i);
            i < s.next <= data.len() && s.state.may_be_cut(data, s.next)
        } else {
            &&& self.wf()
            &&& self.pending_escape.len() == 0
            &&& if data[i] == 27 {
                !(i + 1 < data.len() && data[i + 1] == 35)
            } else if 32 <= data[i] <= 126 {
                self.has(7)
            } else {
                self.utf8.len() == 0
            }
        }
    }
}

proof fn lemma_ends_extended(d: Seq<u8>, b: Seq<u8>, i: int)
    requires
        0 <= i <= d.len(),
    ensures
        osc_end_at(d, i) < d.len() ==> osc_end_at(d + b, i) == osc_end_at(d, i),
        string_end_at(d, i) < d.len() ==> string_end_at(d + b, i) == string_end_at(d, i),
        ascii_end(d, i) < d.len() ==> ascii_end(d + b, i) == ascii_end(d, i),
        ascii_end(d, i) >= d.len() ==> ascii_end(d + b, i) == d.len() + ascii_end(b, 0),
        i <= osc_end_at(d, i) <= d.len(),
        i <= string_end_at(d, i) <= d.len(),
        i <= ascii_end(d, i) <= d.len(),
        osc_end_at(d, i) < d.len() && d[osc_end_at(d, i)] != 7 ==> osc_end_at(d, i) + 1 < d.len(),
        string_end_at(d, i) < d.len() ==> string_end_at(d, i) + 1 < d.len(),
    decreases d.len() - i,
{
    if i < d.len() {
        assert((d + b)[i] == d[i]);
        if i + 1 < d.len() {
            assert((d + b)[i + 1] == d[i + 1]);
        }
        lemma_ends_extended(d, b, i + 1);
    } else {
        lemma_ends_shifted(d, b, 0);
    }
}

proof fn lemma_parts_extended(parts: CsiParts, d: Seq<u8>, b: Seq<u8>, i: int)
    requires
        0 <= i,
    ensures
        parts.read(d, i) matches Some(p) ==> parts.read(d + b, i) == Some(p) && i <= p.end
            < d.len(),
    decreases d.len() - i,
{
    if i < d.len() {
        assert((d + b)[i] == d[i]);
        lemma_parts_extended(parts.with_param(d[i]), d, b, i + 1);
        lemma_parts_extended(parts.with_intermediate(d[i]), d, b, i + 1);
    }
}

/// What is settled is read the same with more input behind it.
proof fn lemma_settled(m: TerminalModel, d: Seq<u8>, b: Seq<u8>, i: int)
    requires
        0 <= i < d.len(),
        m.is_settled(d, i),
    ensures
        m.step(d + b, i) == m.step(d, i),
{
    let all = d + b;
    let c = d[i];
    assert(all[i] == c);
    reveal(TerminalModel::step);
    if c == 27 {
        lemma_settled_escape(m, d, b, i);
    } else if 32 <= c <= 126 {
        reveal(TerminalModel::ascii_step);
        lemma_ends_extended(d, b, i + 1);
        if m.takes_runs() {
            let end = ascii_end(d, i + 1);
            assert(all.subrange(i, end) =~= d.subrange(i, end));
        }
    } else if char_length(c) > 0 {
        reveal(TerminalModel::lead_step);
        let n = char_length(c);
        if i + n <= d.len() {
            assert(all.subrange(i, i + n) =~= d.subrange(i, i + n));
            assert forall|k: int| i < k < i + n implies #[trigger] all[k] == d[k] by {}
            if forall|k: int| i < k < i + n ==> continues_char(#[trigger] d[k]) {
                assert forall|k: int| i < k < i + n implies continues_char(#[trigger] all[k]) by {
                    assert(continues_char(d[k]));
                }
            }
            if forall|k: int| i < k < i + n ==> continues_char(#[trigger] all[k]) {
                assert forall|k: int| i < k < i + n implies continues_char(#[trigger] d[k]) by {
                    assert(continues_char(all[k]));
                }
            }
        } else {
            let k = choose|k: int| i < k < d.len() && !continues_char(#[trigger] d[k]);
            assert(all[k] == d[k]);
            assert(i < k < i + n);
        }
    } else {
        reveal(TerminalModel::trail_step);
    }
}

proof fn lemma_settled_escape(m: TerminalModel, d: Seq<u8>, b: Seq<u8>, i: int)
    requires
        0 <= i < d.len(),
        is_complete_escape(d, i),
    ensures
        m.escape_step(d + b, i) == m.escape_step(d, i),
{
    let all = d + b;
    reveal(TerminalModel::escape_step);
    assert(all[i + 1] == d[i + 1]);
    if i + 2 < d.len() {
        assert(all[i + 2] == d[i + 2]);
    }
    lemma_ends_extended(d, b, i + 2);
    if d[i + 1] == 93 {
        reveal(TerminalModel::osc_step);
        let end = osc_end_at(d, i + 2);
        assert(all.subrange(i + 2, end) =~= d.subrange(i + 2, end));
        assert(all[end] == d[end]);
    } else if d[i + 1] == 91 {
        reveal(TerminalModel::csi_step);
        lemma_parts_extended(CsiParts::empty(), d, b, i + 2);
        if let Some(p) = CsiParts::empty().read(d, i + 2) {
            assert(all[p.end] == d[p.end]);
        }
    } else if d[i + 1] == 80 || d[i + 1] == 88 || d[i + 1] == 94 || d[i + 1] == 95 {
        reveal(TerminalModel::string_step);
        let end = string_end_at(d, i + 2);
        assert(all.subrange(i + 2, end) =~= d.subrange(i + 2, end));
    }
}

/// An escape sequence that is not complete is kept.
proof fn lemma_unsettled_escape(m: TerminalModel, d: Seq<u8>, i: int)
    requires
        0 <= i < d.len(),
        d[i] == 27,
        !is_complete_escape(d, i),
        !(i + 1 < d.len() && d[i + 1] == 35),
    ensures
        m.step(d, i) == (Step {
            state: TerminalModel {
                pending_escape: m.pending_escape + d.subrange(i, d.len() as int),
                ..m
            },
            next: d.len() as int,
            graphics: None,
        }),
{
    reveal(TerminalModel::step);
    reveal(TerminalModel::escape_step);
    reveal(TerminalModel::osc_step);
    reveal(TerminalModel::string_step);
    reveal(TerminalModel::csi_step);
    reveal(TerminalModel::kept_from);
}

/// Bytes that continue a character are collected as long as it is not complete.
proof fn lemma_collected(m: TerminalModel, u: Seq<u8>, n: int, d: Seq<u8>, i: int, end: int)
    requires
        0 <= i <= end <= d.len(),
        u.len() > 0,
        u.len() + (end - i) < n,
        forall|k: int| i <= k < end ==> continues_char(#[trigger] d[k]),
    ensures
        m.with_utf8(u, n).run(d, i) == m.with_utf8(u + d.subrange(i, end), n).run(d, end),
    decreases end - i,
{
    if i < end {
        let w = m.with_utf8(u, n);
        let next = m.with_utf8(u.push(d[i]), n);
        assert(w.step(d, i) == next.up_to(i + 1)) by {
            reveal(TerminalModel::step);
            reveal(TerminalModel::trail_step);
            reveal(TerminalModel::with_utf8);
            assert(continues_char(d[i]));
        }
        lemma_collected(m, u.push(d[i]), n, d, i + 1, end);
        assert(u.push(d[i]) + d.subrange(i + 1, end) =~= u + d.subrange(i, end));
        let rest = next.run(d, i + 1);
        assert(Seq::<Seq<char>>::empty() + rest.1 =~= rest.1);
    } else {
        assert(u + d.subrange(i, end) =~= u);
    }
}

impl TerminalModel {
    /// Input in two parts, one after the other.
    pub open spec fn fed_after(self, found: Seq<Seq<char>>, input: Seq<u8>) -> (
        Self,
        Seq<Seq<char>>,
    ) {
        (self.fed(input).0, found + self.fed(input).1)
    }
}

/// With nothing waiting, input is read from its start.
proof fn lemma_fed_fresh(m: TerminalModel, b: Seq<u8>)
    requires
        m.pending_escape.len() == 0,
    ensures
        m.fed(b) == m.run(b, 0),
{
    assert(m.pending_escape =~= Seq::empty());
    assert(Seq::<u8>::empty() + b =~= b);
    assert(m.pending_escape + b =~= b);
}

proof fn lemma_cut_in_escape(m: TerminalModel, d: Seq<u8>, b: Seq<u8>, i: int)
    requires
        0 <= i < d.len(),
        d[i] == 27,
        !is_complete_escape(d, i),
        !(i + 1 < d.len() && d[i + 1] == 35),
        m.pending_escape.len() == 0,
        d.len() - i <= MAX_PENDING_ESCAPE,
    ensures
        m.run(d + b, i) == m.run(d, i).0.fed_after(m.run(d, i).1, b),
{
    lemma_unsettled_escape(m, d, i);
    let rest = d.subrange(i, d.len() as int);
    let s = m.step(d, i);
    assert(s.state.run(d, d.len() as int) == (s.state, Seq::<Seq<char>>::empty()));
    let r = m.run(d, i);
    assert(r.0 == s.state);
    assert(r.1 =~= Seq::empty());
    assert(m.pending_escape =~= Seq::empty());
    assert(m.pending_escape + rest =~= rest);
    assert(r.0.pending_escape == rest);
    let fresh = TerminalModel { pending_escape: Seq::empty(), ..r.0 };
    assert(fresh == m);
    let head = d.subrange(0, i);
    assert(d + b =~= head + (rest + b));
    lemma_run_shifted(m, head, rest + b, 0);
    assert(r.1 + r.0.fed(b).1 =~= r.0.fed(b).1);
}

proof fn lemma_cut_in_run(m: TerminalModel, d: Seq<u8>, b: Seq<u8>, i: int)
    requires
        0 <= i < d.len(),
        32 <= d[i] <= 126,
        m.takes_runs(),
        ascii_end(d, i + 1) >= d.len(),
        m.has(7),
        m.wf(),
        m.pending_escape.len() == 0,
    ensures
        m.run(d + b, i) == m.run(d, i).0.fed_after(m.run(d, i).1, b),
{
    let all = d + b;
    let x = d.subrange(i, d.len() as int);
    let e = ascii_end(b, 0);
    let y = b.subrange(0, e);
    lemma_ends_extended(d, b, i + 1);
    lemma_ends_shifted(d, b, 0);
    let first = m.run_printed(x);
    assert(m.step(d, i) == first.up_to(d.len() as int)) by {
        reveal(TerminalModel::step);
        reveal(TerminalModel::ascii_step);
    }
    assert(first.run(d, d.len() as int) == (first, Seq::<Seq<char>>::empty()));
    let r = m.run(d, i);
    assert(r.0 == first);
    assert(r.1 =~= Seq::empty());
    assert(first.reads_like(m)) by {
        reveal(TerminalModel::run_printed);
        lemma_run_placed(m.held_behind().with_last(Some(x.last() as char)), x);
    }
    lemma_fed_fresh(first, b);
    assert(all[i] == d[i]);
    assert(all.subrange(i, d.len() + e) =~= x + y);
    assert(m.step(all, i) == m.run_printed(x + y).up_to(d.len() + e)) by {
        reveal(TerminalModel::step);
        reveal(TerminalModel::ascii_step);
    }
    if e == 0 {
        assert(x + y =~= x);
        lemma_run_shifted(first, d, b, 0);
        let rest = first.run(b, 0);
        assert(Seq::<Seq<char>>::empty() + rest.1 =~= rest.1);
    } else {
        lemma_printed_twice(m, x, y);
        let both = m.run_printed(x + y);
        lemma_run_shifted(both, d, b, e);
        let rest = both.run(b, e);
        assert(ascii_end(b, 1) == e);
        assert(32 <= b[0] <= 126);
        assert(first.step(b, 0) == both.up_to(e)) by {
            reveal(TerminalModel::step);
            reveal(TerminalModel::ascii_step);
        }
        assert(Seq::<Seq<char>>::empty() + rest.1 =~= rest.1);
    }
    assert(r.1 + first.fed(b).1 =~= first.fed(b).1);
}

/// The first byte of a character that is not complete.
proof fn lemma_lead(m: TerminalModel, d: Seq<u8>, i: int, n: int)
    requires
        0 <= i < d.len(),
        n == char_length(d[i]),
        n > 0,
        !(i + n <= d.len() && forall|k: int| i < k < i + n ==> continues_char(#[trigger] d[k])),
    ensures
        m.step(d, i) == m.with_utf8(seq![d[i]], n).up_to(i + 1),
        m.run(d, i) == m.with_utf8(seq![d[i]], n).run(d, i + 1),
{
    reveal(TerminalModel::step);
    reveal(TerminalModel::lead_step);
    let next = m.with_utf8(seq![d[i]], n);
    let rest = next.run(d, i + 1);
    assert(Seq::<Seq<char>>::empty() + rest.1 =~= rest.1);
}

/// A character that is completed by what comes.
proof fn lemma_completed_by(m: TerminalModel, x: Seq<u8>, n: int, b: Seq<u8>)
    requires
        m.utf8.len() == 0,
        m.utf8_expected == 0,
        0 < x.len() < n,
        n - x.len() <= b.len(),
        forall|k: int| 0 <= k < n - x.len() ==> continues_char(#[trigger] b[k]),
    ensures
        m.with_utf8(x, n).run(b, 0) == m.printed_bytes(x + b.subrange(0, n - x.len())).run(
            b,
            n - x.len(),
        ),
{
    let more = n - x.len();
    let last = more - 1;
    lemma_collected(m, x, n, b, 0, last);
    let u = x + b.subrange(0, last);
    let bytes = x + b.subrange(0, more);
    assert(u.push(b[last]) =~= bytes);
    let w = m.with_utf8(u, n);
    let done = m.printed_bytes(bytes);
    assert(w.step(b, last) == done.up_to(more)) by {
        reveal(TerminalModel::step);
        reveal(TerminalModel::trail_step);
        assert(continues_char(b[last]));
        assert(w.utf8 == u && w.utf8_expected == n) by {
            reveal(TerminalModel::with_utf8);
        }
        lemma_completed(m, u, n, bytes);
    }
    let rest = done.run(b, more);
    assert(Seq::<Seq<char>>::empty() + rest.1 =~= rest.1);
}

proof fn lemma_cut_in_char(m: TerminalModel, d: Seq<u8>, b: Seq<u8>, i: int)
    requires
        0 <= i < d.len(),
        char_length(d[i]) > 0,
        i + char_length(d[i]) > d.len(),
        forall|k: int| i < k < d.len() ==> continues_char(#[trigger] d[k]),
        m.wf(),
        m.utf8.len() == 0,
        m.pending_escape.len() == 0,
    ensures
        m.run(d + b, i) == m.run(d, i).0.fed_after(m.run(d, i).1, b),
{
    let all = d + b;
    let n = char_length(d[i]);
    let x = d.subrange(i, d.len() as int);
    let lead = seq![d[i]];
    assert(lead + d.subrange(i + 1, d.len() as int) =~= x);
    let w = m.with_utf8(x, n);
    lemma_lead(m, d, i, n);
    lemma_collected(m, lead, n, d, i + 1, d.len() as int);
    assert(w.run(d, d.len() as int) == (w, Seq::<Seq<char>>::empty()));
    let r = m.run(d, i);
    assert(r.0 == w);
    assert(r.1 =~= Seq::empty());
    assert(w.pending_escape.len() == 0) by {
        reveal(TerminalModel::with_utf8);
    }
    lemma_fed_fresh(w, b);
    assert(r.1 + w.fed(b).1 =~= w.fed(b).1);
    assert(all[i] == d[i]);
    let more = n - x.len();
    if more <= b.len() && (forall|k: int| 0 <= k < more ==> continues_char(#[trigger] b[k])) {
        let bytes = x + b.subrange(0, more);
        let done = m.printed_bytes(bytes);
        assert(all.subrange(i, i + n) =~= bytes);
        assert forall|k: int| i < k < i + n implies continues_char(#[trigger] all[k]) by {
            if k < d.len() {
                assert(continues_char(d[k]));
            } else {
                assert(continues_char(b[k - d.len()]));
            }
        }
        assert(m.step(all, i) == done.up_to(i + n)) by {
            reveal(TerminalModel::step);
            reveal(TerminalModel::lead_step);
        }
        let rest = done.run(all, i + n);
        assert(Seq::<Seq<char>>::empty() + rest.1 =~= rest.1);
        lemma_run_shifted(done, d, b, more);
        lemma_completed_by(m, x, n, b);
    } else {
        assert(!(i + n <= all.len() && forall|k: int|
            i < k < i + n ==> continues_char(#[trigger] all[k]))) by {
            if more <= b.len() {
                let k = choose|k: int| 0 <= k < more && !continues_char(#[trigger] b[k]);
                assert(all[d.len() + k] == b[k]);
            }
        }
        lemma_lead(m, all, i, n);
        assert forall|k: int| i + 1 <= k < d.len() implies continues_char(#[trigger] all[k]) by {
            assert(continues_char(d[k]));
        }
        lemma_collected(m, lead, n, all, i + 1, d.len() as int);
        assert(all.subrange(i + 1, d.len() as int) =~= d.subrange(i + 1, d.len() as int));
        lemma_run_shifted(w, d, b, 0);
    }
}

proof fn lemma_cut(m: TerminalModel, d: Seq<u8>, b: Seq<u8>, i: int)
    requires
        0 <= i <= d.len(),
        m.may_be_cut(d, i),
        m.run(d, i).0.pending_escape.len() <= MAX_PENDING_ESCAPE,
    ensures
        m.run(d + b, i) == m.run(d, i).0.fed_after(m.run(d, i).1, b),
    decreases d.len() - i,
{
    if i >= d.len() {
        lemma_fed_fresh(m, b);
        lemma_run_shifted(m, d, b, 0);
        assert(Seq::<Seq<char>>::empty() + m.run(b, 0).1 =~= m.run(b, 0).1);
    } else if m.is_settled(d, i) {
        lemma_settled(m, d, b, i);
        let s = m.step(d, i);
        lemma_cut(s.state, d, b, s.next);
        let found = match s.graphics {
            Some(command) => seq![command],
            None => Seq::empty(),
        };
        let r = s.state.run(d, s.next);
        assert((found + r.1) + r.0.fed(b).1 =~= found + (r.1 + r.0.fed(b).1));
    } else if d[i] == 27 {
        lemma_unsettled_escape(m, d, i);
        let s = m.step(d, i);
        assert(s.state.run(d, d.len() as int) == (s.state, Seq::<Seq<char>>::empty()));
        assert(m.run(d, i).0 == s.state);
        lemma_cut_in_escape(m, d, b, i);
    } else if 32 <= d[i] <= 126 {
        lemma_cut_in_run(m, d, b, i);
    } else {
        lemma_cut_in_char(m, d, b, i);
    }
}

/// Where input is cut into pieces does not matter: taking in one piece and then the other
/// is the same as taking in both at once, screen, answers, graphics commands and all.
/// It may be cut anywhere but in the places that [`TerminalModel::may_be_cut`] names, and
/// as long as what waits of an incomplete sequence is not given up.
pub proof fn input_may_come_in_pieces(m: TerminalModel, a: Seq<u8>, b: Seq<u8>)
    requires
        m.pending_escape.len() <= MAX_PENDING_ESCAPE,
        (TerminalModel { pending_escape: Seq::empty(), ..m }).may_be_cut(m.pending_escape + a, 0),
        m.fed(a).0.pending_escape.len() <= MAX_PENDING_ESCAPE,
    ensures
        m.fed(a + b).0 == m.fed(a).0.fed(b).0,
        m.fed(a + b).1 == m.fed(a).1 + m.fed(a).0.fed(b).1,
{
    let fresh = TerminalModel { pending_escape: Seq::empty(), ..m };
    let d = m.pending_escape + a;
    lemma_cut(fresh, d, b, 0);
    assert(m.pending_escape + (a + b) =~= d + b);
}

/// An escape sequence that is not complete waits: nothing else changes until the rest
/// of it comes, and then it is read as if it had come at once.
pub proof fn an_incomplete_sequence_waits(m: TerminalModel, start: Seq<u8>, rest: Seq<u8>)
    requires
        m.pending_escape.len() == 0,
        0 < start.len() <= MAX_PENDING_ESCAPE,
        start[0] == 27,
        !is_complete_escape(start, 0),
        !(start.len() > 1 && start[1] == 35),
    ensures
        m.fed(start).0 == (TerminalModel { pending_escape: start, ..m }),
        m.fed(start).1.len() == 0,
        m.fed(start).0.fed(rest) == m.fed(start + rest),
{
    lemma_fed_fresh(m, start);
    lemma_fed_fresh(m, start + rest);
    lemma_unsettled_escape(m, start, 0);
    lemma_cut_in_escape(m, start, rest, 0);
    let s = m.step(start, 0);
    assert(s.state.run(start, start.len() as int) == (s.state, Seq::<Seq<char>>::empty()));
    assert(m.pending_escape + start.subrange(0, start.len() as int) =~= start);
    assert(m.run(start, 0).1 =~= Seq::empty());
    assert(m.run(start, 0).1 + m.run(start, 0).0.fed(rest).1 =~= m.run(start, 0).0.fed(rest).1);
}

// ---- a sequence cut in two ----

/// Every step reads at least one byte and none behind the input.
proof fn lemma_step_moves(m: TerminalModel, d: Seq<u8>, i: int)
    requires
        0 <= i < d.len(),
    ensures
        i < m.step(d, i).next <= d.len(),
{
    reveal(TerminalModel::step);
    reveal(TerminalModel::kept_from);
    lemma_ends_extended(d, Seq::empty(), i + 1);
    if d[i] == 27 {
        reveal(TerminalModel::escape_step);
        if i + 1 < d.len() {
            lemma_ends_extended(d, Seq::empty(), i + 2);
            reveal(TerminalModel::osc_step);
            reveal(TerminalModel::string_step);
            reveal(TerminalModel::csi_step);
            lemma_parts_extended(CsiParts::empty(), d, Seq::empty(), i + 2);
        }
    } else if 32 <= d[i] <= 126 {
        reveal(TerminalModel::ascii_step);
    } else {
        reveal(TerminalModel::lead_step);
        reveal(TerminalModel::trail_step);
    }
}

/// With an escape sequence behind it, everything is read as it is without, but for an
/// escape sequence that is not complete.
proof fn lemma_step_before_escape(m: TerminalModel, d: Seq<u8>, e: Seq<u8>, i: int)
    requires
        0 <= i < d.len(),
        e.len() > 0,
        e[0] == 27,
        d[i] == 27 ==> is_complete_escape(d, i) || i + 1 < d.len() && d[i + 1] == 35,
    ensures
        m.step(d + e, i) == m.step(d, i),
{
    let all = d + e;
    if m.is_settled(d, i) {
        lemma_settled(m, d, e, i);
    } else {
        reveal(TerminalModel::step);
        assert(all[i] == d[i]);
        assert(all[d.len() as int] == 27);
        if d[i] == 27 {
            reveal(TerminalModel::escape_step);
            assert(all[i + 1] == 35);
            assert(all[i + 2] == 27);
        } else if 32 <= d[i] <= 126 {
            reveal(TerminalModel::ascii_step);
            lemma_ends_extended(d, e, i + 1);
            assert(ascii_end(e, 0) == 0);
            assert(all.subrange(i, d.len() as int) =~= d.subrange(i, d.len() as int));
        } else {
            reveal(TerminalModel::lead_step);
            let n = char_length(d[i]);
            assert(!continues_char(all[d.len() as int]));
        }
    }
}

/// Text that leaves no sequence unfinished is read as it is without what follows, where
/// that starts with an escape sequence.
proof fn lemma_text_before_escape(m: TerminalModel, d: Seq<u8>, e: Seq<u8>, i: int)
    requires
        0 <= i <= d.len(),
        e.len() > 0,
        e[0] == 27,
        m.run(d, i).0.pending_escape.len() == 0,
    ensures
        m.run(d + e, i) == (
            m.run(d, i).0.run(e, 0).0,
            m.run(d, i).1 + m.run(d, i).0.run(e, 0).1,
        ),
    decreases d.len() - i,
{
    if i >= d.len() {
        lemma_run_shifted(m, d, e, 0);
        assert(Seq::<Seq<char>>::empty() + m.run(e, 0).1 =~= m.run(e, 0).1);
    } else {
        if d[i] == 27 && !is_complete_escape(d, i) && !(i + 1 < d.len() && d[i + 1] == 35) {
            lemma_unsettled_escape(m, d, i);
            let s = m.step(d, i);
            assert(s.state.run(d, d.len() as int) == (s.state, Seq::<Seq<char>>::empty()));
            assert(d.subrange(i, d.len() as int).len() > 0);
        }
        lemma_step_moves(m, d, i);
        lemma_step_before_escape(m, d, e, i);
        let s = m.step(d, i);
        lemma_text_before_escape(s.state, d, e, s.next);
        let found = match s.graphics {
            Some(command) => seq![command],
            None => Seq::empty(),
        };
        let r = s.state.run(d, s.next);
        assert((found + r.1) + r.0.run(e, 0).1 =~= found + (r.1 + r.0.run(e, 0).1));
    }
}

/// An escape sequence that comes in two reads is read as one that comes in one, whatever
/// text stands before it and wherever in it the cut is, but behind `ESC #`: no byte of it
/// is printed and none is lost. The text before it leaves no sequence of its own
/// unfinished.
pub proof fn a_cut_sequence_is_read_whole(
    m: TerminalModel,
    text: Seq<u8>,
    start: Seq<u8>,
    rest: Seq<u8>,
)
    requires
        m.pending_escape.len() == 0,
        m.fed(text).0.pending_escape.len() == 0,
        0 < start.len() <= MAX_PENDING_ESCAPE,
        start[0] == 27,
        !is_complete_escape(start, 0),
        !(start.len() > 1 && start[1] == 35),
    ensures
        m.fed(text + start).0 == (TerminalModel { pending_escape: start, ..m.fed(text).0 }),
        m.fed(text + start).1 == m.fed(text).1,
        m.fed(text + start).0.fed(rest).0 == m.fed(text + start + rest).0,
        m.fed(text + start).1 + m.fed(text + start).0.fed(rest).1 == m.fed(
            text + start + rest,
        ).1,
{
    let whole = start + rest;
    let read = m.fed(text).0;
    lemma_fed_fresh(m, text);
    lemma_fed_fresh(m, text + start);
    lemma_fed_fresh(m, text + start + rest);
    lemma_fed_fresh(read, start);
    lemma_fed_fresh(read, whole);
    assert(whole[0] == 27);
    assert(text + start + rest =~= text + whole);
    lemma_text_before_escape(m, text, start, 0);
    lemma_text_before_escape(m, text, whole, 0);
    an_incomplete_sequence_waits(read, start, rest);
    assert(m.fed(text).1 + Seq::<Seq<char>>::empty() =~= m.fed(text).1);
    assert(read.fed(start).1 =~= Seq::empty());
}

} // verus!
