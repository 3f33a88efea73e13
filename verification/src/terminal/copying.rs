//! What a selection holds, and what the pointer's reports say.

use super::model::TerminalModel;
use super::queries::mouse_byte;
use super::selection::{
    class_of, text_between, token_char, token_prefix, token_separator, token_span, token_suffix,
    without_prefix, without_suffix, word_left, word_right, word_span, CharClass, WordKind,
};
use super::types::{Selection, SelectionMode};
use crate::cell::TerminalCell;
use crate::text::decimal_text;
use vstd::prelude::*;

verus! {

/// The characters of some cells; the second half of a wide character has none of its own.
pub open spec fn characters(cells: Seq<TerminalCell>) -> Seq<char> {
    cells.filter(|cell: TerminalCell| !cell.flags@.wide_continuation).map_values(
        |cell: TerminalCell| cell.character,
    )
}

proof fn lemma_text_between(line: Seq<TerminalCell>, from: int, to: int)
    requires
        0 <= from <= to + 1 <= line.len(),
    ensures
        text_between(line, from, to) == characters(line.subrange(from, to + 1)),
    decreases to - from + 1,
{
    reveal(Seq::filter);
    let part = line.subrange(from, to + 1);
    if from > to {
        assert(part =~= Seq::empty());
        assert(characters(part) =~= Seq::empty());
    } else {
        lemma_text_between(line, from, to - 1);
        assert(part.drop_last() =~= line.subrange(from, to));
        assert(part.last() == line[to]);
        assert(text_between(line, from, to) =~= characters(part));
    }
}

proof fn lemma_beyond(line: Seq<TerminalCell>, from: int, to: int)
    requires
        0 <= from <= line.len() <= to + 1,
    ensures
        text_between(line, from, to) == text_between(line, from, line.len() - 1),
    decreases to - from + 1,
{
    if to >= line.len() {
        if from <= to {
            lemma_beyond(line, from, to - 1);
        }
    }
}

/// A selection with its ends exchanged.
pub open spec fn turned(sel: Selection) -> Selection {
    Selection { anchor: sel.active, active: sel.anchor, ..sel }
}

/// It makes no difference from which end a selection was made.
pub proof fn a_selection_has_no_direction(m: TerminalModel, sel: Selection, row: int)
    ensures
        turned(sel).first() == sel.first(),
        turned(sel).last() == sel.last(),
        turned(sel).cols_in(row) == sel.cols_in(row),
        m.copied(turned(sel)) == m.copied(sel),
        sel.first().0 <= sel.last().0,
        sel.first().0 == sel.last().0 ==> sel.first().1 <= sel.last().1,
{
    assert forall|from: int, to: int| #[trigger]
        m.selected_text(turned(sel), from, to) == m.selected_text(sel, from, to) by {
        lemma_same_text(m, turned(sel), sel, from, to);
    }
}

proof fn lemma_same_text(m: TerminalModel, a: Selection, b: Selection, from: int, to: int)
    requires
        forall|row: int| #[trigger] a.cols_in(row) == b.cols_in(row),
        a.last() == b.last(),
    ensures
        m.selected_text(a, from, to) == m.selected_text(b, from, to),
    decreases to - from,
{
    if from < to {
        lemma_same_text(m, a, b, from, to - 1);
        assert(a.cols_in(to - 1) == b.cols_in(to - 1));
    }
}

/// A selection within one line holds the characters from its first column to its last, both
/// included.
pub proof fn a_selection_in_a_line_holds_its_columns(m: TerminalModel, sel: Selection)
    requires
        m.wf(),
        sel.first().0 == sel.last().0,
        sel.last().0 < m.total_rows(),
        sel.mode == SelectionMode::Normal,
        sel.last().1 < m.line_at(sel.last().0 as int).len(),
        sel.last().1 < m.cols(),
    ensures
        m.copied(sel) == characters(
            m.line_at(sel.first().0 as int).subrange(
                sel.first().1 as int,
                sel.last().1 as int + 1,
            ),
        ),
{
    let row = sel.first().0 as int;
    reveal_with_fuel(TerminalModel::selected_text, 2);
    lemma_text_between(m.line_at(row), sel.first().1 as int, sel.last().1 as int);
    let text = m.selected_in(sel, row);
    assert(Seq::<char>::empty() + text =~= text);
}

proof fn lemma_front(m: TerminalModel, sel: Selection, from: int, to: int)
    requires
        from < to,
    ensures
        m.selected_text(sel, from, to) == (m.selected_in(sel, from) + (if from < sel.last().0 {
            seq!['\n']
        } else {
            Seq::empty()
        })) + m.selected_text(sel, from + 1, to),
    decreases to - from,
{
    let line = m.selected_in(sel, from);
    let end = if from < sel.last().0 {
        seq!['\n']
    } else {
        Seq::<char>::empty()
    };
    if from + 1 == to {
        reveal_with_fuel(TerminalModel::selected_text, 2);
        assert(m.selected_text(sel, from, to) =~= (line + end) + m.selected_text(
            sel,
            from + 1,
            to,
        ));
    } else {
        lemma_front(m, sel, from, to - 1);
        assert(m.selected_text(sel, from, to) =~= (line + end) + m.selected_text(
            sel,
            from + 1,
            to,
        ));
    }
}

/// A selection over several lines holds its first line from its first column on, a line
/// feed, and then what a selection holds that starts with the next line.
pub proof fn a_selection_goes_on_from_line_to_line(
    m: TerminalModel,
    start: (usize, usize),
    end: (usize, usize),
)
    requires
        m.wf(),
        start.0 < end.0,
        end.0 < m.total_rows(),
        start.1 <= m.line_at(start.0 as int).len() <= m.cols(),
    ensures
        ({
            let sel = Selection { anchor: start, active: end, mode: SelectionMode::Normal };
            let rest = Selection {
                anchor: ((start.0 + 1) as usize, 0),
                active: end,
                mode: SelectionMode::Normal,
            };
            let line = m.line_at(start.0 as int);
            m.copied(sel) == characters(line.subrange(start.1 as int, line.len() as int)) + seq![
                '\n',
            ] + m.copied(rest)
        }),
{
    let sel = Selection { anchor: start, active: end, mode: SelectionMode::Normal };
    let rest = Selection {
        anchor: ((start.0 + 1) as usize, 0),
        active: end,
        mode: SelectionMode::Normal,
    };
    let line = m.line_at(start.0 as int);
    let from = start.0 as int;
    let to = end.0 + 1;
    lemma_front(m, sel, from, to);
    lemma_beyond(line, start.1 as int, m.cols() - 1);
    lemma_text_between(line, start.1 as int, line.len() - 1);
    assert(m.selected_in(sel, from) == characters(
        line.subrange(start.1 as int, line.len() as int),
    ));
    lemma_later_lines(m, sel, rest, from + 1, to);
}

proof fn lemma_later_lines(m: TerminalModel, a: Selection, b: Selection, from: int, to: int)
    requires
        a.last() == b.last(),
        forall|row: int| from <= row < to ==> #[trigger] a.cols_in(row) == b.cols_in(row),
    ensures
        m.selected_text(a, from, to) == m.selected_text(b, from, to),
    decreases to - from,
{
    if from < to {
        lemma_later_lines(m, a, b, from, to - 1);
        assert(a.cols_in(to - 1) == b.cols_in(to - 1));
    }
}

/// A block holds the same columns of each of its lines, from the one end's to the other's.
pub proof fn a_block_holds_the_same_columns(sel: Selection, row: int)
    requires
        sel.mode == SelectionMode::Block,
    ensures
        ({
            let inside = sel.anchor.0 <= row <= sel.active.0 || sel.active.0 <= row
                <= sel.anchor.0;
            &&& inside <==> sel.cols_in(row) is Some
            &&& sel.cols_in(row) matches Some(cols) ==> {
                &&& cols.0 <= cols.1
                &&& cols == (sel.anchor.1 as int, sel.active.1 as int) || cols == (
                    sel.active.1 as int,
                    sel.anchor.1 as int,
                )
            }
        }),
{
}

/// A line without wide characters.
pub open spec fn is_narrow(line: Seq<TerminalCell>) -> bool {
    forall|c: int|
        0 <= c < line.len() ==> !(#[trigger] line[c]).flags@.wide && !line[c].flags@.wide_continuation
}

proof fn lemma_word_ends(line: Seq<TerminalCell>, col: int, kind: WordKind)
    requires
        is_narrow(line),
        0 <= col < line.len(),
        kind.has(line[col].character),
    ensures
        ({
            let left = word_left(line, col, kind);
            let right = word_right(line, col, kind);
            &&& 0 <= left <= col <= right < line.len()
            &&& forall|c: int| left <= c <= right ==> kind.has((#[trigger] line[c]).character)
            &&& left > 0 ==> !kind.has(line[left - 1].character)
            &&& right + 1 < line.len() ==> !kind.has(line[right + 1].character)
        }),
{
    lemma_left_end(line, col, kind);
    lemma_right_end(line, col, kind);
}

proof fn lemma_left_end(line: Seq<TerminalCell>, col: int, kind: WordKind)
    requires
        is_narrow(line),
        0 <= col < line.len(),
        kind.has(line[col].character),
    ensures
        ({
            let left = word_left(line, col, kind);
            &&& 0 <= left <= col
            &&& forall|c: int| left <= c <= col ==> kind.has((#[trigger] line[c]).character)
            &&& left > 0 ==> !kind.has(line[left - 1].character)
        }),
    decreases col,
{
    if col > 0 {
        assert(!line[col - 1].flags@.wide_continuation);
        if kind.has(line[col - 1].character) {
            lemma_left_end(line, col - 1, kind);
        }
    }
}

proof fn lemma_right_end(line: Seq<TerminalCell>, col: int, kind: WordKind)
    requires
        is_narrow(line),
        0 <= col < line.len(),
        kind.has(line[col].character),
    ensures
        ({
            let right = word_right(line, col, kind);
            &&& col <= right < line.len()
            &&& forall|c: int| col <= c <= right ==> kind.has((#[trigger] line[c]).character)
            &&& right + 1 < line.len() ==> !kind.has(line[right + 1].character)
        }),
    decreases line.len() - col,
{
    assert(!line[col].flags@.wide);
    if col + 1 < line.len() {
        assert(!line[col + 1].flags@.wide_continuation);
        if kind.has(line[col + 1].character) {
            lemma_right_end(line, col + 1, kind);
        }
    }
}

/// The word at a column, where it is no path, address or the like, is all of the characters
/// around it that are of its kind, letters, blanks or signs, and no other.
pub proof fn a_word_is_all_of_one_kind(line: Seq<TerminalCell>, col: int)
    requires
        is_narrow(line),
        0 <= col < line.len(),
        token_span(line, col) is None,
    ensures
        ({
            let (left, right) = word_span(line, col);
            let kind = class_of(line[col].character);
            &&& 0 <= left <= col <= right < line.len()
            &&& forall|c: int|
                left <= c <= right ==> class_of((#[trigger] line[c]).character) == kind
            &&& left > 0 ==> class_of(line[left - 1].character) != kind
            &&& right + 1 < line.len() ==> class_of(line[right + 1].character) != kind
        }),
        class_of('_') == CharClass::Word,
{
    let kind = WordKind::Class(class_of(line[col].character));
    assert(!line[col].flags@.wide_continuation);
    lemma_word_ends(line, col, kind);
    let right = word_right(line, col, kind);
    assert(!line[right].flags@.wide);
    assert forall|c: int| word_left(line, col, kind) <= c <= right implies class_of(
        (#[trigger] line[c]).character,
    ) == class_of(line[col].character) by {
        assert(kind.has(line[c].character));
    }
}

/// A press or release is told with decimal numbers as `ESC [ <`, the button, the column and
/// the row, counted from one, with semicolons between them, and `M` or `m`. In the older
/// form one character each tells them, 32 added, and a release tells of no button. Where no
/// program asked, nothing is told.
pub proof fn the_pointer_is_told_as(m: TerminalModel, button: u8, col: int, row: int)
    requires
        0 <= col < 0xffff_ffff,
        0 <= row < 0xffff_ffff,
        button <= 127,
    ensures
        !(m.has(1000) || m.has(1002) || m.has(1003)) ==> m.mouse_report(button, true, col, row)
            is None && m.mouse_report(button, false, col, row) is None,
        (m.has(1000) || m.has(1002) || m.has(1003)) && m.has(1006) ==> ({
            let head = seq!['\x1b', '[', '<'] + decimal_text(button as nat) + seq![';']
                + decimal_text((col + 1) as nat) + seq![';'] + decimal_text((row + 1) as nat);
            &&& m.mouse_report(button, true, col, row) == Some(head + seq!['M'])
            &&& m.mouse_report(button, false, col, row) == Some(head + seq!['m'])
        }),
        (m.has(1000) || m.has(1002) || m.has(1003)) && !m.has(1006) && col < 222 && row < 222 ==> ({
            let tail = seq![(col + 33) as char, (row + 33) as char];
            &&& m.mouse_report(button, true, col, row) == Some(
                seq!['\x1b', '[', 'M', (button + 32) as char] + tail,
            )
            &&& m.mouse_report(button, false, col, row) == Some(
                seq!['\x1b', '[', 'M', '#'] + tail,
            )
        }),
{
    reveal_strlit("\x1b[<");
    reveal_strlit(";");
    reveal_strlit("M");
    reveal_strlit("m");
    reveal_strlit("\x1b[M");
    assert("\x1b[<"@ =~= seq!['\x1b', '[', '<']);
    assert(";"@ =~= seq![';']);
    assert("M"@ =~= seq!['M']);
    assert("m"@ =~= seq!['m']);
    assert("\x1b[M"@ =~= seq!['\x1b', '[', 'M']);
    let tail = seq![(col + 33) as char, (row + 33) as char];
    if col < 222 && row < 222 {
        assert(mouse_byte(col) == (col + 33) as char);
        assert(mouse_byte(row) == (row + 33) as char);
        assert(seq!['\x1b', '[', 'M'].push((32 + button) as char).push(mouse_byte(col)).push(
            mouse_byte(row),
        ) =~= seq!['\x1b', '[', 'M', (button + 32) as char] + tail);
        assert((32 + 3) as char == '#');
        assert(seq!['\x1b', '[', 'M'].push((32 + 3) as char).push(mouse_byte(col)).push(
            mouse_byte(row),
        ) =~= seq!['\x1b', '[', 'M', '#'] + tail);
    }
}

/// A path, an address or the like that is selected as a word holds the column, and is made of
/// letters, digits and the signs that such texts have.
pub proof fn a_path_is_selected_as_a_word(line: Seq<TerminalCell>, col: int)
    requires
        is_narrow(line),
        0 <= col < line.len(),
        token_span(line, col) is Some,
    ensures
        ({
            let (left, right) = word_span(line, col);
            &&& 0 <= left <= col <= right < line.len()
            &&& forall|c: int|
                left <= c <= right ==> token_char((#[trigger] line[c]).character)
            &&& exists|c: int|
                left <= c <= right && token_separator((#[trigger] line[c]).character)
        }),
        token_separator('/') && token_separator('.') && token_separator(':') && token_separator('-')
            && token_separator('~') && token_separator('@'),
        !token_separator(' ') && !token_separator('(') && !token_separator('"'),
{
    assert(!line[col].flags@.wide_continuation);
    let kind = WordKind::Token;
    lemma_word_ends(line, col, kind);
    let run_left = word_left(line, col, kind);
    let run_right = word_right(line, col, kind);
    lemma_prefix_within(line, run_left, col);
    lemma_suffix_within(line, run_right, col);
    let (left, right) = word_span(line, col);
    let end = without_suffix(line, run_right, col);
    assert(!line[end].flags@.wide);
    assert(right == end);
    assert forall|c: int| left <= c <= right implies token_char((#[trigger] line[c]).character) by {
        assert(kind.has(line[c].character));
    }
    let c = choose|c: int|
        left <= c <= end && !(#[trigger] line[c]).flags@.wide_continuation && token_separator(
            line[c].character,
        );
    assert(token_separator(line[c].character));
}

proof fn lemma_prefix_within(line: Seq<TerminalCell>, left: int, start: int)
    requires
        left <= start,
    ensures
        left <= without_prefix(line, left, start) <= start,
    decreases start - left,
{
    if left < start && token_prefix(line[left].character) {
        lemma_prefix_within(line, left + 1, start);
    }
}

proof fn lemma_suffix_within(line: Seq<TerminalCell>, right: int, start: int)
    requires
        is_narrow(line),
        0 <= start <= right < line.len(),
    ensures
        start <= without_suffix(line, right, start) <= right,
    decreases right,
{
    assert(!line[right].flags@.wide_continuation);
    if right > start && token_suffix(line[right].character) {
        lemma_suffix_within(line, right - 1, start);
    }
}

} // verus!
