//! Selecting and copying text.

use super::model::TerminalModel;
use super::state::{lines_view, TerminalState};
use super::types::{Selection, SelectionMode};
use crate::cell::TerminalCell;
use crate::outside::{is_alphanumeric, unicode_alphanumeric};
use vstd::prelude::*;

verus! {

/// What a character counts as when a word is selected.
#[derive(Clone, Copy, Debug, PartialEq, Eq, Structural)]
pub enum CharClass {
    Word,
    Whitespace,
    Symbol,
}

/// What belongs to a word that is selected: the characters of one class, or those
/// of paths, addresses and the like.
#[derive(Clone, Copy, Debug, PartialEq, Eq, Structural)]
pub enum WordKind {
    Class(CharClass),
    Token,
}

pub open spec fn word_char(c: char) -> bool {
    unicode_alphanumeric(c) || c == '_'
}

pub open spec fn class_of(c: char) -> CharClass {
    if word_char(c) {
        CharClass::Word
    } else if c == ' ' || c == '\t' || c == '\0' {
        CharClass::Whitespace
    } else {
        CharClass::Symbol
    }
}

pub open spec fn token_separator(c: char) -> bool {
    c == '/' || c == '\\' || c == '.' || c == ':' || c == '-' || c == '~' || c == '?' || c == '&'
        || c == '=' || c == '#' || c == '%' || c == '+' || c == '@'
}

pub open spec fn token_char(c: char) -> bool {
    word_char(c) || token_separator(c)
}

pub open spec fn token_prefix(c: char) -> bool {
    c == '"' || c == '\'' || c == '`' || c == '(' || c == '[' || c == '{' || c == '<'
}

pub open spec fn token_suffix(c: char) -> bool {
    c == '"' || c == '\'' || c == '`' || c == ')' || c == ']' || c == '}' || c == '>' || c == ','
        || c == ';' || c == '!'
}

impl WordKind {
    pub open spec fn has(self, c: char) -> bool {
        match self {
            WordKind::Class(class) => class_of(c) == class,
            WordKind::Token => token_char(c),
        }
    }
}

fn is_word_char(c: char) -> (v: bool)
    ensures
        v == word_char(c),
{
    is_alphanumeric(c) || c == '_'
}

fn is_whitespace_char(c: char) -> (v: bool)
    ensures
        v == (c == ' ' || c == '\t' || c == '\0'),
{
    c == ' ' || c == '\t' || c == '\0'
}

fn char_class(c: char) -> (class: CharClass)
    ensures
        class == class_of(c),
{
    if is_word_char(c) {
        CharClass::Word
    } else if is_whitespace_char(c) {
        CharClass::Whitespace
    } else {
        CharClass::Symbol
    }
}

fn is_extended_token_separator(c: char) -> (v: bool)
    ensures
        v == token_separator(c),
{
    c == '/' || c == '\\' || c == '.' || c == ':' || c == '-' || c == '~' || c == '?' || c == '&'
        || c == '=' || c == '#' || c == '%' || c == '+' || c == '@'
}

fn is_token_prefix_wrapper(c: char) -> (v: bool)
    ensures
        v == token_prefix(c),
{
    c == '"' || c == '\'' || c == '`' || c == '(' || c == '[' || c == '{' || c == '<'
}

fn is_token_suffix_wrapper(c: char) -> (v: bool)
    ensures
        v == token_suffix(c),
{
    c == '"' || c == '\'' || c == '`' || c == ')' || c == ']' || c == '}' || c == '>' || c == ','
        || c == ';' || c == '!'
}

impl WordKind {
    fn contains(self, c: char) -> (v: bool)
        ensures
            v == self.has(c),
    {
        match self {
            WordKind::Class(class) => char_class(c) == class,
            WordKind::Token => is_word_char(c) || is_extended_token_separator(c),
        }
    }
}

/// The left end of a word, seen from a column in it.
pub open spec fn word_left(line: Seq<TerminalCell>, left: int, kind: WordKind) -> int
    decreases left,
{
    if left > 0 && (line[left - 1].flags@.wide_continuation || kind.has(
        line[left - 1].character,
    )) {
        word_left(line, left - 1, kind)
    } else {
        left
    }
}

/// The column of the next character.
pub open spec fn next_col(line: Seq<TerminalCell>, col: int) -> int {
    if line[col].flags@.wide {
        col + 2
    } else {
        col + 1
    }
}

/// The right end of a word, seen from a column in it: the column of its last character.
pub open spec fn word_right(line: Seq<TerminalCell>, right: int, kind: WordKind) -> int
    decreases line.len() - right,
{
    let next = next_col(line, right);
    if next >= line.len() || right < 0 {
        right
    } else if line[next].flags@.wide_continuation {
        if next + 1 < line.len() && kind.has(line[next + 1].character) {
            word_right(line, next + 1, kind)
        } else {
            right
        }
    } else if kind.has(line[next].character) {
        word_right(line, next, kind)
    } else {
        right
    }
}

/// The last column of a character.
pub open spec fn char_end(line: Seq<TerminalCell>, col: int) -> int {
    if line[col].flags@.wide && col + 1 < line.len() {
        col + 1
    } else {
        col
    }
}

/// Opening brackets and quotes left out at the left end.
pub open spec fn without_prefix(line: Seq<TerminalCell>, left: int, start: int) -> int
    decreases start - left,
{
    if left < start && token_prefix(line[left].character) {
        without_prefix(line, left + 1, start)
    } else {
        left
    }
}

/// Closing brackets, quotes and punctuation left out at the right end.
pub open spec fn without_suffix(line: Seq<TerminalCell>, right: int, start: int) -> int
    decreases right,
{
    if right > start && right > 0 && token_suffix(line[right].character) {
        without_suffix(
            line,
            if line[right].flags@.wide_continuation && right > 1 {
                right - 2
            } else {
                right - 1
            },
            start,
        )
    } else {
        right
    }
}

/// Whether a letter or digit stands in the columns `from ..= to`.
pub open spec fn has_letter(line: Seq<TerminalCell>, from: int, to: int) -> bool {
    exists|c: int|
        from <= c <= to && !(#[trigger] line[c]).flags@.wide_continuation && unicode_alphanumeric(
            line[c].character,
        )
}

/// Whether a separator stands in the columns `from ..= to`.
pub open spec fn has_separator(line: Seq<TerminalCell>, from: int, to: int) -> bool {
    exists|c: int|
        from <= c <= to && !(#[trigger] line[c]).flags@.wide_continuation && token_separator(
            line[c].character,
        )
}

/// The path, address or the like at a column: it has a letter and a separator.
pub open spec fn token_span(line: Seq<TerminalCell>, start: int) -> Option<(int, int)> {
    if start >= line.len() || !token_char(line[start].character) {
        None
    } else {
        let left = without_prefix(line, word_left(line, start, WordKind::Token), start);
        let right = without_suffix(line, word_right(line, start, WordKind::Token), start);
        if left > right || start < left || start > right || !has_letter(line, left, right)
            || !has_separator(line, left, right) {
            None
        } else {
            Some((left, char_end(line, right)))
        }
    }
}

/// The columns of the word at a column.
pub open spec fn word_span(line: Seq<TerminalCell>, col: int) -> (int, int) {
    let start = if line[col].flags@.wide_continuation && col > 0 {
        col - 1
    } else {
        col
    };
    match token_span(line, start) {
        Some(span) => span,
        None => {
            let kind = WordKind::Class(class_of(line[start].character));
            (word_left(line, start, kind), char_end(line, word_right(line, start, kind)))
        },
    }
}

/// Whether a position comes before another, or is it.
pub open spec fn in_order(a: (usize, usize), b: (usize, usize)) -> bool {
    a.0 < b.0 || (a.0 == b.0 && a.1 <= b.1)
}

impl Selection {
    /// The end that comes first.
    pub open spec fn first(self) -> (usize, usize) {
        if in_order(self.anchor, self.active) {
            self.anchor
        } else {
            self.active
        }
    }

    /// The end that comes last.
    pub open spec fn last(self) -> (usize, usize) {
        if in_order(self.anchor, self.active) {
            self.active
        } else {
            self.anchor
        }
    }

    /// The columns that are selected in a line, both included: all the way between
    /// the two ends, or the same columns in every line of a block.
    pub open spec fn cols_in(self, row: int) -> Option<(int, int)> {
        if row < self.first().0 || row > self.last().0 {
            None
        } else if self.mode == SelectionMode::Block {
            if self.anchor.1 <= self.active.1 {
                Some((self.anchor.1 as int, self.active.1 as int))
            } else {
                Some((self.active.1 as int, self.anchor.1 as int))
            }
        } else {
            Some(
                (
                    if row == self.first().0 {
                        self.first().1 as int
                    } else {
                        0
                    },
                    if row == self.last().0 {
                        self.last().1 as int
                    } else {
                        usize::MAX as int
                    },
                ),
            )
        }
    }
}

/// The characters of the columns `from ..= to`, as far as the line goes.
pub open spec fn text_between(line: Seq<TerminalCell>, from: int, to: int) -> Seq<char>
    decreases to - from + 1,
{
    if from > to || to < 0 {
        Seq::empty()
    } else if to >= line.len() {
        text_between(line, from, to - 1)
    } else {
        let before = text_between(line, from, to - 1);
        if line[to].flags@.wide_continuation {
            before
        } else {
            before.push(line[to].character)
        }
    }
}

impl TerminalModel {
    /// A line of the view, counted from the oldest line of the scrollback.
    pub open spec fn absolute(self, viewport_row: int) -> int {
        self.scrollback.len() - self.scroll_offset + viewport_row
    }

    /// A line, counted from the oldest line of the scrollback.
    pub open spec fn line_at(self, row: int) -> Seq<TerminalCell> {
        if row < self.scrollback.len() {
            self.scrollback[row].cells
        } else {
            self.grid.lines[row - self.scrollback.len()]
        }
    }

    pub open spec fn total_rows(self) -> int {
        self.scrollback.len() + self.rows()
    }

    /// What is selected in one line.
    pub open spec fn selected_in(self, sel: Selection, row: int) -> Seq<char> {
        match sel.cols_in(row) {
            Some((from, to)) => text_between(
                self.line_at(row),
                from,
                if to < self.cols() {
                    to
                } else {
                    self.cols() - 1
                },
            ),
            None => Seq::empty(),
        }
    }

    /// The selected text of the lines `from .. to`: each line but the selection's last
    /// ends with a line feed.
    pub open spec fn selected_text(self, sel: Selection, from: int, to: int) -> Seq<char>
        decreases to - from,
    {
        if from >= to {
            Seq::empty()
        } else {
            let text = self.selected_text(sel, from, to - 1) + self.selected_in(sel, to - 1);
            if to - 1 < sel.last().0 {
                text.push('\n')
            } else {
                text
            }
        }
    }

    /// The text of a selection, as far as there are lines.
    pub open spec fn copied(self, sel: Selection) -> Seq<char> {
        self.selected_text(
            sel,
            sel.first().0 as int,
            if sel.last().0 < self.total_rows() {
                sel.last().0 + 1
            } else {
                self.total_rows()
            },
        )
    }

    pub open spec fn with_selection(self, sel: Selection) -> Self {
        TerminalModel { selection: Some(sel), ..self }
    }

    /// The word at a position of the view selected, if there is a cell.
    pub open spec fn word_selected(self, row: int, col: int) -> Self {
        let cells = self.visible_cells();
        let kept = self.with_visible_kept();
        if row >= cells.len() || col >= cells[row].len() {
            kept
        } else {
            let span = word_span(cells[row], col);
            kept.with_selection(
                Selection {
                    anchor: (self.absolute(row) as usize, span.0 as usize),
                    active: (self.absolute(row) as usize, span.1 as usize),
                    mode: SelectionMode::Normal,
                },
            )
        }
    }
}

proof fn lemma_word_left(line: Seq<TerminalCell>, left: int, kind: WordKind)
    requires
        0 <= left < line.len(),
    ensures
        0 <= word_left(line, left, kind) <= left,
    decreases left,
{
    if left > 0 && (line[left - 1].flags@.wide_continuation || kind.has(
        line[left - 1].character,
    )) {
        lemma_word_left(line, left - 1, kind);
    }
}

proof fn lemma_word_right(line: Seq<TerminalCell>, right: int, kind: WordKind)
    requires
        0 <= right < line.len(),
    ensures
        right <= word_right(line, right, kind) < line.len(),
    decreases line.len() - right,
{
    let next = next_col(line, right);
    if next < line.len() {
        if line[next].flags@.wide_continuation {
            if next + 1 < line.len() && kind.has(line[next + 1].character) {
                lemma_word_right(line, next + 1, kind);
            }
        } else if kind.has(line[next].character) {
            lemma_word_right(line, next, kind);
        }
    }
}

proof fn lemma_without_prefix(line: Seq<TerminalCell>, left: int, start: int)
    requires
        left <= start,
    ensures
        left <= without_prefix(line, left, start) <= start,
    decreases start - left,
{
    if left < start && token_prefix(line[left].character) {
        lemma_without_prefix(line, left + 1, start);
    }
}

proof fn lemma_without_suffix(line: Seq<TerminalCell>, right: int, start: int)
    ensures
        without_suffix(line, right, start) <= right,
    decreases right,
{
    if right > start && right > 0 && token_suffix(line[right].character) {
        if line[right].flags@.wide_continuation && right > 1 {
            lemma_without_suffix(line, right - 2, start);
        } else {
            lemma_without_suffix(line, right - 1, start);
        }
    }
}

/// The word at a column holds the character there, and lies within the line.
pub proof fn a_word_holds_its_column(line: Seq<TerminalCell>, col: int)
    requires
        0 <= col < line.len(),
    ensures
        ({
            let start = if line[col].flags@.wide_continuation && col > 0 {
                col - 1
            } else {
                col
            };
            let span = word_span(line, col);
            0 <= span.0 <= start <= span.1 < line.len()
        }),
{
    let start = if line[col].flags@.wide_continuation && col > 0 {
        col - 1
    } else {
        col
    };
    let kind = WordKind::Class(class_of(line[start].character));
    lemma_word_left(line, start, kind);
    lemma_word_right(line, start, kind);
    lemma_word_left(line, start, WordKind::Token);
    lemma_word_right(line, start, WordKind::Token);
    lemma_without_prefix(line, word_left(line, start, WordKind::Token), start);
    lemma_without_suffix(line, word_right(line, start, WordKind::Token), start);
}

fn find_word_left(line: &[TerminalCell], start: usize, kind: WordKind) -> (left: usize)
    requires
        start < line@.len(),
    ensures
        left == word_left(line@, start as int, kind),
        left <= start,
{
    let mut left: usize = start;
    while left > 0 && (line[left - 1].flags.wide_continuation() || kind.contains(
        line[left - 1].character,
    ))
        invariant
            left <= start < line@.len(),
            word_left(line@, left as int, kind) == word_left(line@, start as int, kind),
        decreases left,
    {
        left = left - 1;
    }
    left
}

fn find_word_right(line: &[TerminalCell], start: usize, kind: WordKind) -> (right: usize)
    requires
        start < line@.len(),
    ensures
        right == word_right(line@, start as int, kind),
        start <= right < line@.len(),
{
    let len: usize = line.len();
    let mut right: usize = start;
    loop
        invariant
            start <= right < line@.len() == len,
            word_right(line@, right as int, kind) == word_right(line@, start as int, kind),
        decreases line@.len() - right,
    {
        let step: usize = if line[right].flags.wide() {
            2
        } else {
            1
        };
        if len - right <= step {
            return right;
        }
        let next: usize = right + step;
        if line[next].flags.wide_continuation() {
            if len - next > 1 && kind.contains(line[next + 1].character) {
                right = next + 1;
            } else {
                return right;
            }
        } else if kind.contains(line[next].character) {
            right = next;
        } else {
            return right;
        }
    }
}

fn end_of_char(line: &[TerminalCell], col: usize) -> (end: usize)
    requires
        col < line@.len(),
    ensures
        end == char_end(line@, col as int),
        col <= end < line@.len(),
{
    let len: usize = line.len();
    if line[col].flags.wide() && len - col > 1 {
        col + 1
    } else {
        col
    }
}

fn skip_prefix(line: &[TerminalCell], from: usize, start: usize) -> (left: usize)
    requires
        from <= start < line@.len(),
    ensures
        left == without_prefix(line@, from as int, start as int),
        from <= left <= start,
{
    let mut left: usize = from;
    while left < start && is_token_prefix_wrapper(line[left].character)
        invariant
            from <= left <= start < line@.len(),
            without_prefix(line@, left as int, start as int) == without_prefix(
                line@,
                from as int,
                start as int,
            ),
        decreases start - left,
    {
        left = left + 1;
    }
    left
}

fn skip_suffix(line: &[TerminalCell], from: usize, start: usize) -> (right: usize)
    requires
        start <= from < line@.len(),
    ensures
        right == without_suffix(line@, from as int, start as int),
        right <= from,
{
    let mut right: usize = from;
    while right > start && is_token_suffix_wrapper(line[right].character)
        invariant
            right <= from < line@.len(),
            without_suffix(line@, right as int, start as int) == without_suffix(
                line@,
                from as int,
                start as int,
            ),
        decreases right,
    {
        if line[right].flags.wide_continuation() && right > 1 {
            right = right - 2;
        } else {
            right = right - 1;
        }
    }
    right
}

/// Whether a letter or digit, and whether a separator, stands in the columns.
fn look_for_token(line: &[TerminalCell], from: usize, to: usize) -> (found: (bool, bool))
    requires
        from <= to < line@.len(),
    ensures
        found.0 == has_letter(line@, from as int, to as int),
        found.1 == has_separator(line@, from as int, to as int),
{
    let mut letter = false;
    let mut separator = false;
    let mut c: usize = from;
    while c <= to
        invariant
            from <= c <= to + 1,
            to < line@.len(),
            letter == has_letter(line@, from as int, c - 1),
            separator == has_separator(line@, from as int, c - 1),
        decreases to + 1 - c,
    {
        let len: usize = line.len();
        let cell = line[c];
        if !cell.flags.wide_continuation() {
            if is_alphanumeric(cell.character) {
                letter = true;
            }
            if is_extended_token_separator(cell.character) {
                separator = true;
            }
        }
        proof {
            assert(line@[c as int] == cell);
            assert(has_letter(line@, from as int, c as int) == letter);
            assert(has_separator(line@, from as int, c as int) == separator);
        }
        c = c + 1;
    }
    (letter, separator)
}

fn select_extended_token_span(line: &[TerminalCell], start: usize) -> (span: Option<(usize, usize)>)
    ensures
        span is Some <==> token_span(line@, start as int) is Some,
        span matches Some(s) ==> token_span(line@, start as int) == Some((s.0 as int, s.1 as int)),
{
    if start >= line.len() || !WordKind::Token.contains(line[start].character) {
        return None;
    }
    let left: usize = skip_prefix(line, find_word_left(line, start, WordKind::Token), start);
    let right: usize = skip_suffix(line, find_word_right(line, start, WordKind::Token), start);
    if left > right || start < left || start > right {
        return None;
    }
    let (letter, separator) = look_for_token(line, left, right);
    if !letter || !separator {
        return None;
    }
    Some((left, end_of_char(line, right)))
}

/// The columns of the word at a column.
fn find_word_span(line: &[TerminalCell], col: usize) -> (span: (usize, usize))
    requires
        col < line@.len(),
    ensures
        (span.0 as int, span.1 as int) == word_span(line@, col as int),
{
    let start: usize = if line[col].flags.wide_continuation() && col > 0 {
        col - 1
    } else {
        col
    };
    if let Some(span) = select_extended_token_span(line, start) {
        return span;
    }
    let kind = WordKind::Class(char_class(line[start].character));
    let left: usize = find_word_left(line, start, kind);
    let right: usize = find_word_right(line, start, kind);
    (left, end_of_char(line, right))
}

fn is_in_order(a: (usize, usize), b: (usize, usize)) -> (v: bool)
    ensures
        v == in_order(a, b),
{
    a.0 < b.0 || (a.0 == b.0 && a.1 <= b.1)
}

/// Adds the characters of the columns `from ..= to`.
fn append_between(text: &mut String, line: &[TerminalCell], from: usize, to: usize)
    requires
        to < line@.len(),
    ensures
        final(text)@ == old(text)@ + text_between(line@, from as int, to as int),
{
    let len: usize = line.len();
    let mut c: usize = from;
    if from > to {
        proof {
            assert(text@ =~= old(text)@ + text_between(line@, from as int, to as int));
        }
        return ;
    }
    proof {
        assert(text@ =~= old(text)@ + text_between(line@, from as int, c - 1));
    }
    while c <= to
        invariant
            from <= c <= to + 1,
            to < line@.len() == len,
            text@ == old(text)@ + text_between(line@, from as int, c - 1),
        decreases to + 1 - c,
    {
        let cell = line[c];
        proof {
            let before = text_between(line@, from as int, c - 1);
            assert((old(text)@ + before).push(cell.character) =~= old(text)@ + before.push(
                cell.character,
            ));
            assert(line@[c as int] == cell);
        }
        if !cell.flags.wide_continuation() {
            text.push(cell.character);
        }
        c = c + 1;
    }
}

impl TerminalState {
    fn viewport_row_to_absolute(&self, viewport_row: usize) -> (row: usize)
        requires
            self.wf(),
            self@.absolute(viewport_row as int) <= usize::MAX,
        ensures
            row == self@.absolute(viewport_row as int),
    {
        self.scrollback.len() - self.scroll_offset + viewport_row
    }

    /// Selects between two positions, counted from the oldest line of the scrollback.
    pub fn select_text(&mut self, anchor: (usize, usize), active: (usize, usize))
        requires
            old(self).wf(),
        ensures
            final(self).wf(),
            final(self)@ == old(self)@.with_selection(
                (Selection { anchor, active, mode: SelectionMode::Normal }),
            ),
            final(self).kitty_graphics == old(self).kitty_graphics,
            final(self).sync_output_start == old(self).sync_output_start,
    {
        self.selection = Some(Selection { anchor, active, mode: SelectionMode::Normal });
    }

    /// Starts a selection at a position of the view.
    pub fn start_selection(&mut self, viewport_pos: (usize, usize))
        requires
            old(self).wf(),
            old(self)@.absolute(viewport_pos.0 as int) <= usize::MAX,
        ensures
            final(self).wf(),
            final(self)@ == old(self)@.with_selection(
                (Selection {
                    anchor: (old(self)@.absolute(viewport_pos.0 as int) as usize, viewport_pos.1),
                    active: (old(self)@.absolute(viewport_pos.0 as int) as usize, viewport_pos.1),
                    mode: SelectionMode::Normal,
                }),
            ),
            final(self).kitty_graphics == old(self).kitty_graphics,
            final(self).sync_output_start == old(self).sync_output_start,
    {
        self.start_selection_with_mode(viewport_pos, SelectionMode::Normal);
    }

    /// Starts the selection of a block at a position of the view.
    pub fn start_block_selection(&mut self, viewport_pos: (usize, usize))
        requires
            old(self).wf(),
            old(self)@.absolute(viewport_pos.0 as int) <= usize::MAX,
        ensures
            final(self).wf(),
            final(self)@ == old(self)@.with_selection(
                (Selection {
                    anchor: (old(self)@.absolute(viewport_pos.0 as int) as usize, viewport_pos.1),
                    active: (old(self)@.absolute(viewport_pos.0 as int) as usize, viewport_pos.1),
                    mode: SelectionMode::Block,
                }),
            ),
            final(self).kitty_graphics == old(self).kitty_graphics,
            final(self).sync_output_start == old(self).sync_output_start,
    {
        self.start_selection_with_mode(viewport_pos, SelectionMode::Block);
    }

    fn start_selection_with_mode(&mut self, viewport_pos: (usize, usize), mode: SelectionMode)
        requires
            old(self).wf(),
            old(self)@.absolute(viewport_pos.0 as int) <= usize::MAX,
        ensures
            final(self).wf(),
            final(self)@ == old(self)@.with_selection(
                (Selection {
                    anchor: (old(self)@.absolute(viewport_pos.0 as int) as usize, viewport_pos.1),
                    active: (old(self)@.absolute(viewport_pos.0 as int) as usize, viewport_pos.1),
                    mode,
                }),
            ),
            final(self).kitty_graphics == old(self).kitty_graphics,
            final(self).sync_output_start == old(self).sync_output_start,
    {
        let row: usize = self.viewport_row_to_absolute(viewport_pos.0);
        let position = (row, viewport_pos.1);
        self.selection = Some(Selection { anchor: position, active: position, mode });
    }

    /// Moves the active end of the selection to a position of the view.
    pub fn update_selection(&mut self, viewport_pos: (usize, usize))
        requires
            old(self).wf(),
            old(self)@.absolute(viewport_pos.0 as int) <= usize::MAX,
        ensures
            final(self).wf(),
            final(self)@ == (match old(self)@.selection {
                Some(sel) => old(self)@.with_selection(
                    Selection {
                        active: (
                            old(self)@.absolute(viewport_pos.0 as int) as usize,
                            viewport_pos.1,
                        ),
                        ..sel
                    },
                ),
                None => old(self)@,
            }),
            final(self).kitty_graphics == old(self).kitty_graphics,
            final(self).sync_output_start == old(self).sync_output_start,
    {
        let row: usize = self.viewport_row_to_absolute(viewport_pos.0);
        if let Some(sel) = self.selection {
            self.selection = Some(
                Selection { anchor: sel.anchor, active: (row, viewport_pos.1), mode: sel.mode },
            );
        }
    }

    /// Selects the word at a position of the view: a path, address or the like where
    /// there is one, else the characters of one class around it.
    pub fn select_word_at(&mut self, row: usize, col: usize)
        requires
            old(self).wf(),
            old(self)@.absolute(row as int) <= usize::MAX,
        ensures
            final(self).wf(),
            final(self)@ == old(self)@.word_selected(row as int, col as int),
            final(self).kitty_graphics == old(self).kitty_graphics,
            final(self).sync_output_start == old(self).sync_output_start,
    {
        let visible = self.get_visible_cells();
        proof {
            reveal(TerminalModel::with_visible_kept);
        }
        if row >= visible.len() {
            return ;
        }
        proof {
            assert(lines_view(visible@)[row as int] == visible@[row as int]@);
        }
        if col >= visible[row].len() {
            return ;
        }
        let (left, right) = find_word_span(visible[row].as_slice(), col);
        let abs_row: usize = self.viewport_row_to_absolute(row);
        self.selection = Some(
            Selection {
                anchor: (abs_row, left),
                active: (abs_row, right),
                mode: SelectionMode::Normal,
            },
        );
    }

    /// The columns of a selection in a line, counted from the oldest line.
    fn selection_cols(sel: &Selection, row: usize) -> (cols: Option<(usize, usize)>)
        ensures
            cols is Some <==> sel.cols_in(row as int) is Some,
            cols matches Some(c) ==> sel.cols_in(row as int) == Some((c.0 as int, c.1 as int)),
    {
        let (first, last) = if is_in_order(sel.anchor, sel.active) {
            (sel.anchor, sel.active)
        } else {
            (sel.active, sel.anchor)
        };
        if row < first.0 || row > last.0 {
            return None;
        }
        if sel.mode == SelectionMode::Block {
            if sel.anchor.1 <= sel.active.1 {
                Some((sel.anchor.1, sel.active.1))
            } else {
                Some((sel.active.1, sel.anchor.1))
            }
        } else {
            let from: usize = if row == first.0 {
                first.1
            } else {
                0
            };
            let to: usize = if row == last.0 {
                last.1
            } else {
                usize::MAX
            };
            Some((from, to))
        }
    }

    /// Adds what is selected in one line.
    fn append_selected(&self, text: &mut String, sel: &Selection, row: usize)
        requires
            self.wf(),
            row < self@.total_rows(),
        ensures
            final(text)@ == old(text)@ + self@.selected_in(*sel, row as int),
    {
        proof {
            crate::grid::TerminalGrid::view_is_wf(&self.grid);
            assert(text@ + Seq::<char>::empty() =~= text@);
        }
        if let Some((from, to)) = Self::selection_cols(sel, row) {
            let cols: usize = self.grid.row_len();
            let end: usize = if to < cols {
                to
            } else {
                cols - 1
            };
            let scrolled: usize = self.scrollback.len();
            if row < scrolled {
                let line = self.scrollback[row].decompress();
                proof {
                    assert(line@ == self@.line_at(row as int));
                    lemma_text_cut(line@, from as int, end as int);
                }
                if line.len() > 0 {
                    let stop: usize = if end < line.len() {
                        end
                    } else {
                        line.len() - 1
                    };
                    append_between(text, line.as_slice(), from, stop);
                }
            } else {
                append_between(text, self.grid.row(row - scrolled), from, end);
            }
        }
    }

    /// The selected text.
    pub fn copy_selection(&self) -> (text: Option<String>)
        requires
            self.wf(),
        ensures
            text is Some <==> self@.selection is Some,
            text matches Some(t) ==> t@ == self@.copied(self@.selection->0),
    {
        match self.selection {
            None => None,
            Some(sel) => {
                let (first, last) = if is_in_order(sel.anchor, sel.active) {
                    (sel.anchor, sel.active)
                } else {
                    (sel.active, sel.anchor)
                };
                let total: usize = self.scrollback.len() + self.grid.rows();
                let end: usize = if last.0 < total {
                    last.0 + 1
                } else {
                    total
                };
                let mut text = String::new();
                let mut row: usize = first.0;
                proof {
                    assert(text@ =~= self@.selected_text(sel, first.0 as int, row as int));
                }
                while row < end
                    invariant
                        self.wf(),
                        end <= self@.total_rows(),
                        first == sel.first(),
                        last == sel.last(),
                        first.0 <= row,
                        row <= end || row == first.0,
                        text@ == self@.selected_text(sel, first.0 as int, row as int),
                    decreases end - row,
                {
                    self.append_selected(&mut text, &sel, row);
                    if row < last.0 {
                        text.push('\n');
                    }
                    row = row + 1;
                }
                proof {
                    if first.0 > end {
                        assert(self@.selected_text(sel, first.0 as int, end as int)
                            =~= Seq::empty());
                    }
                }
                Some(text)
            },
        }
    }

    /// The columns that are selected in a line of the view, both included.
    pub fn row_selection_cols(&self, viewport_row: usize) -> (cols: Option<(usize, usize)>)
        requires
            self.wf(),
            self@.absolute(viewport_row as int) <= usize::MAX,
        ensures
            cols is Some <==> (self@.selection is Some && self@.selection->0.cols_in(
                self@.absolute(viewport_row as int),
            ) is Some),
            cols matches Some(c) ==> self@.selection->0.cols_in(
                self@.absolute(viewport_row as int),
            ) == Some((c.0 as int, c.1 as int)),
    {
        match self.selection {
            None => None,
            Some(sel) => {
                let row: usize = self.viewport_row_to_absolute(viewport_row);
                Self::selection_cols(&sel, row)
            },
        }
    }
}

/// Text ends where the line does.
proof fn lemma_text_cut(line: Seq<TerminalCell>, from: int, to: int)
    requires
        from >= 0,
    ensures
        to >= line.len() ==> text_between(line, from, to) == text_between(
            line,
            from,
            line.len() - 1,
        ),
        line.len() == 0 ==> text_between(line, from, to) == Seq::<char>::empty(),
    decreases to - from + 1,
{
    if from <= to && to >= line.len() {
        lemma_text_cut(line, from, to - 1);
    }
}

} // verus!
