//! The small types that the terminal state is made of.

use crate::cell::{Color, StyleFlags};
use vstd::prelude::*;

verus! {

/// The widest terminal.
pub const MAX_TERMINAL_COLS: usize = 1024;

/// The tallest terminal.
pub const MAX_TERMINAL_ROWS: usize = 512;

/// `n` brought into `low ..= high`.
pub open spec fn clamped(n: int, low: int, high: int) -> int {
    if n < low {
        low
    } else if n > high {
        high
    } else {
        n
    }
}

/// Brings the size of a terminal into the supported range: at least one column
/// and one line.
pub fn clamp_terminal_dimensions(cols: usize, rows: usize) -> (size: (usize, usize))
    ensures
        size.0 == clamped(cols as int, 1, MAX_TERMINAL_COLS as int),
        size.1 == clamped(rows as int, 1, MAX_TERMINAL_ROWS as int),
{
    let c: usize = if cols < 1 {
        1
    } else if cols > MAX_TERMINAL_COLS {
        MAX_TERMINAL_COLS
    } else {
        cols
    };
    let r: usize = if rows < 1 {
        1
    } else if rows > MAX_TERMINAL_ROWS {
        MAX_TERMINAL_ROWS
    } else {
        rows
    };
    (c, r)
}

/// Clamping a size that has been clamped changes nothing.
pub proof fn clamping_is_idempotent(n: int, low: int, high: int)
    requires
        low <= high,
    ensures
        clamped(clamped(n, low, high), low, high) == clamped(n, low, high),
        low <= clamped(n, low, high) <= high,
{
}

#[derive(Clone, Copy, Debug, PartialEq, Eq, Structural)]
pub enum SelectionMode {
    Normal,
    Block,
}

/// A selection between two positions `(line, column)`, counted from the oldest
/// line of the scrollback.
#[derive(Clone, Copy, Debug, PartialEq, Eq)]
pub struct Selection {
    pub anchor: (usize, usize),
    pub active: (usize, usize),
    pub mode: SelectionMode,
}

#[derive(Clone, Copy, Debug, PartialEq, Eq, Structural)]
pub enum Charset {
    Ascii,
    DecSpecialGraphics,
}

/// What a program wants to read from the clipboard: the list of available MIME
/// types, or the data of one.
#[derive(Clone, Debug, PartialEq, Eq)]
pub enum ClipboardReadKind {
    MimeList,
    MimeData(String),
}

#[derive(Clone, Debug, PartialEq, Eq)]
pub struct ClipboardReadRequest {
    pub kind: ClipboardReadKind,
}

impl ClipboardReadRequest {
    /// The MIME type asked for, or nothing for a request of the list.
    pub open spec fn mime(self) -> Option<Seq<char>> {
        match self.kind {
            ClipboardReadKind::MimeList => None,
            ClipboardReadKind::MimeData(mime) => Some(mime@),
        }
    }
}

/// The lines of one shell command, as the shell reports them: prompt, command,
/// output, and the exit code.
#[derive(Clone, Copy, Debug, PartialEq, Eq, Structural)]
pub struct CommandZone {
    pub prompt_start: usize,
    pub command_start: Option<usize>,
    pub output_start: Option<usize>,
    pub output_end: Option<usize>,
    pub exit_code: Option<i32>,
}

/// How far the shell has come with the current command.
#[derive(Clone, Copy, Debug, PartialEq, Eq, Structural)]
pub enum ZoneState {
    Idle,
    PromptStarted(usize),
    CommandStarted(usize, usize),
    OutputStarted(usize, usize, usize),
}

/// Full cursor state saved by DECSC (ESC 7) / CSI s and restored by DECRC (ESC 8) /
/// CSI u: besides the position also the rendition, the character sets and the
/// origin mode.
#[derive(Clone, Copy, Debug, PartialEq, Eq, Structural)]
pub struct SavedCursor {
    pub row: usize,
    pub col: usize,
    pub fg: Color,
    pub bg: Color,
    pub flags: StyleFlags,
    pub g0: Charset,
    pub g1: Charset,
    pub active: Charset,
    pub origin_mode: bool,
}

} // verus!
