//! The mouse over the terminal, and what is drawn on a line.

use crate::link::Link;
use crate::text::{append_decimal, append_text, decimal_text, owned};
use vstd::prelude::*;

verus! {

#[derive(Debug, Clone, Copy, PartialEq, Eq, Structural)]
pub enum MouseButton {
    Left,
    Middle,
    Right,
}

/// What is done with the mouse, at a cell counted from the top left.
#[derive(Debug, Clone, Copy, PartialEq, Eq, Structural)]
pub enum MouseInput {
    Press { col: usize, row: usize, button: MouseButton, shift: bool, alt: bool, count: u32 },
    Drag { col: usize, row: usize },
    Release { col: usize, row: usize, button: MouseButton },
    Wheel { col: usize, row: usize, up: bool },
    /// The scrollbar is moved: the view is to be scrolled up by `offset` lines.
    ScrollTo { offset: usize },
}

/// The longest time between presses that make up a double click, in milliseconds.
pub const MULTI_CLICK_MS: u128 = 400;

/// What the mouse is doing over one terminal.
#[derive(Debug, Clone, Copy, PartialEq, Eq)]
pub struct PointerState {
    pub dragging: bool,
    pub scrollbar_dragging: bool,
    /// Where the left button was pressed last.
    pub last_click: Option<(usize, usize)>,
    pub click_count: u32,
}

impl Default for PointerState {
    fn default() -> (state: Self)
        ensures
            state == (PointerState {
                dragging: false,
                scrollbar_dragging: false,
                last_click: None,
                click_count: 0,
            }),
    {
        PointerState {
            dragging: false,
            scrollbar_dragging: false,
            last_click: None,
            click_count: 0,
        }
    }
}

impl PointerState {
    /// How many presses in a row a press of the left button is: one more where the
    /// last was at the same cell not long ago.
    pub open spec fn presses(self, cell: (usize, usize), since_last_ms: u128) -> u32 {
        if self.last_click == Some(cell) && since_last_ms <= MULTI_CLICK_MS {
            self.click_count.wrapping_add(1)
        } else {
            1
        }
    }

    /// A button pressed at a cell. `scrollbar` is the offset that the scrollbar has
    /// there, where the pointer is over it; `since_last_ms` the time since the last
    /// press of the left button.
    pub fn press(
        &mut self,
        cell: (usize, usize),
        button: MouseButton,
        shift: bool,
        alt: bool,
        scrollbar: Option<usize>,
        since_last_ms: u128,
    ) -> (input: MouseInput)
        ensures
            button == MouseButton::Left && scrollbar is Some ==> *final(self) == (PointerState {
                scrollbar_dragging: true,
                ..*old(self)
            }) && input == (MouseInput::ScrollTo { offset: scrollbar->0 }),
            button == MouseButton::Left && scrollbar is None ==> *final(self) == (PointerState {
                dragging: true,
                last_click: Some(cell),
                click_count: old(self).presses(cell, since_last_ms),
                ..*old(self)
            }),
            button != MouseButton::Left ==> *final(self) == (PointerState {
                click_count: 1,
                ..*old(self)
            }),
            button != MouseButton::Left || scrollbar is None ==> input == (MouseInput::Press {
                col: cell.0,
                row: cell.1,
                button,
                shift,
                alt,
                count: final(self).click_count,
            }),
    {
        if button == MouseButton::Left {
            if let Some(offset) = scrollbar {
                self.scrollbar_dragging = true;
                return MouseInput::ScrollTo { offset };
            }
            self.dragging = true;
            let same_cell = match self.last_click {
                Some((col, row)) => col == cell.0 && row == cell.1,
                None => false,
            };
            self.click_count = if same_cell && since_last_ms <= MULTI_CLICK_MS {
                self.click_count.wrapping_add(1)
            } else {
                1
            };
            self.last_click = Some(cell);
        } else {
            self.click_count = 1;
        }
        MouseInput::Press {
            col: cell.0,
            row: cell.1,
            button,
            shift,
            alt,
            count: self.click_count,
        }
    }

    /// The pointer moved to a cell, at which the scrollbar has an offset.
    pub fn moved(&self, cell: (usize, usize), scrollbar_offset: usize) -> (input: Option<MouseInput>)
        ensures
            input == (if self.scrollbar_dragging {
                Some(MouseInput::ScrollTo { offset: scrollbar_offset })
            } else if self.dragging {
                Some(MouseInput::Drag { col: cell.0, row: cell.1 })
            } else {
                None
            }),
    {
        if self.scrollbar_dragging {
            Some(MouseInput::ScrollTo { offset: scrollbar_offset })
        } else if self.dragging {
            Some(MouseInput::Drag { col: cell.0, row: cell.1 })
        } else {
            None
        }
    }

    /// A button released. Only the terminal in which the press was made, or which the
    /// pointer is over, takes it.
    pub fn release(&mut self, cell: (usize, usize), button: MouseButton, over: bool) -> (input: Option<
        MouseInput,
    >)
        ensures
            ({
                let ours = old(self).dragging || old(self).scrollbar_dragging || over;
                let left = button == MouseButton::Left;
                let scrolled = left && old(self).scrollbar_dragging;
                &&& *final(self) == (if !ours || !left {
                    *old(self)
                } else if scrolled {
                    PointerState { scrollbar_dragging: false, ..*old(self) }
                } else {
                    PointerState { dragging: false, ..*old(self) }
                })
                &&& input == (if ours && !scrolled {
                    Some(MouseInput::Release { col: cell.0, row: cell.1, button })
                } else {
                    None
                })
            }),
    {
        if !self.dragging && !self.scrollbar_dragging && !over {
            return None;
        }
        if button == MouseButton::Left {
            if self.scrollbar_dragging {
                self.scrollbar_dragging = false;
                return None;
            }
            self.dragging = false;
        }
        Some(MouseInput::Release { col: cell.0, row: cell.1, button })
    }
}

/// Whether a link is at a cell.
pub open spec fn link_covers(link: Link, col: int, row: int) -> bool {
    link.line == row && link.col_start <= col < link.col_end
}

/// The first link at a cell.
pub fn link_at<'a>(links: &'a [Link], col: usize, row: usize) -> (link: Option<&'a Link>)
    ensures
        link is Some <==> exists|i: int|
            0 <= i < links@.len() && link_covers(#[trigger] links@[i], col as int, row as int),
        link matches Some(l) ==> exists|i: int|
            0 <= i < links@.len() && *l == #[trigger] links@[i] && link_covers(
                *l,
                col as int,
                row as int,
            ) && forall|k: int|
                0 <= k < i ==> !link_covers(#[trigger] links@[k], col as int, row as int),
{
    let mut i: usize = 0;
    while i < links.len()
        invariant
            i <= links@.len(),
            forall|k: int|
                0 <= k < i ==> !link_covers(#[trigger] links@[k], col as int, row as int),
        decreases links@.len() - i,
    {
        if links[i].line == row && col >= links[i].col_start && col < links[i].col_end {
            proof {
                assert(link_covers(links@[i as int], col as int, row as int));
            }
            return Some(&links[i]);
        }
        i = i + 1;
    }
    None
}

/// The columns of a line that a highlight from one column to another covers, both
/// included. It ends with the line, and starts there at the latest.
pub fn highlight_span(start: usize, end: usize, row_len: usize) -> (span: Option<(usize, usize)>)
    ensures
        ({
            let last = if row_len > 0 {
                row_len - 1
            } else {
                0
            };
            let s = if start < last {
                start as int
            } else {
                last
            };
            let e = if end < last {
                end as int
            } else {
                last
            };
            span == (if e >= s {
                Some((s as usize, e as usize))
            } else {
                None
            })
        }),
{
    let last: usize = row_len.saturating_sub(1);
    let s: usize = if start < last {
        start
    } else {
        last
    };
    let e: usize = if end < last {
        end
    } else {
        last
    };
    if e >= s {
        Some((s, e))
    } else {
        None
    }
}

/// The columns of a line that a match covers, of which `col_end` is one behind the last.
pub fn match_span(col_start: usize, col_end: usize, row_len: usize) -> (span: Option<(usize, usize)>)
    ensures
        ({
            let last = if row_len > 0 {
                row_len - 1
            } else {
                0
            };
            let end = if col_end > 0 {
                col_end - 1
            } else {
                0
            };
            let s = if col_start < last {
                col_start as int
            } else {
                last
            };
            let e = if end < last {
                end
            } else {
                last
            };
            span == (if e >= s {
                Some((s as usize, e as usize))
            } else {
                None
            })
        }),
{
    highlight_span(col_start, col_end.saturating_sub(1), row_len)
}

/// Whether a character has something to be drawn.
pub fn is_drawn(glyph: char) -> (v: bool)
    ensures
        v == (glyph != ' ' && glyph != '\0'),
{
    glyph != ' ' && glyph != '\0'
}

/// Whether the scrollbar is shown: where there is something to scroll to, always or
/// only while scrolled up.
pub fn is_scrollbar_shown(always: bool, scroll_offset: usize, scrollback_len: usize) -> (v: bool)
    ensures
        v == (scrollback_len > 0 && (always || scroll_offset > 0)),
{
    scrollback_len > 0 && (always || scroll_offset > 0)
}

/// What is written over an image: its id and its size.
pub fn image_label(id: u32, width: u32, height: u32) -> (label: String)
    ensures
        label@ == "#"@ + decimal_text(id as nat) + " ("@ + decimal_text(width as nat) + "x"@
            + decimal_text(height as nat) + ")"@,
{
    let mut label = owned("#");
    append_decimal(&mut label, id as u64);
    append_text(&mut label, " (");
    append_decimal(&mut label, width as u64);
    append_text(&mut label, "x");
    append_decimal(&mut label, height as u64);
    append_text(&mut label, ")");
    label
}

/// A press at the cell of the last one, not more than 400 milliseconds after it, counts one
/// more than that; any other press counts as the first.
pub proof fn presses_in_a_row_are_counted(m: PointerState, cell: (usize, usize), ms: u128)
    ensures
        m.last_click == Some(cell) && ms <= 400 && m.click_count < u32::MAX ==> m.presses(cell, ms)
            == m.click_count + 1,
        m.last_click == Some(cell) && ms > 400 ==> m.presses(cell, ms) == 1,
        m.last_click != Some(cell) ==> m.presses(cell, ms) == 1,
{
}

} // verus!
