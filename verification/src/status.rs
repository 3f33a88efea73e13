//! The texts of the status line, and what has to be looked at from time to time.

use crate::grid::TerminalGrid;
use crate::panes::SplitMode;
use crate::text::{
    after_prefix, append_chars, append_decimal, append_text, chars_of, decimal_text, owned,
    strip_prefix,
};
use vstd::prelude::*;

verus! {

/// A directory, with the home directory in front of it shortened.
pub open spec fn short_directory(cwd: Seq<char>, home: Option<Seq<char>>) -> Seq<char> {
    match home {
        Some(home) => match after_prefix(cwd, home) {
            Some(rest) => "~"@ + rest,
            None => cwd,
        },
        None => cwd,
    }
}

/// The directory as the status line shows it.
pub fn directory_text(cwd: &str, home: Option<&str>) -> (text: String)
    ensures
        text@ == short_directory(
            cwd@,
            match home {
                Some(home) => Some(home@),
                None => None,
            },
        ),
{
    let chars = chars_of(cwd);
    if let Some(home) = home {
        if let Some(rest) = strip_prefix(chars.as_slice(), home) {
            let mut text = owned("~");
            append_chars(&mut text, rest);
            return text;
        }
    }
    owned(cwd)
}

/// Two numbers with a text between them.
pub open spec fn number_pair(a: nat, between: Seq<char>, b: nat) -> Seq<char> {
    decimal_text(a) + between + decimal_text(b)
}

fn append_pair(text: &mut String, a: usize, between: &str, b: usize)
    ensures
        final(text)@ == old(text)@ + number_pair(a as nat, between@, b as nat),
{
    let ghost before = text@;
    append_decimal(text, a as u64);
    append_text(text, between);
    append_decimal(text, b as u64);
    proof {
        assert(text@ =~= before + number_pair(a as nat, between@, b as nat));
    }
}

/// The size of a terminal.
pub fn size_text(cols: usize, rows: usize) -> (text: String)
    ensures
        text@ == number_pair(cols as nat, "×"@, rows as nat),
{
    let mut text = String::new();
    append_pair(&mut text, cols, "×", rows);
    proof {
        assert(text@ =~= number_pair(cols as nat, "×"@, rows as nat));
    }
    text
}

/// The place of the cursor, counted from one.
pub fn position_text(row: usize, col: usize) -> (text: String)
    requires
        row < usize::MAX,
        col < usize::MAX,
    ensures
        text@ == number_pair((row + 1) as nat, ":"@, (col + 1) as nat),
{
    let mut text = String::new();
    append_pair(&mut text, row + 1, ":", col + 1);
    proof {
        assert(text@ =~= number_pair((row + 1) as nat, ":"@, (col + 1) as nat));
    }
    text
}

/// How far the view is scrolled back, and which screen is shown.
pub fn scroll_text(alt: bool, offset: usize, history: usize) -> (text: String)
    ensures
        text@ == (if alt {
            "alt "@
        } else {
            Seq::empty()
        }) + number_pair(offset as nat, "/"@, history as nat),
{
    let mut text = String::new();
    if alt {
        append_text(&mut text, "alt ");
        proof {
            assert(text@ =~= "alt "@);
        }
    }
    append_pair(&mut text, offset, "/", history);
    text
}

/// Which pane is focused, of how many, and whether it fills the area.
pub open spec fn split_label(mode: SplitMode, focused: int, count: int, zoomed: bool) -> Seq<char> {
    (if mode == SplitMode::Vertical {
        "│ "@
    } else {
        "─ "@
    }) + number_pair((focused + 1) as nat, "/"@, count as nat) + (if zoomed {
        " zoom"@
    } else {
        Seq::empty()
    })
}

pub fn split_text(mode: SplitMode, focused: usize, count: usize, zoomed: bool) -> (text: Option<
    String,
>)
    requires
        focused < usize::MAX,
    ensures
        text is Some <==> mode != SplitMode::Single,
        text matches Some(text) ==> text@ == split_label(
            mode,
            focused as int,
            count as int,
            zoomed,
        ),
{
    if mode == SplitMode::Single {
        return None;
    }
    let mut text = if mode == SplitMode::Vertical {
        owned("│ ")
    } else {
        owned("─ ")
    };
    append_pair(&mut text, focused + 1, "/", count);
    if zoomed {
        append_text(&mut text, " zoom");
    }
    proof {
        assert(text@ =~= split_label(mode, focused as int, count as int, zoomed));
    }
    Some(text)
}

/// Which match of a search is shown, of how many.
pub fn match_text(current: usize, count: usize) -> (text: String)
    requires
        current < usize::MAX,
    ensures
        text@ == number_pair((current + 1) as nat, "/"@, count as nat),
{
    let mut text = String::new();
    append_pair(&mut text, current + 1, "/", count);
    proof {
        assert(text@ =~= number_pair((current + 1) as nat, "/"@, count as nat));
    }
    text
}

/// Whether anything on a screen blinks.
pub fn has_blink(grid: &TerminalGrid) -> (v: bool)
    requires
        grid.wf(),
    ensures
        v == exists|r: int, c: int|
            0 <= r < grid@.lines.len() && 0 <= c < grid@.cols
                && #[trigger] grid@.lines[r][c].flags@.blink,
{
    proof {
        TerminalGrid::view_is_wf(grid);
    }
    let rows: usize = grid.rows();
    let cols: usize = grid.cols();
    let mut r: usize = 0;
    while r < rows
        invariant
            grid.wf(),
            r <= rows == grid@.lines.len(),
            cols == grid@.cols,
            forall|i: int, c: int|
                0 <= i < r && 0 <= c < cols ==> !(#[trigger] grid@.lines[i][c].flags@.blink),
        decreases rows - r,
    {
        let mut c: usize = 0;
        while c < cols
            invariant
                grid.wf(),
                r < rows == grid@.lines.len(),
                c <= cols == grid@.cols,
                forall|i: int, k: int|
                    0 <= i < r && 0 <= k < cols ==> !(#[trigger] grid@.lines[i][k].flags@.blink),
                forall|k: int|
                    0 <= k < c ==> !(#[trigger] grid@.lines[r as int][k].flags@.blink),
            decreases cols - c,
        {
            if grid.get(r, c).flags.blink() {
                proof {
                    assert(grid@.lines[r as int][c as int].flags@.blink);
                }
                return true;
            }
            c = c + 1;
        }
        r = r + 1;
    }
    false
}

/// What has to be looked at from time to time.
#[derive(Debug, Clone, Copy, PartialEq, Eq, Structural)]
pub struct Ticks {
    pub blink: bool,
    pub write: bool,
    pub search: bool,
    pub reflow: bool,
    pub toasts: bool,
}

impl crate::window::Window {
    /// What has to be looked at: the blinking of a focused window, what waits for a shell,
    /// a search whose matches may have changed, widths that have to settle, messages.
    pub fn ticks(&self, blinking: bool, writing: bool) -> (ticks: Ticks)
        ensures
            ticks == (Ticks {
                blink: self@.focused && blinking,
                write: writing,
                search: self@.desk.chrome.search_open && self@.search_dirty,
                reflow: self@.reflow.len() > 0,
                toasts: self@.toasts.len() > 0,
            }),
    {
        Ticks {
            blink: self.focused && blinking,
            write: writing,
            search: self.desk.chrome.search_open && self.search_dirty,
            reflow: self.reflow.len() > 0,
            toasts: self.toasts.toasts.len() > 0,
        }
    }
}

/// A directory below the home directory is shown behind a `~`, and any other as it is.
pub proof fn directories_are_shown_below_home(home: Seq<char>, rest: Seq<char>, other: Seq<char>)
    requires
        !home.is_prefix_of(other),
    ensures
        short_directory(home + rest, Some(home)) == seq!['~'] + rest,
        short_directory(other, Some(home)) == other,
        short_directory(other, None) == other,
{
    reveal_strlit("~");
    assert("~"@ =~= seq!['~']);
    crate::text::laws::a_prefix_is_taken_off(home, rest);
}

/// Panes are counted from one, of all of them; the sign tells panes side by side from panes
/// one above the other, and a pane that fills the window says so.
pub proof fn the_split_is_told(focused: int, count: int)
    requires
        0 <= focused < count,
    ensures
        ({
            let text = decimal_text((focused + 1) as nat) + seq!['/'] + decimal_text(count as nat);
            &&& split_label(SplitMode::Vertical, focused, count, false) == seq!['\u{2502}', ' ']
                + text
            &&& split_label(SplitMode::Horizontal, focused, count, false) == seq!['\u{2500}', ' ']
                + text
            &&& split_label(SplitMode::Vertical, focused, count, true) == seq!['\u{2502}', ' ']
                + text + seq![' ', 'z', 'o', 'o', 'm']
        }),
{
    reveal_strlit("│ ");
    reveal_strlit("─ ");
    reveal_strlit("/");
    reveal_strlit(" zoom");
    assert("│ "@ =~= seq!['\u{2502}', ' ']);
    assert("─ "@ =~= seq!['\u{2500}', ' ']);
    assert("/"@ =~= seq!['/']);
    assert(" zoom"@ =~= seq![' ', 'z', 'o', 'o', 'm']);
    let text = decimal_text((focused + 1) as nat) + seq!['/'] + decimal_text(count as nat);
    assert(seq!['\u{2502}', ' '] + text + Seq::<char>::empty() =~= seq!['\u{2502}', ' '] + text);
    assert(seq!['\u{2500}', ' '] + text + Seq::<char>::empty() =~= seq!['\u{2500}', ' '] + text);
}

} // verus!
