//! How many columns a character takes.

use unicode_width::UnicodeWidthChar;
use vstd::prelude::*;

verus! {

/// The width that the `unicode-width` tables give a character; nothing for a
/// control character.
pub uninterp spec fn unicode_width(c: char) -> Option<usize>;

/// The most columns that a character takes.
pub const WIDEST: usize = 3;

/// `UnicodeWidthChar::width`: the tabulated width. A control character has none,
/// printable ASCII has width one, and no character has more than three.
#[verifier::external_body]
fn table_width(c: char) -> (w: Option<usize>)
    ensures
        w == unicode_width(c),
        w matches Some(n) ==> n <= WIDEST,
        ' ' <= c <= '~' ==> w == Some(1usize),
        w is None <==> ((c as u32) < 0x20 || 0x7f <= c as u32 && (c as u32) < 0xa0),
{
    c.width()
}

/// The columns that a character takes on the screen: its tabulated width, and
/// none for a control character.
pub open spec fn char_width(c: char) -> nat {
    match unicode_width(c) {
        Some(w) => w as nat,
        None => 0,
    }
}

/// The columns that `c` takes on the screen.
pub fn cached_char_width(c: char) -> (w: usize)
    ensures
        w == char_width(c),
        w <= WIDEST,
        ' ' <= c <= '~' ==> w == 1,
        (c as u32) < 0x20 ==> w == 0,
{
    match table_width(c) {
        Some(w) => w,
        None => 0,
    }
}

} // verus!
