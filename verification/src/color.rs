//! From a cell's colours to those of a theme.

use crate::cell::{Color, TerminalCell};
use vstd::prelude::*;

verus! {

/// A colour as a theme knows it: one of its own, or a fixed one.
#[derive(Clone, Copy, Debug, PartialEq, Eq, Structural)]
pub enum PaletteColor {
    Foreground,
    Background,
    /// One of the sixteen ANSI colours.
    Ansi(usize),
    Rgb(u8, u8, u8),
}

/// A colour, at two thirds of its brightness where it is dim.
#[derive(Clone, Copy, Debug, PartialEq, Eq, Structural)]
pub struct Shade {
    pub color: PaletteColor,
    pub dim: bool,
}

/// The position of a named colour among the sixteen ANSI colours.
pub open spec fn ansi_position(color: Color) -> Option<usize> {
    match color {
        Color::Black => Some(0),
        Color::Red => Some(1),
        Color::Green => Some(2),
        Color::Yellow => Some(3),
        Color::Blue => Some(4),
        Color::Magenta => Some(5),
        Color::Cyan => Some(6),
        Color::White => Some(7),
        Color::BrightBlack => Some(8),
        Color::BrightRed => Some(9),
        Color::BrightGreen => Some(10),
        Color::BrightYellow => Some(11),
        Color::BrightBlue => Some(12),
        Color::BrightMagenta => Some(13),
        Color::BrightCyan => Some(14),
        Color::BrightWhite => Some(15),
        Color::Default | Color::Indexed(_) | Color::Rgb(_, _, _) => None,
    }
}

/// The brightness of a step of the colour cube.
pub open spec fn cube_level(step: int) -> u8 {
    if step == 0 {
        0
    } else {
        (55 + step * 40) as u8
    }
}

/// A colour of the 256: the ANSI colours, a cube of six steps each way, and greys.
pub open spec fn indexed_color(index: u8) -> PaletteColor {
    if index < 16 {
        PaletteColor::Ansi(index as usize)
    } else if index < 232 {
        let n = index - 16;
        PaletteColor::Rgb(cube_level(n / 36), cube_level((n % 36) / 6), cube_level(n % 6))
    } else {
        let gray = (8 + (index - 232) * 10) as u8;
        PaletteColor::Rgb(gray, gray, gray)
    }
}

/// A foreground colour: bold text takes the bright one of the eight normal colours.
pub open spec fn foreground_of(color: Color, bold: bool) -> PaletteColor {
    match (color, ansi_position(color)) {
        (Color::Indexed(i), _) => indexed_color(i),
        (Color::Rgb(r, g, b), _) => PaletteColor::Rgb(r, g, b),
        (_, Some(i)) => PaletteColor::Ansi(
            if bold && i < 8 {
                (i + 8) as usize
            } else {
                i
            },
        ),
        (_, None) => PaletteColor::Foreground,
    }
}

/// A background colour.
pub open spec fn background_of(color: Color) -> PaletteColor {
    match (color, ansi_position(color)) {
        (Color::Indexed(i), _) => indexed_color(i),
        (Color::Rgb(r, g, b), _) => PaletteColor::Rgb(r, g, b),
        (_, Some(i)) => PaletteColor::Ansi(i),
        (_, None) => PaletteColor::Background,
    }
}

fn ansi_index(color: Color) -> (index: Option<usize>)
    ensures
        index == ansi_position(color),
{
    match color {
        Color::Black => Some(0),
        Color::Red => Some(1),
        Color::Green => Some(2),
        Color::Yellow => Some(3),
        Color::Blue => Some(4),
        Color::Magenta => Some(5),
        Color::Cyan => Some(6),
        Color::White => Some(7),
        Color::BrightBlack => Some(8),
        Color::BrightRed => Some(9),
        Color::BrightGreen => Some(10),
        Color::BrightYellow => Some(11),
        Color::BrightBlue => Some(12),
        Color::BrightMagenta => Some(13),
        Color::BrightCyan => Some(14),
        Color::BrightWhite => Some(15),
        Color::Default | Color::Indexed(_) | Color::Rgb(_, _, _) => None,
    }
}

fn level(step: u8) -> (v: u8)
    requires
        step <= 5,
    ensures
        v == cube_level(step as int),
{
    if step == 0 {
        0
    } else {
        55 + step * 40
    }
}

/// A colour of the 256.
pub fn color_256(index: u8) -> (color: PaletteColor)
    ensures
        color == indexed_color(index),
{
    if index < 16 {
        PaletteColor::Ansi(index as usize)
    } else if index < 232 {
        let n: u8 = index - 16;
        PaletteColor::Rgb(level(n / 36), level((n % 36) / 6), level(n % 6))
    } else {
        let gray: u8 = 8 + (index - 232) * 10;
        PaletteColor::Rgb(gray, gray, gray)
    }
}

/// The colour of text.
pub fn resolve_fg(color: Color, bold: bool, dim: bool) -> (shade: Shade)
    ensures
        shade == (Shade { color: foreground_of(color, bold), dim }),
{
    let resolved = match color {
        Color::Default => PaletteColor::Foreground,
        Color::Indexed(index) => color_256(index),
        Color::Rgb(r, g, b) => PaletteColor::Rgb(r, g, b),
        _ => match ansi_index(color) {
            Some(index) => PaletteColor::Ansi(
                if bold && index < 8 {
                    index + 8
                } else {
                    index
                },
            ),
            None => PaletteColor::Foreground,
        },
    };
    Shade { color: resolved, dim }
}

/// The colour behind text.
pub fn resolve_bg(color: Color) -> (resolved: PaletteColor)
    ensures
        resolved == background_of(color),
{
    match color {
        Color::Default => PaletteColor::Background,
        Color::Indexed(index) => color_256(index),
        Color::Rgb(r, g, b) => PaletteColor::Rgb(r, g, b),
        _ => match ansi_index(color) {
            Some(index) => PaletteColor::Ansi(index),
            None => PaletteColor::Background,
        },
    }
}

/// The colours of a cell: its text and what is behind it, which change places where
/// the cell is inverse.
#[derive(Clone, Copy, Debug, PartialEq, Eq, Structural)]
pub struct CellColors {
    pub text: Shade,
    pub behind: Shade,
}

/// The colours that a cell is shown in.
pub open spec fn colors_of(cell: TerminalCell) -> CellColors {
    let fg = Shade {
        color: foreground_of(cell.foreground, cell.flags@.bold),
        dim: cell.flags@.dim,
    };
    let bg = Shade { color: background_of(cell.background), dim: false };
    if cell.flags@.inverse {
        CellColors { text: bg, behind: fg }
    } else {
        CellColors { text: fg, behind: bg }
    }
}

pub fn cell_colors(cell: &TerminalCell) -> (colors: CellColors)
    ensures
        colors == colors_of(*cell),
{
    let fg = resolve_fg(cell.foreground, cell.flags.bold(), cell.flags.dim());
    let bg = Shade { color: resolve_bg(cell.background), dim: false };
    if cell.flags.inverse() {
        CellColors { text: bg, behind: fg }
    } else {
        CellColors { text: fg, behind: bg }
    }
}

/// The colour cube counts red slowest and blue fastest, in six steps each: none, and then
/// 95, 135, 175, 215 and 255.
pub proof fn the_cube_counts_red_green_and_blue(r: u8, g: u8, b: u8)
    requires
        r < 6,
        g < 6,
        b < 6,
    ensures
        indexed_color((16 + 36 * r + 6 * g + b) as u8) == PaletteColor::Rgb(
            seq![0u8, 95, 135, 175, 215, 255][r as int],
            seq![0u8, 95, 135, 175, 215, 255][g as int],
            seq![0u8, 95, 135, 175, 215, 255][b as int],
        ),
{
    let n = 36 * r + 6 * g + b;
    assert(n / 36 == r && (n % 36) / 6 == g && n % 6 == b) by (nonlinear_arith)
        requires
            n == 36 * r + 6 * g + b,
            0 <= r < 6,
            0 <= g < 6,
            0 <= b < 6,
    ;
}

/// The last 24 colours are greys, from dark to light in steps of ten; the first sixteen are
/// those of the theme.
pub proof fn the_others_are_greys_and_the_themes(step: u8, own: u8)
    requires
        step < 24,
        own < 16,
    ensures
        indexed_color((232 + step) as u8) matches PaletteColor::Rgb(r, g, b) && r == 8 + 10 * step
            && g == r && b == r,
        indexed_color(own) == PaletteColor::Ansi(own as usize),
{
}

/// The named colours are the sixteen of the theme in their order: the bright ones come eight
/// behind the others, in text and behind it. Bold text is shown in the bright one, which
/// changes nothing of what is bright already; a fixed colour and the theme's own stay.
pub proof fn named_colors_come_in_order(bold: bool, r: u8, g: u8, b: u8)
    ensures
        ({
            let named = seq![
                Color::Black,
                Color::Red,
                Color::Green,
                Color::Yellow,
                Color::Blue,
                Color::Magenta,
                Color::Cyan,
                Color::White,
            ];
            let bright = seq![
                Color::BrightBlack,
                Color::BrightRed,
                Color::BrightGreen,
                Color::BrightYellow,
                Color::BrightBlue,
                Color::BrightMagenta,
                Color::BrightCyan,
                Color::BrightWhite,
            ];
            forall|k: int|
                0 <= k < 8 ==> {
                    &&& foreground_of(#[trigger] named[k], false) == PaletteColor::Ansi(k as usize)
                    &&& foreground_of(named[k], true) == PaletteColor::Ansi((k + 8) as usize)
                    &&& background_of(named[k]) == PaletteColor::Ansi(k as usize)
                    &&& foreground_of(bright[k], bold) == PaletteColor::Ansi((k + 8) as usize)
                    &&& background_of(bright[k]) == PaletteColor::Ansi((k + 8) as usize)
                }
        }),
        foreground_of(Color::Rgb(r, g, b), bold) == PaletteColor::Rgb(r, g, b),
        background_of(Color::Rgb(r, g, b)) == PaletteColor::Rgb(r, g, b),
        foreground_of(Color::Default, bold) == PaletteColor::Foreground,
        background_of(Color::Default) == PaletteColor::Background,
        foreground_of(Color::Indexed(r), bold) == indexed_color(r),
        background_of(Color::Indexed(r)) == indexed_color(r),
{
}

/// Two cells that differ in being inverse only are shown in the same colours, with text and
/// what is behind it exchanged. Of a cell that is not, the text is in its own foreground,
/// dim where the cell is, and what is behind it is in its background and never dim.
pub proof fn inverse_exchanges_the_colors(cell: TerminalCell, inverse: TerminalCell)
    requires
        !cell.flags@.inverse,
        inverse.flags@.inverse,
        inverse.flags@.bold == cell.flags@.bold,
        inverse.flags@.dim == cell.flags@.dim,
        inverse.foreground == cell.foreground,
        inverse.background == cell.background,
    ensures
        colors_of(inverse).text == colors_of(cell).behind,
        colors_of(inverse).behind == colors_of(cell).text,
        colors_of(cell).text.color == foreground_of(cell.foreground, cell.flags@.bold),
        colors_of(cell).text.dim == cell.flags@.dim,
        colors_of(cell).behind.color == background_of(cell.background),
        !colors_of(cell).behind.dim,
{
}

} // verus!
