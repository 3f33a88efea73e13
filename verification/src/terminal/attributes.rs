//! What control sequences do to the rendition, the modes, the scroll region, the tab stops
//! and the character sets, and the single control characters.

use super::model::{
    next_stop, next_stops, prev_stop, prev_stops, Rendition, TerminalModel,
};
use super::moves::position;
use super::rendition::{sgr_groups, sgr_groups_from};
use super::sequences::{
    is_ready, lemma_control_character, lemma_escape, lemma_numbers, lemma_params_number,
    lemma_raw_sequence, lemma_sequence, lemma_step_alone, plain_sequence, raw_sequence, sent, sequence, singles,
};
use super::types::Charset;
use crate::cell::{Color, CursorShape, Style, StyleFlags, UnderlineStyle};
use crate::text::decimal;
use vstd::prelude::*;

verus! {

/// `CSI n m`.
pub open spec fn rendered_by(m: TerminalModel, numbers: Seq<u16>) -> TerminalModel {
    sent(m, plain_sequence(numbers, 0x6d))
}

/// Whether nothing changed but the rendition of the text to come.
pub open spec fn only_rendition_changed(m: TerminalModel, r: TerminalModel) -> bool {
    r == (TerminalModel {
        current_flags: r.current_flags,
        current_fg: r.current_fg,
        current_bg: r.current_bg,
        global_bg: r.global_bg,
        ..m
    })
}

/// Whether of the rendition nothing changed but the attributes, which are now the given ones.
pub open spec fn has_attributes(m: TerminalModel, r: TerminalModel, style: Style) -> bool {
    &&& only_rendition_changed(m, r)
    &&& r.current_flags@ == style
    &&& r.current_fg == m.current_fg
    &&& r.current_bg == m.current_bg
    &&& r.global_bg == m.global_bg
}

/// Whether of the rendition nothing changed but the colour of text, which is now the given one.
pub open spec fn has_foreground(m: TerminalModel, r: TerminalModel, color: Color) -> bool {
    r == (TerminalModel { current_fg: color, ..m })
}

/// Whether of the rendition nothing changed but the colour behind text, which is now the given
/// one.
pub open spec fn has_background(m: TerminalModel, r: TerminalModel, color: Color) -> bool {
    r == (TerminalModel { current_bg: color, global_bg: r.global_bg, ..m })
}

proof fn lemma_rendered(m: TerminalModel, numbers: Seq<u16>)
    requires
        is_ready(m),
        numbers.len() <= 5,
    ensures
        rendered_by(m, numbers) == m.rendered(singles(numbers)),
{
    lemma_sequence(m, None, numbers, Seq::empty(), 0x6d);
    lemma_numbers(numbers);
    reveal(TerminalModel::csi);
    reveal(TerminalModel::csi_rendition);
}

/// A single number that is no extended colour.
proof fn lemma_single(m: TerminalModel, n: u16)
    requires
        is_ready(m),
        n != 38 && n != 48 && n != 58,
    ensures
        ({
            let r = m.rendition().rendered_simple(seq![n]);
            rendered_by(m, seq![n]) == (TerminalModel {
                current_flags: r.flags,
                current_fg: r.fg,
                current_bg: r.bg,
                global_bg: r.global_bg,
                ..m
            })
        }),
{
    lemma_rendered(m, seq![n]);
    reveal(TerminalModel::rendered);
    let groups = singles(seq![n]);
    assert(groups =~= seq![seq![n]]);
    reveal_with_fuel(Rendition::rendered_from, 3);
}

/// Each attribute has its number, which sets that attribute and no other; most have a number
/// that takes it back. Colours do not change with them.
#[verifier::spinoff_prover]
#[verifier::rlimit(40)]
pub proof fn attributes_have_their_numbers(m: TerminalModel)
    requires
        is_ready(m),
    ensures
        ({
            let style = m.current_flags@;
            &&& has_attributes(m, rendered_by(m, seq![1]), Style { bold: true, ..style })
            &&& has_attributes(m, rendered_by(m, seq![2]), Style { dim: true, ..style })
            &&& has_attributes(m, rendered_by(m, seq![3]), Style { italic: true, ..style })
            &&& has_attributes(m, rendered_by(m, seq![4]), Style { underline: UnderlineStyle::Single, ..style })
            &&& has_attributes(m, rendered_by(m, seq![5]), Style { blink: true, ..style })
            &&& has_attributes(m, rendered_by(m, seq![7]), Style { inverse: true, ..style })
            &&& has_attributes(m, rendered_by(m, seq![9]), Style { strikethrough: true, ..style })
            &&& has_attributes(m, rendered_by(m, seq![21]), Style { underline: UnderlineStyle::Double, ..style })
            &&& has_attributes(m, rendered_by(m, seq![23]), Style { italic: false, ..style })
            &&& has_attributes(m, rendered_by(m, seq![24]), Style { underline: UnderlineStyle::Off, ..style })
            &&& has_attributes(m, rendered_by(m, seq![25]), Style { blink: false, ..style })
            &&& has_attributes(m, rendered_by(m, seq![27]), Style { inverse: false, ..style })
            &&& has_attributes(m, rendered_by(m, seq![29]), Style { strikethrough: false, ..style })
            &&& has_attributes(
                m,
                rendered_by(m, seq![22]),
                Style { bold: false, dim: false, ..style },
            )
        }),
{
    m.current_flags.setting_an_attribute_changes_only_it(true, UnderlineStyle::Single);
    m.current_flags.setting_an_attribute_changes_only_it(false, UnderlineStyle::Double);
    m.current_flags.setting_an_attribute_changes_only_it(false, UnderlineStyle::Off);
    m.current_flags.with_bold(false).setting_an_attribute_changes_only_it(
        false,
        UnderlineStyle::Off,
    );
    lemma_single(m, 1);
    lemma_single(m, 2);
    lemma_single(m, 3);
    lemma_single(m, 4);
    lemma_single(m, 5);
    lemma_single(m, 7);
    lemma_single(m, 9);
    lemma_single(m, 21);
    lemma_single(m, 23);
    lemma_single(m, 24);
    lemma_single(m, 25);
    lemma_single(m, 27);
    lemma_single(m, 29);
    lemma_single(m, 22);
}

/// Without a number, or with zero, all attributes and both colours are as at the start.
pub proof fn a_reset_rendition_is_plain(m: TerminalModel)
    requires
        is_ready(m),
    ensures
        ({
            let r = rendered_by(m, seq![0]);
            &&& rendered_by(m, Seq::empty()) == r
            &&& only_rendition_changed(m, r)
            &&& r.current_flags@ == Style::plain()
            &&& r.current_fg == Color::Default
            &&& r.current_bg == Color::Default
        }),
{
    StyleFlags::none_is_plain();
    lemma_single(m, 0);
    lemma_rendered(m, Seq::empty());
    lemma_rendered(m, seq![0]);
    assert(singles(Seq::<u16>::empty()) =~= singles(seq![0u16]));
}

/// The eight colours by their numbers: black, red, green, yellow, blue, magenta, cyan and
/// white from 30 on for text and from 40 on behind it; their bright forms from 90 and 100
/// on; 39 and 49 are the default colours.
pub proof fn colors_have_their_numbers(m: TerminalModel, k: u16)
    requires
        is_ready(m),
        k < 8,
    ensures
        ({
            let normal = seq![
                Color::Black,
                Color::Red,
                Color::Green,
                Color::Yellow,
                Color::Blue,
                Color::Magenta,
                Color::Cyan,
                Color::White,
            ];
            let bright = seq![
                Color::BrightBlack,
                Color::BrightRed,
                Color::BrightGreen,
                Color::BrightYellow,
                Color::BrightBlue,
                Color::BrightMagenta,
                Color::BrightCyan,
                Color::BrightWhite,
            ];
            &&& has_foreground(m, rendered_by(m, seq![(30 + k) as u16]), normal[k as int])
            &&& has_foreground(m, rendered_by(m, seq![(90 + k) as u16]), bright[k as int])
            &&& has_background(m, rendered_by(m, seq![(40 + k) as u16]), normal[k as int])
            &&& has_background(m, rendered_by(m, seq![(100 + k) as u16]), bright[k as int])
            &&& has_foreground(m, rendered_by(m, seq![39]), Color::Default)
            &&& has_background(m, rendered_by(m, seq![49]), Color::Default)
        }),
{
    lemma_single(m, (30 + k) as u16);
    lemma_single(m, (90 + k) as u16);
    lemma_single(m, (40 + k) as u16);
    lemma_single(m, (100 + k) as u16);
    lemma_single(m, 39);
    lemma_single(m, 49);
}

/// One of the 256 colours (`38 ; 5 ; n`), and a colour by its red, green and blue
/// (`38 ; 2 ; r ; g ; b`), for text; with 48 the same behind it.
#[verifier::spinoff_prover]
pub proof fn extended_colors_are_given_by_numbers(m: TerminalModel, r: u8, g: u8, b: u8)
    requires
        is_ready(m),
    ensures
        has_foreground(m, rendered_by(m, seq![38, 5, r as u16]), Color::Indexed(r)),
        has_background(m, rendered_by(m, seq![48, 5, r as u16]), Color::Indexed(r)),
        has_foreground(
            m,
            rendered_by(m, seq![38, 2, r as u16, g as u16, b as u16]),
            Color::Rgb(r, g, b),
        ),
        has_background(
            m,
            rendered_by(m, seq![48, 2, r as u16, g as u16, b as u16]),
            Color::Rgb(r, g, b),
        ),
{
    lemma_extended(m, 38, r, g, b);
    lemma_extended(m, 48, r, g, b);
}

proof fn lemma_extended(m: TerminalModel, n: u16, r: u8, g: u8, b: u8)
    requires
        is_ready(m),
        n == 38 || n == 48,
    ensures
        ({
            let one = m.rendition();
            let indexed = if n == 38 {
                one.with_fg(Color::Indexed(r))
            } else {
                one.with_bg(Color::Indexed(r))
            };
            let direct = if n == 38 {
                one.with_fg(Color::Rgb(r, g, b))
            } else {
                one.with_bg(Color::Rgb(r, g, b))
            };
            &&& rendered_by(m, seq![n, 5, r as u16]) == (TerminalModel {
                current_flags: indexed.flags,
                current_fg: indexed.fg,
                current_bg: indexed.bg,
                global_bg: indexed.global_bg,
                ..m
            })
            &&& rendered_by(m, seq![n, 2, r as u16, g as u16, b as u16]) == (TerminalModel {
                current_flags: direct.flags,
                current_fg: direct.fg,
                current_bg: direct.bg,
                global_bg: direct.global_bg,
                ..m
            })
        }),
{
    lemma_rendered(m, seq![n, 5, r as u16]);
    lemma_rendered(m, seq![n, 2, r as u16, g as u16, b as u16]);
    reveal(TerminalModel::rendered);
    let three = singles(seq![n, 5, r as u16]);
    let five = singles(seq![n, 2, r as u16, g as u16, b as u16]);
    assert(three[0] == seq![n] && three[1] == seq![5u16] && three[2] == seq![r as u16]);
    assert(five[0] == seq![n] && five[1] == seq![2u16] && five[2] == seq![r as u16] && five[3]
        == seq![g as u16] && five[4] == seq![b as u16]);
    assert((r as u16 % 256) as u8 == r && (g as u16 % 256) as u8 == g && (b as u16 % 256) as u8
        == b);
    reveal_with_fuel(Rendition::rendered_from, 2);
}

/// Numbers in one sequence do what they do in sequences of their own, one after the other.
/// (A number that starts an extended colour is not meant.)
pub proof fn numbers_are_rendered_one_by_one(m: TerminalModel, a: u16, b: u16)
    requires
        is_ready(m),
        a != 38 && a != 48 && a != 58,
        b != 38 && b != 48 && b != 58,
    ensures
        rendered_by(m, seq![a, b]) == rendered_by(rendered_by(m, seq![a]), seq![b]),
{
    lemma_rendered(m, seq![a, b]);
    lemma_single(m, a);
    lemma_single(rendered_by(m, seq![a]), b);
    reveal(TerminalModel::rendered);
    let groups = singles(seq![a, b]);
    assert(groups[0] == seq![a] && groups[1] == seq![b]);
    reveal_with_fuel(Rendition::rendered_from, 4);
}

/// `4 : n` chooses the kind of underline: none, single, double, curly, dotted or dashed.
pub proof fn underlines_have_their_kinds(m: TerminalModel, k: u8)
    requires
        is_ready(m),
        k <= 5,
    ensures
        ({
            let kinds = seq![
                UnderlineStyle::Off,
                UnderlineStyle::Single,
                UnderlineStyle::Double,
                UnderlineStyle::Curly,
                UnderlineStyle::Dotted,
                UnderlineStyle::Dashed,
            ];
            has_attributes(
                m,
                sent(m, seq![0x1bu8, 0x5b, 0x34, 0x3a, (0x30 + k) as u8, 0x6d]),
                Style { underline: kinds[k as int], ..m.current_flags@ },
            )
        }),
{
    let text = seq![0x34u8, 0x3a, (0x30 + k) as u8];
    let e = Seq::<u8>::empty();
    assert(raw_sequence(None, text, e, 0x6d) =~= seq![0x1bu8, 0x5b, 0x34, 0x3a, (0x30 + k) as u8, 0x6d]);
    lemma_raw_sequence(m, None, text, e, 0x6d);
    reveal(TerminalModel::csi);
    reveal(TerminalModel::csi_rendition);
    reveal(TerminalModel::rendered);
    lemma_sub_parameter(k);
    reveal_with_fuel(Rendition::rendered_from, 3);
    m.current_flags.setting_an_attribute_changes_only_it(true, UnderlineStyle::Off);
    m.current_flags.setting_an_attribute_changes_only_it(true, UnderlineStyle::Single);
    m.current_flags.setting_an_attribute_changes_only_it(true, UnderlineStyle::Double);
    m.current_flags.setting_an_attribute_changes_only_it(true, UnderlineStyle::Curly);
    m.current_flags.setting_an_attribute_changes_only_it(true, UnderlineStyle::Dotted);
    m.current_flags.setting_an_attribute_changes_only_it(true, UnderlineStyle::Dashed);
}

proof fn lemma_sub_parameter(k: u8)
    requires
        k <= 5,
    ensures
        sgr_groups(seq![0x34u8, 0x3a, (0x30 + k) as u8]) == seq![seq![4u16, k as u16]],
{
    reveal_with_fuel(super::rendition::sgr_groups_from, 4);
    let a = seq![0x34u8, 0x3a, (0x30 + k) as u8];
    let b = a.drop_first();
    let c = b.drop_first();
    assert(b =~= seq![0x3au8, (0x30 + k) as u8]);
    assert(c =~= seq![(0x30 + k) as u8]);
    assert(c.drop_first() =~= Seq::<u8>::empty());
    assert(Seq::<u16>::empty().push(4).push(k as u16) =~= seq![4u16, k as u16]);
}

/// `CSI t ; b r` makes the lines from `t` to `b`, counted from one, the scroll region, where
/// there are such lines and `t` does not come after `b`; otherwise, and without numbers, the
/// region is the whole screen. The cursor goes to the top left, and nothing else changes.
pub proof fn the_region_is_given_by_its_lines(m: TerminalModel, top: u16, bottom: u16)
    requires
        m.wf(),
        is_ready(m),
    ensures
        ({
            let r = sent(m, plain_sequence(seq![top, bottom], 0x72));
            let all = sent(m, plain_sequence(Seq::empty(), 0x72));
            let ordered = position(top, m.rows()) <= position(bottom, m.rows());
            &&& r == (TerminalModel {
                scroll_region_top: r.scroll_region_top,
                scroll_region_bottom: r.scroll_region_bottom,
                cursor_row: 0,
                cursor_col: 0,
                ..m
            })
            &&& ordered ==> r.scroll_region_top == position(top, m.rows()) && r.scroll_region_bottom
                == position(bottom, m.rows())
            &&& !ordered ==> r == all
            &&& all == (TerminalModel {
                scroll_region_top: 0,
                scroll_region_bottom: m.rows() - 1,
                cursor_row: 0,
                cursor_col: 0,
                ..m
            })
        }),
{
    lemma_sequence(m, None, seq![top, bottom], Seq::empty(), 0x72);
    lemma_sequence(m, None, Seq::empty(), Seq::empty(), 0x72);
    reveal(TerminalModel::csi);
    reveal(TerminalModel::csi_region);
}

/// `CSI ? n h` sets a mode that is kept and `CSI ? n l` resets it, and nothing else changes:
/// but for the modes of the alternate screen, of the saved cursor and of synchronized
/// output. `CSI 4 h` and `CSI 4 l` do so for insert mode.
pub proof fn modes_are_switched(m: TerminalModel, mode: u16)
    requires
        is_ready(m),
    ensures
        ({
            let on = sent(m, sequence(Some(0x3f), seq![mode], Seq::empty(), 0x68));
            let off = sent(m, sequence(Some(0x3f), seq![mode], Seq::empty(), 0x6c));
            let plain = mode == 1 || mode == 6 || mode == 7 || mode == 25 || 1000 <= mode <= 1006
                || mode == 1015 || mode == 2004 || mode == 2031 || mode == 5522;
            plain ==> on == (TerminalModel { modes: m.modes.insert(mode), ..m }) && off == (
            TerminalModel { modes: m.modes.remove(mode), ..m })
        }),
        sent(m, plain_sequence(seq![4], 0x68)) == (TerminalModel { modes: m.modes.insert(4), ..m }),
        sent(m, plain_sequence(seq![4], 0x6c)) == (TerminalModel { modes: m.modes.remove(4), ..m }),
        mode != 4 ==> sent(m, plain_sequence(seq![mode], 0x68)) == m && sent(
            m,
            plain_sequence(seq![mode], 0x6c),
        ) == m,
        ({
            let on = sent(m, sequence(Some(0x3f), seq![2026], Seq::empty(), 0x68));
            let off = sent(m, sequence(Some(0x3f), seq![2026], Seq::empty(), 0x6c));
            &&& on == (TerminalModel {
                sync_output_active: true,
                modes: m.modes.insert(2026),
                ..m
            })
            &&& !off.sync_output_active
            &&& !off.has(2026)
            &&& off.grid == m.grid
        }),
{
    let e = Seq::<u8>::empty();
    lemma_sequence(m, Some(0x3f), seq![mode], e, 0x68);
    lemma_sequence(m, Some(0x3f), seq![mode], e, 0x6c);
    lemma_sequence(m, None, seq![4], e, 0x68);
    lemma_sequence(m, None, seq![4], e, 0x6c);
    lemma_sequence(m, None, seq![mode], e, 0x68);
    lemma_sequence(m, None, seq![mode], e, 0x6c);
    lemma_sequence(m, Some(0x3f), seq![2026], e, 0x68);
    lemma_sequence(m, Some(0x3f), seq![2026], e, 0x6c);
    reveal(TerminalModel::csi);
    reveal(TerminalModel::mode_set);
    reveal(TerminalModel::mode_reset);
    reveal(TerminalModel::sync_output_ended);
    reveal_with_fuel(TerminalModel::modes_set, 2);
    reveal_with_fuel(TerminalModel::modes_reset, 2);
    assert(seq![mode].drop_last() =~= Seq::<u16>::empty());
    assert(seq![4u16].drop_last() =~= Seq::<u16>::empty());
    assert(seq![2026u16].drop_last() =~= Seq::<u16>::empty());
}

/// The shapes of the cursor: 2 is an underline, 3 a beam, and 0 and 1 a block; nothing else
/// changes.
pub proof fn cursor_shapes_have_their_numbers(m: TerminalModel)
    requires
        is_ready(m),
    ensures
        sent(m, sequence(None, seq![0], seq![0x20], 0x71)) == (TerminalModel {
            cursor_shape: CursorShape::Block,
            ..m
        }),
        sent(m, sequence(None, seq![1], seq![0x20], 0x71)) == (TerminalModel {
            cursor_shape: CursorShape::Block,
            ..m
        }),
        sent(m, sequence(None, seq![2], seq![0x20], 0x71)) == (TerminalModel {
            cursor_shape: CursorShape::Underline,
            ..m
        }),
        sent(m, sequence(None, seq![3], seq![0x20], 0x71)) == (TerminalModel {
            cursor_shape: CursorShape::Beam,
            ..m
        }),
{
    lemma_sequence(m, None, seq![0], seq![0x20], 0x71);
    lemma_sequence(m, None, seq![1], seq![0x20], 0x71);
    lemma_sequence(m, None, seq![2], seq![0x20], 0x71);
    lemma_sequence(m, None, seq![3], seq![0x20], 0x71);
    reveal(TerminalModel::csi);
    reveal(TerminalModel::csi_shape);
}

/// A carriage return goes to the first column, a backspace one column left but not before
/// the first, and a bell does nothing.
pub proof fn control_characters_move_the_cursor(m: TerminalModel)
    requires
        m.wf(),
        is_ready(m),
    ensures
        sent(m, seq![0x0du8]) == (TerminalModel { cursor_col: 0, ..m }),
        m.cursor_col > 0 ==> sent(m, seq![0x08u8]) == (TerminalModel {
            cursor_col: m.cursor_col - 1,
            ..m
        }),
        m.cursor_col == 0 ==> sent(m, seq![0x08u8]) == m,
        sent(m, seq![0x07u8]) == m,
{
    lemma_control_character(m, 0x0d);
    lemma_control_character(m, 0x08);
    lemma_control_character(m, 0x07);
    reveal(TerminalModel::step);
    reveal(TerminalModel::with_col);
}

/// A linefeed goes one line down in its column. On the bottom line of the scroll region the
/// region scrolls up instead, and on the last line below the region nothing happens. An
/// index (`ESC D`) does so too within the region, and `ESC E` goes to the first column
/// besides.
pub proof fn a_linefeed_goes_down(m: TerminalModel)
    requires
        m.wf(),
        is_ready(m),
    ensures
        ({
            let r = sent(m, seq![0x0au8]);
            let scrolled = sent(m, plain_sequence(seq![1], 0x53));
            &&& m.cursor_row == m.scroll_region_bottom ==> r == scrolled
            &&& m.cursor_row != m.scroll_region_bottom && m.cursor_row + 1 < m.rows() ==> r == (
            TerminalModel { cursor_row: m.cursor_row + 1, ..m })
            &&& m.cursor_row != m.scroll_region_bottom && m.cursor_row + 1 == m.rows() ==> r == m
            &&& m.cursor_row <= m.scroll_region_bottom ==> sent(m, seq![0x1bu8, 0x44]) == r
            &&& sent(m, seq![0x1bu8, 0x45]) == sent(TerminalModel { cursor_col: 0, ..m }, seq![
                0x0au8,
            ])
        }),
{
    let left = TerminalModel { cursor_col: 0, ..m };
    lemma_control_character(m, 0x0a);
    lemma_control_character(left, 0x0a);
    lemma_escape(m, 0x44);
    lemma_escape(m, 0x45);
    lemma_sequence(m, None, seq![1], Seq::empty(), 0x53);
    reveal(TerminalModel::csi);
    reveal(TerminalModel::step);
    reveal(TerminalModel::escape_step);
    reveal(TerminalModel::indexed);
    reveal(TerminalModel::with_col);
    reveal_with_fuel(TerminalModel::region_up_times, 2);
}

/// A reverse index (`ESC M`) goes one line up in its column; on the top line of the scroll
/// region, or above it, the region scrolls down instead.
pub proof fn a_reverse_index_goes_up(m: TerminalModel)
    requires
        m.wf(),
        is_ready(m),
    ensures
        ({
            let r = sent(m, seq![0x1bu8, 0x4d]);
            &&& m.cursor_row > m.scroll_region_top ==> r == (TerminalModel {
                cursor_row: m.cursor_row - 1,
                ..m
            })
            &&& m.cursor_row <= m.scroll_region_top ==> r == sent(
                m,
                plain_sequence(seq![1], 0x54),
            )
        }),
{
    lemma_escape(m, 0x4d);
    lemma_sequence(m, None, seq![1], Seq::empty(), 0x54);
    reveal(TerminalModel::csi);
    reveal(TerminalModel::escape_step);
    reveal(TerminalModel::reverse_indexed);
    reveal_with_fuel(TerminalModel::region_down_times, 2);
}

/// The cursor is saved by `ESC 7`, `CSI s` and `CSI ? 1048 h` alike, and brought back by
/// `ESC 8` and `CSI u`: with its place, rendition, character sets and origin mode, and with
/// nothing else changed.
pub proof fn the_cursor_is_saved_and_brought_back(m: TerminalModel)
    requires
        m.wf(),
        is_ready(m),
        m.cursor_col < m.cols(),
    ensures
        ({
            let saved = sent(m, seq![0x1bu8, 0x37]);
            &&& saved == (TerminalModel { saved_cursor: saved.saved_cursor, ..m })
            &&& sent(m, plain_sequence(Seq::empty(), 0x73)) == saved
            &&& sent(m, sequence(Some(0x3f), seq![1048], Seq::empty(), 0x68)) == saved
            &&& sent(saved, seq![0x1bu8, 0x38]) == saved
            &&& sent(saved, plain_sequence(Seq::empty(), 0x75)) == saved
            &&& forall|row: int, col: int, fg: Color, bg: Color, flags: StyleFlags|
                {
                    let moved = TerminalModel {
                        cursor_row: row,
                        cursor_col: col,
                        current_fg: fg,
                        current_bg: bg,
                        current_flags: flags,
                        ..saved
                    };
                    #[trigger] moved_to(saved, row, col, fg, bg, flags) == moved && sent(
                        moved,
                        seq![0x1bu8, 0x38],
                    ) == saved
                }
        }),
{
    lemma_escape(m, 0x37);
    let saved = sent(m, seq![0x1bu8, 0x37]);
    reveal(TerminalModel::escape_step);
    reveal(TerminalModel::cursor_saved);
    reveal(TerminalModel::cursor_restored);
    lemma_sequence(m, None, Seq::empty(), Seq::empty(), 0x73);
    lemma_sequence(m, Some(0x3f), seq![1048], Seq::empty(), 0x68);
    lemma_sequence(saved, None, Seq::empty(), Seq::empty(), 0x75);
    lemma_escape(saved, 0x38);
    reveal(TerminalModel::csi);
    reveal(TerminalModel::csi_keyboard);
    reveal(TerminalModel::mode_set);
    reveal_with_fuel(TerminalModel::modes_set, 2);
    assert(seq![1048u16].drop_last() =~= Seq::<u16>::empty());
    assert(m.modes.insert(6).remove(6) =~= m.modes.remove(6));
    if m.has(6) {
        assert(m.modes.insert(6) =~= m.modes);
    } else {
        assert(m.modes.remove(6) =~= m.modes);
    }
    assert forall|row: int, col: int, fg: Color, bg: Color, flags: StyleFlags| {
        let moved = TerminalModel {
            cursor_row: row,
            cursor_col: col,
            current_fg: fg,
            current_bg: bg,
            current_flags: flags,
            ..saved
        };
        #[trigger] moved_to(saved, row, col, fg, bg, flags) == moved && sent(
            moved,
            seq![0x1bu8, 0x38],
        ) == saved
    } by {
        lemma_escape(moved_to(saved, row, col, fg, bg, flags), 0x38);
    }
}

/// A terminal with the cursor elsewhere and another rendition.
pub open spec fn moved_to(
    m: TerminalModel,
    row: int,
    col: int,
    fg: Color,
    bg: Color,
    flags: StyleFlags,
) -> TerminalModel {
    TerminalModel {
        cursor_row: row,
        cursor_col: col,
        current_fg: fg,
        current_bg: bg,
        current_flags: flags,
        ..m
    }
}

proof fn lemma_next_stop(stops: Seq<bool>, col: int)
    requires
        stops.len() > 0,
        0 <= col,
    ensures
        ({
            let to = next_stop(stops, col);
            &&& 0 <= to < stops.len()
            &&& col + 1 < stops.len() ==> col < to && (stops[to] || to == stops.len() - 1)
            &&& forall|c: int| col < c < to ==> !#[trigger] stops[c]
            &&& col + 1 >= stops.len() ==> to == stops.len() - 1
        }),
    decreases stops.len() - col,
{
    if col + 1 < stops.len() && !stops[col + 1] {
        lemma_next_stop(stops, col + 1);
    }
}

proof fn lemma_prev_stop(stops: Seq<bool>, col: int)
    requires
        0 <= col,
    ensures
        ({
            let to = prev_stop(stops, col);
            &&& 0 <= to <= col
            &&& col > 0 ==> to < col
            &&& to > 0 ==> to < stops.len() && stops[to]
            &&& forall|c: int| to < c < col && c < stops.len() ==> !#[trigger] stops[c]
        }),
    decreases col,
{
    if col > 0 && !(col - 1 < stops.len() && stops[col - 1]) {
        lemma_prev_stop(stops, col - 1);
    }
}

/// A tab goes to the next tab stop of the line, or to its last column where there is none,
/// and `CSI Z` back to the one before, or to the first column: no stop is passed over, and
/// nothing else changes. `CSI n I` and `CSI n Z` do so `n` times.
#[verifier::spinoff_prover]
pub proof fn tabs_go_from_stop_to_stop(m: TerminalModel, n: u16)
    requires
        m.wf(),
        is_ready(m),
        0 < n < 65535,
    ensures
        ({
            let tab = sent(m, seq![0x09u8]);
            let to = tab.cursor_col;
            &&& tab == (TerminalModel { cursor_col: to, ..m })
            &&& m.cursor_col + 1 < m.cols() ==> m.cursor_col < to < m.cols() && (m.tab_stops[to]
                || to == m.cols() - 1)
            &&& m.cursor_col + 1 >= m.cols() ==> to == m.cols() - 1
            &&& forall|c: int| m.cursor_col < c < to ==> !#[trigger] m.tab_stops[c]
            &&& sent(m, plain_sequence(seq![1], 0x49)) == tab
        }),
        ({
            let back = sent(m, plain_sequence(seq![1], 0x5a));
            let to = back.cursor_col;
            &&& back == (TerminalModel { cursor_col: to, ..m })
            &&& 0 <= to <= m.cursor_col
            &&& m.cursor_col > 0 ==> to < m.cursor_col
            &&& to > 0 ==> m.tab_stops[to]
            &&& forall|c: int|
                to < c < m.cursor_col && c < m.cols() ==> !#[trigger] m.tab_stops[c]
        }),
        sent(m, plain_sequence(seq![(n + 1) as u16], 0x49)) == sent(
            sent(m, plain_sequence(seq![n], 0x49)),
            plain_sequence(seq![1], 0x49),
        ),
        sent(m, plain_sequence(seq![(n + 1) as u16], 0x5a)) == sent(
            sent(m, plain_sequence(seq![n], 0x5a)),
            plain_sequence(seq![1], 0x5a),
        ),
{
    let e = Seq::<u8>::empty();
    lemma_control_character(m, 0x09);
    lemma_sequence(m, None, seq![1], e, 0x49);
    lemma_sequence(m, None, seq![1], e, 0x5a);
    lemma_sequence(m, None, seq![n], e, 0x49);
    lemma_sequence(m, None, seq![n], e, 0x5a);
    lemma_sequence(m, None, seq![(n + 1) as u16], e, 0x49);
    lemma_sequence(m, None, seq![(n + 1) as u16], e, 0x5a);
    reveal(TerminalModel::csi);
    reveal(TerminalModel::csi_move);
    reveal(TerminalModel::with_col);
    reveal(TerminalModel::step);
    let there = sent(m, plain_sequence(seq![n], 0x49));
    let here = sent(m, plain_sequence(seq![n], 0x5a));
    lemma_sequence(there, None, seq![1], e, 0x49);
    lemma_sequence(here, None, seq![1], e, 0x5a);
    lemma_next_stop(m.tab_stops, m.cursor_col);
    lemma_prev_stop(m.tab_stops, m.cursor_col);
    reveal_with_fuel(next_stops, 2);
    reveal_with_fuel(prev_stops, 2);
    lemma_stops_add(m.tab_stops, m.cursor_col, n as nat);
}

proof fn lemma_stops_add(stops: Seq<bool>, col: int, n: nat)
    ensures
        next_stops(stops, col, n + 1) == next_stop(stops, next_stops(stops, col, n)),
        prev_stops(stops, col, n + 1) == prev_stop(stops, prev_stops(stops, col, n)),
    decreases n,
{
    reveal_with_fuel(next_stops, 2);
    reveal_with_fuel(prev_stops, 2);
    if n > 0 {
        lemma_stops_add(stops, next_stop(stops, col), (n - 1) as nat);
        lemma_stops_add(stops, prev_stop(stops, col), (n - 1) as nat);
    }
}

/// `ESC H` sets a tab stop at the cursor, `CSI g` takes it away and `CSI 3 g` takes all
/// away; no other stop changes.
pub proof fn tab_stops_are_set_and_cleared(m: TerminalModel, c: int)
    requires
        m.wf(),
        is_ready(m),
        m.cursor_col < m.cols(),
        0 <= c < m.cols(),
    ensures
        ({
            let set = sent(m, seq![0x1bu8, 0x48]);
            let cleared = sent(m, plain_sequence(seq![0], 0x67));
            let none = sent(m, plain_sequence(seq![3], 0x67));
            &&& set == (TerminalModel { tab_stops: set.tab_stops, ..m })
            &&& cleared == (TerminalModel { tab_stops: cleared.tab_stops, ..m })
            &&& none == (TerminalModel { tab_stops: none.tab_stops, ..m })
            &&& set.tab_stops[c] == (m.tab_stops[c] || c == m.cursor_col)
            &&& cleared.tab_stops[c] == (m.tab_stops[c] && c != m.cursor_col)
            &&& !none.tab_stops[c]
        }),
        TerminalModel::initial(m.cols(), m.rows()).tab_stops[c] <==> c % 8 == 0 && c > 0,
{
    lemma_escape(m, 0x48);
    lemma_sequence(m, None, seq![0], Seq::empty(), 0x67);
    lemma_sequence(m, None, seq![3], Seq::empty(), 0x67);
    reveal(TerminalModel::csi);
    reveal(TerminalModel::csi_clear_tabs);
    reveal(TerminalModel::escape_step);
    reveal(TerminalModel::tab_stop_at_cursor);
}

/// `ESC ( 0` makes line drawing the first character set and the one in use, and `ESC ( B`
/// brings back ASCII; `ESC ) 0` does so for the second set, which a shift out puts in use
/// and a shift in takes out of use.
pub proof fn character_sets_are_chosen(m: TerminalModel)
    requires
        is_ready(m),
    ensures
        sent(m, seq![0x1bu8, 0x28, 0x30]) == (TerminalModel {
            g0_charset: Charset::DecSpecialGraphics,
            active_charset: Charset::DecSpecialGraphics,
            ..m
        }),
        sent(m, seq![0x1bu8, 0x28, 0x42]) == (TerminalModel {
            g0_charset: Charset::Ascii,
            active_charset: Charset::Ascii,
            ..m
        }),
        sent(m, seq![0x1bu8, 0x29, 0x30]) == (TerminalModel {
            g1_charset: Charset::DecSpecialGraphics,
            ..m
        }),
        sent(m, seq![0x0eu8]) == (TerminalModel { active_charset: m.g1_charset, ..m }),
        sent(m, seq![0x0fu8]) == (TerminalModel { active_charset: m.g0_charset, ..m }),
{
    lemma_control_character(m, 0x0e);
    lemma_control_character(m, 0x0f);
    reveal(TerminalModel::step);
    reveal(TerminalModel::escape_step);
    reveal(TerminalModel::charset_selected);
    reveal(TerminalModel::with_active);
    lemma_step_alone(m, seq![0x1bu8, 0x28, 0x30]);
    lemma_step_alone(m, seq![0x1bu8, 0x28, 0x42]);
    lemma_step_alone(m, seq![0x1bu8, 0x29, 0x30]);
}

/// An extended colour may also be written with colons between its numbers: one of the 256
/// (`38 : 5 : n`), or its red, green and blue (`38 : 2 : r : g : b`).
#[verifier::spinoff_prover]
#[verifier::rlimit(60)]
pub proof fn extended_colors_may_have_colons(m: TerminalModel, r: u8, g: u8, b: u8)
    requires
        is_ready(m),
    ensures
        ({
            let colon = seq![0x3au8];
            let number = |n: int| decimal(n as nat);
            let one = number(38) + (colon + (number(5) + (colon + number(r as int))));
            let three = number(38) + (colon + (number(2) + (colon + (number(r as int) + (colon + (
            number(g as int) + (colon + number(b as int))))))));
            &&& has_foreground(
                m,
                sent(m, raw_sequence(None, one, Seq::empty(), 0x6d)),
                Color::Indexed(r),
            )
            &&& has_foreground(
                m,
                sent(m, raw_sequence(None, three, Seq::empty(), 0x6d)),
                Color::Rgb(r, g, b),
            )
        }),
{
    let colon = seq![0x3au8];
    let e = Seq::<u8>::empty();
    let br = decimal(b as nat);
    let gr = decimal(g as nat) + (colon + br);
    let rr = decimal(r as nat) + (colon + gr);
    let two = decimal(2) + (colon + rr);
    let three = decimal(38) + (colon + two);
    let five = decimal(5) + (colon + decimal(r as nat));
    let one = decimal(38) + (colon + five);
    let g0 = Seq::<u16>::empty();
    let g1 = g0.push(38);
    lemma_colon(38, five, g0);
    lemma_colon(5, decimal(r as nat), g1);
    lemma_last(r as u16, g1.push(5));
    assert(g1.push(5).push(r as u16) =~= seq![38u16, 5, r as u16]);
    assert(sgr_groups(one) == seq![seq![38u16, 5, r as u16]]);
    lemma_colon(38, two, g0);
    lemma_colon(2, rr, g1);
    lemma_colon(r as u16, gr, g1.push(2));
    lemma_colon(g as u16, br, g1.push(2).push(r as u16));
    lemma_last(b as u16, g1.push(2).push(r as u16).push(g as u16));
    assert(g1.push(2).push(r as u16).push(g as u16).push(b as u16) =~= seq![
        38u16,
        2,
        r as u16,
        g as u16,
        b as u16,
    ]);
    assert(sgr_groups(three) == seq![seq![38u16, 2, r as u16, g as u16, b as u16]]);
    lemma_byte_digits(r);
    lemma_byte_digits(g);
    lemma_byte_digits(b);
    reveal_with_fuel(decimal, 3);
    lemma_raw_sequence(m, None, one, e, 0x6d);
    lemma_raw_sequence(m, None, three, e, 0x6d);
    reveal(TerminalModel::csi);
    reveal(TerminalModel::csi_rendition);
    reveal(TerminalModel::rendered);
    reveal_with_fuel(Rendition::rendered_from, 3);
    assert((r as u16 % 256) as u8 == r && (g as u16 % 256) as u8 == g && (b as u16 % 256) as u8
        == b);
}

proof fn lemma_byte_digits(n: u8)
    ensures
        0 < decimal(n as nat).len() <= 3,
        forall|i: int|
            0 <= i < decimal(n as nat).len() ==> 0x30 <= #[trigger] decimal(n as nat)[i] <= 0x39,
{
    reveal_with_fuel(decimal, 3);
}

proof fn lemma_colon(n: u16, rest: Seq<u8>, group: Seq<u16>)
    ensures
        sgr_groups_from(decimal(n as nat) + (seq![0x3au8] + rest), group, 0) == sgr_groups_from(
            rest,
            group.push(n),
            0,
        ),
{
    let tail = seq![0x3au8] + rest;
    lemma_params_number(n as nat, tail, false);
    assert(tail[0] == 0x3a);
    assert(tail.drop_first() =~= rest);
}

proof fn lemma_last(n: u16, group: Seq<u16>)
    ensures
        sgr_groups_from(decimal(n as nat), group, 0) == seq![group.push(n)],
{
    let e = Seq::<u8>::empty();
    lemma_params_number(n as nat, e, false);
    assert(decimal(n as nat) + e =~= decimal(n as nat));
}

} // verus!
