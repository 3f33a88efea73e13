//! SGR: colours and text attributes.

use super::model::{
    bright_color, extended_color, group_head, low_byte, normal_color, underline_for, Rendition,
    TerminalModel,
};
use super::params::{group_values, groups_values, ParamGroup, ParamGroups};
use super::state::TerminalState;
use crate::cell::{Color, StyleFlags, UnderlineStyle};
use vstd::prelude::*;

verus! {

/// The number so far, and one more digit: it stops at the largest sixteen-bit value.
pub open spec fn more_digits(current: u16, byte: u8) -> u16 {
    let v = current * 10 + (byte - 48);
    if v > 65535 {
        65535
    } else {
        v as u16
    }
}

pub(crate) fn add_digit(current: u16, byte: u8) -> (v: u16)
    requires
        48 <= byte <= 57,
    ensures
        v == more_digits(current, byte),
{
    let v: u32 = current as u32 * 10 + (byte - 48) as u32;
    if v > 65535 {
        65535
    } else {
        v as u16
    }
}

/// Parameter groups: `;` ends a group, `:` separates the values in one, an empty
/// field counts as zero. `group` and `current` are what has been read of the last
/// group.
pub open spec fn sgr_groups_from(bytes: Seq<u8>, group: Seq<u16>, current: u16) -> Seq<Seq<u16>>
    decreases bytes.len(),
{
    if bytes.len() == 0 {
        seq![group.push(current)]
    } else {
        let b = bytes[0];
        let rest = bytes.drop_first();
        if 48 <= b <= 57 {
            sgr_groups_from(rest, group, more_digits(current, b))
        } else if b == 58 {
            sgr_groups_from(rest, group.push(current), 0)
        } else if b == 59 {
            seq![group.push(current)] + sgr_groups_from(rest, Seq::empty(), 0)
        } else {
            sgr_groups_from(rest, group, current)
        }
    }
}

pub open spec fn sgr_groups(bytes: Seq<u8>) -> Seq<Seq<u16>> {
    sgr_groups_from(bytes, Seq::empty(), 0)
}

/// The low byte of a parameter.
fn byte_of(v: u16) -> (b: u8)
    ensures
        b == low_byte(v),
{
    (v % 256) as u8
}

fn head_of(groups: &ParamGroups, i: usize) -> (head: Option<u16>)
    ensures
        head == group_head(groups_values(*groups), i as int),
{
    if i < groups.len() {
        let g = groups.group(i);
        if g.len() > 0 {
            Some(g[0])
        } else {
            None
        }
    } else {
        None
    }
}

fn underline_from(style: u16) -> (u: UnderlineStyle)
    ensures
        u == underline_for(style),
{
    match style {
        0 => UnderlineStyle::Off,
        1 => UnderlineStyle::Single,
        2 => UnderlineStyle::Double,
        3 => UnderlineStyle::Curly,
        4 => UnderlineStyle::Dotted,
        5 => UnderlineStyle::Dashed,
        _ => UnderlineStyle::Single,
    }
}

fn normal_color_of(i: u16) -> (color: Color)
    requires
        i < 8,
    ensures
        color == normal_color(i as int),
{
    match i {
        0 => Color::Black,
        1 => Color::Red,
        2 => Color::Green,
        3 => Color::Yellow,
        4 => Color::Blue,
        5 => Color::Magenta,
        6 => Color::Cyan,
        _ => Color::White,
    }
}

fn bright_color_of(i: u16) -> (color: Color)
    requires
        i < 8,
    ensures
        color == bright_color(i as int),
{
    match i {
        0 => Color::BrightBlack,
        1 => Color::BrightRed,
        2 => Color::BrightGreen,
        3 => Color::BrightYellow,
        4 => Color::BrightBlue,
        5 => Color::BrightMagenta,
        6 => Color::BrightCyan,
        _ => Color::BrightWhite,
    }
}

impl TerminalState {
    /// Reads SGR parameters as groups. Top-level parameters are separated by `;`;
    /// within a group, `:` introduces sub-parameters (ISO 8613-6, e.g. `4:3` or
    /// `38:2:r:g:b`). Empty fields count as zero, so positions are kept.
    pub(crate) fn parse_sgr_groups(param_bytes: &[u8]) -> (groups: ParamGroups)
        ensures
            groups_values(groups) == sgr_groups(param_bytes@),
    {
        let mut groups = ParamGroups::new();
        let mut group = ParamGroup::new();
        let mut current: u16 = 0;
        let mut i: usize = 0;
        proof {
            assert(param_bytes@.subrange(0, param_bytes@.len() as int) =~= param_bytes@);
            assert(Seq::<Seq<u16>>::empty() + sgr_groups(param_bytes@) =~= sgr_groups(
                param_bytes@,
            ));
        }
        while i < param_bytes.len()
            invariant
                i <= param_bytes@.len(),
                groups_values(groups) + sgr_groups_from(
                    param_bytes@.subrange(i as int, param_bytes@.len() as int),
                    group_values(group),
                    current,
                ) == sgr_groups(param_bytes@),
            decreases param_bytes@.len() - i,
        {
            let byte: u8 = param_bytes[i];
            let ghost rest = param_bytes@.subrange(i as int, param_bytes@.len() as int);
            let ghost before = groups_values(groups);
            let ghost open_group = group_values(group);
            proof {
                assert(rest.drop_first() =~= param_bytes@.subrange(
                    i + 1,
                    param_bytes@.len() as int,
                ));
            }
            if 48 <= byte && byte <= 57 {
                current = add_digit(current, byte);
            } else if byte == 58 {
                group.push(current);
                current = 0;
            } else if byte == 59 {
                group.push(current);
                groups.push(group);
                group = ParamGroup::new();
                proof {
                    let tail = sgr_groups_from(rest.drop_first(), Seq::empty(), 0);
                    assert(before + (seq![open_group.push(current)] + tail) =~= before.push(
                        open_group.push(current),
                    ) + tail);
                }
                current = 0;
            }
            i = i + 1;
        }
        let ghost before = groups_values(groups);
        let ghost open_group = group_values(group);
        group.push(current);
        groups.push(group);
        proof {
            assert(before + seq![open_group.push(current)] =~= before.push(
                open_group.push(current),
            ));
        }
        groups
    }

    /// Reads an extended colour (SGR 38/48/58), either from the sub-parameters of
    /// one group or from the groups that follow; `gi` moves to the last group used.
    pub(crate) fn parse_ext_color(groups: &ParamGroups, gi: &mut usize) -> (color: Option<Color>)
        requires
            *old(gi) < groups_values(*groups).len(),
            groups_values(*groups).len() <= 64,
        ensures
            (color, *final(gi) as int) == extended_color(groups_values(*groups), *old(gi) as int),
            *old(gi) <= *final(gi) <= *old(gi) + 4,
    {
        let at: usize = *gi;
        let g = groups.group(at);
        if g.len() >= 2 {
            match g[1] {
                5 => if g.len() >= 3 {
                    Some(Color::Indexed(byte_of(g[2])))
                } else {
                    None
                },
                2 => if g.len() >= 6 {
                    Some(Color::Rgb(byte_of(g[3]), byte_of(g[4]), byte_of(g[5])))
                } else if g.len() >= 5 {
                    Some(Color::Rgb(byte_of(g[2]), byte_of(g[3]), byte_of(g[4])))
                } else {
                    None
                },
                _ => None,
            }
        } else {
            match head_of(groups, at + 1) {
                Some(5) => {
                    *gi = at + 2;
                    match head_of(groups, at + 2) {
                        Some(n) => Some(Color::Indexed(byte_of(n))),
                        None => None,
                    }
                },
                Some(2) => {
                    *gi = at + 4;
                    match (
                        head_of(groups, at + 2),
                        head_of(groups, at + 3),
                        head_of(groups, at + 4),
                    ) {
                        (Some(r), Some(gr), Some(b)) => Some(
                            Color::Rgb(byte_of(r), byte_of(gr), byte_of(b)),
                        ),
                        _ => None,
                    }
                },
                _ => None,
            }
        }
    }

    /// Applies SGR parameters.
    pub(crate) fn handle_sgr(&mut self, groups: &ParamGroups)
        requires
            old(self).wf(),
            groups_values(*groups).len() <= 64,
        ensures
            final(self).wf(),
            final(self)@ == old(self)@.rendered(groups_values(*groups)),
            final(self).kitty_graphics == old(self).kitty_graphics,
            final(self).sync_output_start == old(self).sync_output_start,
            final(self).widest == old(self).widest,
    {
        proof {
            reveal(TerminalModel::rendered);
        }
        let start = Rendition {
            flags: self.current_flags,
            fg: self.current_fg,
            bg: self.current_bg,
            global_bg: self.global_bg,
        };
        let r = start.render(groups);
        self.current_flags = r.flags;
        self.current_fg = r.fg;
        self.current_bg = r.bg;
        self.global_bg = r.global_bg;
    }
}

impl Rendition {
    /// Applies one parameter other than an extended colour.
    fn render_simple(self, g: &[u16]) -> (r: Rendition)
        ensures
            r == self.rendered_simple(g@),
    {
        let param: u16 = if g.len() > 0 {
            g[0]
        } else {
            0
        };
        let mut r = self;
        match param {
            0 => {
                r.flags = StyleFlags::new();
                r.fg = Color::Default;
                r.bg = Color::Default;
            },
            1 => r.flags.set_bold(true),
            2 => r.flags.set_dim(true),
            3 => r.flags.set_italic(true),
            4 => {
                // `4:n` selects the underline style; plain `4` is a single underline.
                let style: u16 = if g.len() >= 2 {
                    g[1]
                } else {
                    1
                };
                r.flags.set_underline(underline_from(style));
            },
            5 => r.flags.set_blink(true),
            7 => r.flags.set_inverse(true),
            9 => r.flags.set_strikethrough(true),
            21 => r.flags.set_underline(UnderlineStyle::Double),
            22 => {
                r.flags.set_bold(false);
                r.flags.set_dim(false);
            },
            23 => r.flags.set_italic(false),
            24 => r.flags.set_underline(UnderlineStyle::Off),
            25 => r.flags.set_blink(false),
            27 => r.flags.set_inverse(false),
            29 => r.flags.set_strikethrough(false),
            39 => {
                r.fg = Color::Default;
            },
            49 => {
                r.bg = Color::Default;
            },
            _ => {
                if 30 <= param && param <= 37 {
                    r.fg = normal_color_of(param - 30);
                } else if 40 <= param && param <= 47 {
                    r.bg = normal_color_of(param - 40);
                    r.global_bg = r.bg;
                } else if 90 <= param && param <= 97 {
                    r.fg = bright_color_of(param - 90);
                } else if 100 <= param && param <= 107 {
                    r.bg = bright_color_of(param - 100);
                    r.global_bg = r.bg;
                }
            },
        }
        r
    }

    fn render(self, groups: &ParamGroups) -> (r: Rendition)
        requires
            groups_values(*groups).len() <= 64,
        ensures
            r == self.rendered_from(groups_values(*groups), 0),
    {
        let ghost all = groups_values(*groups);
        let mut r = self;
        let mut gi: usize = 0;
        while gi < groups.len()
            invariant
                all == groups_values(*groups),
                all.len() <= 64,
                gi <= all.len() + 5,
                r.rendered_from(all, gi as int) == self.rendered_from(all, 0),
            decreases all.len() + 5 - gi,
        {
            let g = groups.group(gi);
            let param: u16 = if g.len() > 0 {
                g[0]
            } else {
                0
            };
            if param == 38 || param == 48 || param == 58 {
                if let Some(color) = TerminalState::parse_ext_color(groups, &mut gi) {
                    if param == 38 {
                        r.fg = color;
                    } else if param == 48 {
                        r.bg = color;
                        r.global_bg = color;
                    }
                    // 58 sets the underline colour, which is not drawn; its
                    // arguments must be consumed all the same.
                }
            } else {
                r = r.render_simple(g);
            }
            gi = gi + 1;
        }
        r
    }
}

} // verus!
