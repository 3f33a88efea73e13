//! Character cells: colours, packed style flags and the cell itself.

use vstd::prelude::*;

verus! {

/// A cell colour: one of the sixteen named ANSI colours, a palette index, a
/// direct RGB value, or the terminal's default.
#[derive(Clone, Copy, Debug, PartialEq, Eq, Hash, Structural)]
pub enum Color {
    Black,
    Red,
    Green,
    Yellow,
    Blue,
    Magenta,
    Cyan,
    White,
    BrightBlack,
    BrightRed,
    BrightGreen,
    BrightYellow,
    BrightBlue,
    BrightMagenta,
    BrightCyan,
    BrightWhite,
    Indexed(u8),
    Rgb(u8, u8, u8),
    Default,
}

/// Shape of the text cursor, as selected by DECSCUSR.
#[derive(Clone, Copy, Debug, PartialEq, Eq, Structural)]
pub enum CursorShape {
    Block,
    Underline,
    Beam,
}

impl Default for CursorShape {
    fn default() -> (shape: Self)
        ensures
            shape == CursorShape::Block,
    {
        CursorShape::Block
    }
}

/// Underline style of a cell.
#[derive(Clone, Copy, Debug, PartialEq, Eq, Structural)]
pub enum UnderlineStyle {
    Off,
    Single,
    Double,
    Curly,
    Dotted,
    Dashed,
}

impl Default for UnderlineStyle {
    fn default() -> (style: Self)
        ensures
            style == UnderlineStyle::Off,
    {
        UnderlineStyle::Off
    }
}

/// The attributes that a packed [`StyleFlags`] stands for.
pub struct Style {
    pub bold: bool,
    pub italic: bool,
    pub underline: UnderlineStyle,
    pub inverse: bool,
    pub dim: bool,
    pub blink: bool,
    pub strikethrough: bool,
    pub wide: bool,
    pub wide_continuation: bool,
}

impl Style {
    /// No attribute set.
    pub open spec fn plain() -> Style {
        Style {
            bold: false,
            italic: false,
            underline: UnderlineStyle::Off,
            inverse: false,
            dim: false,
            blink: false,
            strikethrough: false,
            wide: false,
            wide_continuation: false,
        }
    }

    /// No rendition attribute set; the two wide-character marks are not looked at.
    pub open spec fn is_default(self) -> bool {
        self == (Style { wide: self.wide, wide_continuation: self.wide_continuation, ..Style::plain() })
    }
}

/// Packed style flags in a u16 bitfield (includes wide character bits).
/// Layout:
///   bit 0: bold
///   bit 1: italic
///   bit 2-4: underline style (3 bits, 0-5)
///   bit 5: inverse
///   bit 6: dim
///   bit 7: blink
///   bit 8: strikethrough
///   bit 9: wide
///   bit 10: wide_continuation
#[derive(Clone, Copy, Debug, PartialEq, Eq, Structural)]
pub struct StyleFlags(u16);

const BOLD_BIT: u16 = 1;

const ITALIC_BIT: u16 = 2;

const UNDERLINE_SHIFT: u16 = 2;

const UNDERLINE_MASK: u16 = 28;

const INVERSE_BIT: u16 = 32;

const DIM_BIT: u16 = 64;

const BLINK_BIT: u16 = 128;

const STRIKETHROUGH_BIT: u16 = 256;

const WIDE_BIT: u16 = 512;

const WIDE_CONT_BIT: u16 = 1024;

const RENDITION_MASK: u16 = 511;

spec fn underline_of(code: u16) -> UnderlineStyle {
    if code == 1 {
        UnderlineStyle::Single
    } else if code == 2 {
        UnderlineStyle::Double
    } else if code == 3 {
        UnderlineStyle::Curly
    } else if code == 4 {
        UnderlineStyle::Dotted
    } else if code == 5 {
        UnderlineStyle::Dashed
    } else {
        UnderlineStyle::Off
    }
}

spec fn underline_code_of(style: UnderlineStyle) -> u16 {
    match style {
        UnderlineStyle::Off => 0,
        UnderlineStyle::Single => 1,
        UnderlineStyle::Double => 2,
        UnderlineStyle::Curly => 3,
        UnderlineStyle::Dotted => 4,
        UnderlineStyle::Dashed => 5,
    }
}

spec fn set_bit(bits: u16, mask: u16, v: bool) -> u16 {
    if v {
        bits | mask
    } else {
        bits & !mask
    }
}

/// Setting or clearing one single-bit flag reads back as written and leaves
/// every other field of the word alone.
proof fn lemma_set_bit(b: u16, m: u16)
    by (bit_vector)
    requires
        m == 1 || m == 2 || m == 32 || m == 64 || m == 128 || m == 256 || m == 512 || m == 1024,
    ensures
        (b | m) & m != 0,
        (b & !m) & m == 0,
        m != 1 ==> (b | m) & 1 == b & 1 && (b & !m) & 1 == b & 1,
        m != 2 ==> (b | m) & 2 == b & 2 && (b & !m) & 2 == b & 2,
        (b | m) & 28 == b & 28 && (b & !m) & 28 == b & 28,
        m != 32 ==> (b | m) & 32 == b & 32 && (b & !m) & 32 == b & 32,
        m != 64 ==> (b | m) & 64 == b & 64 && (b & !m) & 64 == b & 64,
        m != 128 ==> (b | m) & 128 == b & 128 && (b & !m) & 128 == b & 128,
        m != 256 ==> (b | m) & 256 == b & 256 && (b & !m) & 256 == b & 256,
        m != 512 ==> (b | m) & 512 == b & 512 && (b & !m) & 512 == b & 512,
        m != 1024 ==> (b | m) & 1024 == b & 1024 && (b & !m) & 1024 == b & 1024,
        b < 2048 ==> (b | m) < 2048 && (b & !m) < 2048,
{
}

proof fn lemma_set_underline(b: u16, code: u16)
    by (bit_vector)
    requires
        code <= 5,
    ensures
        (((b & !28) | (code << 2)) & 28) >> 2 == code,
        ((b & !28) | (code << 2)) & 1 == b & 1,
        ((b & !28) | (code << 2)) & 2 == b & 2,
        ((b & !28) | (code << 2)) & 32 == b & 32,
        ((b & !28) | (code << 2)) & 64 == b & 64,
        ((b & !28) | (code << 2)) & 128 == b & 128,
        ((b & !28) | (code << 2)) & 256 == b & 256,
        ((b & !28) | (code << 2)) & 512 == b & 512,
        ((b & !28) | (code << 2)) & 1024 == b & 1024,
        b < 2048 ==> ((b & !28) | (code << 2)) < 2048,
{
}

proof fn lemma_zero_flags()
    by (bit_vector)
    ensures
        0u16 & 1 == 0,
        0u16 & 2 == 0,
        (0u16 & 28) >> 2 == 0,
        0u16 & 32 == 0,
        0u16 & 64 == 0,
        0u16 & 128 == 0,
        0u16 & 256 == 0,
        0u16 & 512 == 0,
        0u16 & 1024 == 0,
{
}

proof fn lemma_rendition_mask(b: u16)
    by (bit_vector)
    ensures
        (b & 511 == 0) == (b & 1 == 0 && b & 2 == 0 && (b & 28) >> 2 == 0 && b & 32 == 0 && b & 64
            == 0 && b & 128 == 0 && b & 256 == 0),
        (b & 28) >> 2 <= 7,
{
}

proof fn lemma_fields_determine_word(a: u16, b: u16)
    by (bit_vector)
    requires
        a < 2048,
        b < 2048,
        (a & 1 == 0) == (b & 1 == 0),
        (a & 2 == 0) == (b & 2 == 0),
        (a & 28) >> 2 == (b & 28) >> 2,
        (a & 32 == 0) == (b & 32 == 0),
        (a & 64 == 0) == (b & 64 == 0),
        (a & 128 == 0) == (b & 128 == 0),
        (a & 256 == 0) == (b & 256 == 0),
        (a & 512 == 0) == (b & 512 == 0),
        (a & 1024 == 0) == (b & 1024 == 0),
    ensures
        a == b,
{
}

impl View for StyleFlags {
    type V = Style;

    closed spec fn view(&self) -> Style {
        Style {
            bold: self.0 & BOLD_BIT != 0,
            italic: self.0 & ITALIC_BIT != 0,
            underline: underline_of((self.0 & UNDERLINE_MASK) >> UNDERLINE_SHIFT),
            inverse: self.0 & INVERSE_BIT != 0,
            dim: self.0 & DIM_BIT != 0,
            blink: self.0 & BLINK_BIT != 0,
            strikethrough: self.0 & STRIKETHROUGH_BIT != 0,
            wide: self.0 & WIDE_BIT != 0,
            wide_continuation: self.0 & WIDE_CONT_BIT != 0,
        }
    }
}

impl StyleFlags {
    /// No bit outside the documented layout is set, and the underline field
    /// holds one of its six codes. Every value built by this type's functions
    /// has this form.
    pub closed spec fn canonical(self) -> bool {
        &&& self.0 < 2048
        &&& (self.0 & UNDERLINE_MASK) >> UNDERLINE_SHIFT <= 5
    }

    /// The flags without any attribute.
    pub closed spec fn none() -> StyleFlags {
        StyleFlags(0)
    }

    pub closed spec fn with_bold(self, v: bool) -> StyleFlags {
        StyleFlags(set_bit(self.0, BOLD_BIT, v))
    }

    pub closed spec fn with_italic(self, v: bool) -> StyleFlags {
        StyleFlags(set_bit(self.0, ITALIC_BIT, v))
    }

    pub closed spec fn with_underline(self, v: UnderlineStyle) -> StyleFlags {
        StyleFlags((self.0 & !UNDERLINE_MASK) | (underline_code_of(v) << UNDERLINE_SHIFT))
    }

    pub closed spec fn with_inverse(self, v: bool) -> StyleFlags {
        StyleFlags(set_bit(self.0, INVERSE_BIT, v))
    }

    pub closed spec fn with_dim(self, v: bool) -> StyleFlags {
        StyleFlags(set_bit(self.0, DIM_BIT, v))
    }

    pub closed spec fn with_blink(self, v: bool) -> StyleFlags {
        StyleFlags(set_bit(self.0, BLINK_BIT, v))
    }

    pub closed spec fn with_strikethrough(self, v: bool) -> StyleFlags {
        StyleFlags(set_bit(self.0, STRIKETHROUGH_BIT, v))
    }

    pub closed spec fn with_wide(self, v: bool) -> StyleFlags {
        StyleFlags(set_bit(self.0, WIDE_BIT, v))
    }

    pub closed spec fn with_wide_continuation(self, v: bool) -> StyleFlags {
        StyleFlags(set_bit(self.0, WIDE_CONT_BIT, v))
    }

    /// Writing one attribute changes that attribute alone, and keeps the
    /// packed word in canonical form.
    pub broadcast proof fn setting_an_attribute_changes_only_it(self, v: bool, u: UnderlineStyle)
        ensures
            #![trigger self.with_bold(v), self.with_underline(u)]
            self.with_bold(v)@ == (Style { bold: v, ..self@ }),
            self.with_italic(v)@ == (Style { italic: v, ..self@ }),
            self.with_underline(u)@ == (Style { underline: u, ..self@ }),
            self.with_inverse(v)@ == (Style { inverse: v, ..self@ }),
            self.with_dim(v)@ == (Style { dim: v, ..self@ }),
            self.with_blink(v)@ == (Style { blink: v, ..self@ }),
            self.with_strikethrough(v)@ == (Style { strikethrough: v, ..self@ }),
            self.with_wide(v)@ == (Style { wide: v, ..self@ }),
            self.with_wide_continuation(v)@ == (Style { wide_continuation: v, ..self@ }),
            self.canonical() ==> {
                &&& self.with_bold(v).canonical()
                &&& self.with_italic(v).canonical()
                &&& self.with_underline(u).canonical()
                &&& self.with_inverse(v).canonical()
                &&& self.with_dim(v).canonical()
                &&& self.with_blink(v).canonical()
                &&& self.with_strikethrough(v).canonical()
                &&& self.with_wide(v).canonical()
                &&& self.with_wide_continuation(v).canonical()
            },
    {
        lemma_set_bit(self.0, BOLD_BIT);
        lemma_set_bit(self.0, ITALIC_BIT);
        lemma_set_underline(self.0, underline_code_of(u));
        lemma_set_bit(self.0, INVERSE_BIT);
        lemma_set_bit(self.0, DIM_BIT);
        lemma_set_bit(self.0, BLINK_BIT);
        lemma_set_bit(self.0, STRIKETHROUGH_BIT);
        lemma_set_bit(self.0, WIDE_BIT);
        lemma_set_bit(self.0, WIDE_CONT_BIT);
    }

    /// The packed word holds nothing but its attributes: two canonical values
    /// with the same attributes are the same value.
    pub proof fn attributes_determine_flags(a: StyleFlags, b: StyleFlags)
        requires
            a.canonical(),
            b.canonical(),
            a@ == b@,
        ensures
            a == b,
    {
        lemma_fields_determine_word(a.0, b.0);
    }

    /// The empty word carries no attribute.
    pub proof fn none_is_plain()
        ensures
            Self::none()@ == Style::plain(),
            Self::none().canonical(),
    {
        lemma_zero_flags();
    }

    pub fn new() -> (flags: Self)
        ensures
            flags == Self::none(),
            flags@ == Style::plain(),
            flags.canonical(),
    {
        proof {
            Self::none_is_plain();
        }
        Self(0)
    }

    pub fn bold(&self) -> (v: bool)
        ensures
            v == self@.bold,
    {
        self.0 & BOLD_BIT != 0
    }

    pub fn italic(&self) -> (v: bool)
        ensures
            v == self@.italic,
    {
        self.0 & ITALIC_BIT != 0
    }

    pub fn underline(&self) -> (v: UnderlineStyle)
        ensures
            v == self@.underline,
    {
        match (self.0 & UNDERLINE_MASK) >> UNDERLINE_SHIFT {
            1 => UnderlineStyle::Single,
            2 => UnderlineStyle::Double,
            3 => UnderlineStyle::Curly,
            4 => UnderlineStyle::Dotted,
            5 => UnderlineStyle::Dashed,
            _ => UnderlineStyle::Off,
        }
    }

    pub fn inverse(&self) -> (v: bool)
        ensures
            v == self@.inverse,
    {
        self.0 & INVERSE_BIT != 0
    }

    pub fn dim(&self) -> (v: bool)
        ensures
            v == self@.dim,
    {
        self.0 & DIM_BIT != 0
    }

    pub fn blink(&self) -> (v: bool)
        ensures
            v == self@.blink,
    {
        self.0 & BLINK_BIT != 0
    }

    pub fn strikethrough(&self) -> (v: bool)
        ensures
            v == self@.strikethrough,
    {
        self.0 & STRIKETHROUGH_BIT != 0
    }

    pub fn wide(&self) -> (v: bool)
        ensures
            v == self@.wide,
    {
        self.0 & WIDE_BIT != 0
    }

    pub fn wide_continuation(&self) -> (v: bool)
        ensures
            v == self@.wide_continuation,
    {
        self.0 & WIDE_CONT_BIT != 0
    }

    pub fn set_bold(&mut self, v: bool)
        ensures
            *final(self) == old(self).with_bold(v),
            final(self)@ == (Style { bold: v, ..old(self)@ }),
            old(self).canonical() ==> final(self).canonical(),
    {
        proof {
            self.setting_an_attribute_changes_only_it(v, UnderlineStyle::Off);
        }
        if v {
            self.0 = self.0 | BOLD_BIT;
        } else {
            self.0 = self.0 & !BOLD_BIT;
        }
    }

    pub fn set_italic(&mut self, v: bool)
        ensures
            *final(self) == old(self).with_italic(v),
            final(self)@ == (Style { italic: v, ..old(self)@ }),
            old(self).canonical() ==> final(self).canonical(),
    {
        proof {
            self.setting_an_attribute_changes_only_it(v, UnderlineStyle::Off);
        }
        if v {
            self.0 = self.0 | ITALIC_BIT;
        } else {
            self.0 = self.0 & !ITALIC_BIT;
        }
    }

    pub fn set_underline(&mut self, v: UnderlineStyle)
        ensures
            *final(self) == old(self).with_underline(v),
            final(self)@ == (Style { underline: v, ..old(self)@ }),
            old(self).canonical() ==> final(self).canonical(),
    {
        proof {
            self.setting_an_attribute_changes_only_it(true, v);
        }
        let code: u16 = match v {
            UnderlineStyle::Off => 0,
            UnderlineStyle::Single => 1,
            UnderlineStyle::Double => 2,
            UnderlineStyle::Curly => 3,
            UnderlineStyle::Dotted => 4,
            UnderlineStyle::Dashed => 5,
        };
        self.0 = (self.0 & !UNDERLINE_MASK) | (code << UNDERLINE_SHIFT);
    }

    pub fn set_inverse(&mut self, v: bool)
        ensures
            *final(self) == old(self).with_inverse(v),
            final(self)@ == (Style { inverse: v, ..old(self)@ }),
            old(self).canonical() ==> final(self).canonical(),
    {
        proof {
            self.setting_an_attribute_changes_only_it(v, UnderlineStyle::Off);
        }
        if v {
            self.0 = self.0 | INVERSE_BIT;
        } else {
            self.0 = self.0 & !INVERSE_BIT;
        }
    }

    pub fn set_dim(&mut self, v: bool)
        ensures
            *final(self) == old(self).with_dim(v),
            final(self)@ == (Style { dim: v, ..old(self)@ }),
            old(self).canonical() ==> final(self).canonical(),
    {
        proof {
            self.setting_an_attribute_changes_only_it(v, UnderlineStyle::Off);
        }
        if v {
            self.0 = self.0 | DIM_BIT;
        } else {
            self.0 = self.0 & !DIM_BIT;
        }
    }

    pub fn set_blink(&mut self, v: bool)
        ensures
            *final(self) == old(self).with_blink(v),
            final(self)@ == (Style { blink: v, ..old(self)@ }),
            old(self).canonical() ==> final(self).canonical(),
    {
        proof {
            self.setting_an_attribute_changes_only_it(v, UnderlineStyle::Off);
        }
        if v {
            self.0 = self.0 | BLINK_BIT;
        } else {
            self.0 = self.0 & !BLINK_BIT;
        }
    }

    pub fn set_strikethrough(&mut self, v: bool)
        ensures
            *final(self) == old(self).with_strikethrough(v),
            final(self)@ == (Style { strikethrough: v, ..old(self)@ }),
            old(self).canonical() ==> final(self).canonical(),
    {
        proof {
            self.setting_an_attribute_changes_only_it(v, UnderlineStyle::Off);
        }
        if v {
            self.0 = self.0 | STRIKETHROUGH_BIT;
        } else {
            self.0 = self.0 & !STRIKETHROUGH_BIT;
        }
    }

    pub fn set_wide(&mut self, v: bool)
        ensures
            *final(self) == old(self).with_wide(v),
            final(self)@ == (Style { wide: v, ..old(self)@ }),
            old(self).canonical() ==> final(self).canonical(),
    {
        proof {
            self.setting_an_attribute_changes_only_it(v, UnderlineStyle::Off);
        }
        if v {
            self.0 = self.0 | WIDE_BIT;
        } else {
            self.0 = self.0 & !WIDE_BIT;
        }
    }

    pub fn set_wide_continuation(&mut self, v: bool)
        ensures
            *final(self) == old(self).with_wide_continuation(v),
            final(self)@ == (Style { wide_continuation: v, ..old(self)@ }),
            old(self).canonical() ==> final(self).canonical(),
    {
        proof {
            self.setting_an_attribute_changes_only_it(v, UnderlineStyle::Off);
        }
        if v {
            self.0 = self.0 | WIDE_CONT_BIT;
        } else {
            self.0 = self.0 & !WIDE_CONT_BIT;
        }
    }

    /// The rendition part of the word is zero.
    pub closed spec fn rendition_is_zero(self) -> bool {
        self.0 & RENDITION_MASK == 0
    }

    /// The canonical word for a set of attributes.
    pub closed spec fn of_style(style: Style) -> StyleFlags {
        StyleFlags::none().with_bold(style.bold).with_italic(style.italic).with_underline(
            style.underline,
        ).with_inverse(style.inverse).with_dim(style.dim).with_blink(
            style.blink,
        ).with_strikethrough(style.strikethrough).with_wide(style.wide).with_wide_continuation(
            style.wide_continuation,
        )
    }

    /// The canonical word for a set of attributes carries exactly these.
    pub proof fn of_style_has_style(style: Style)
        ensures
            Self::of_style(style)@ == style,
            Self::of_style(style).canonical(),
    {
        let f0 = StyleFlags::none();
        Self::none_is_plain();
        f0.setting_an_attribute_changes_only_it(style.bold, style.underline);
        let f1 = f0.with_bold(style.bold);
        f1.setting_an_attribute_changes_only_it(style.italic, style.underline);
        let f2 = f1.with_italic(style.italic);
        f2.setting_an_attribute_changes_only_it(style.inverse, style.underline);
        let f3 = f2.with_underline(style.underline);
        f3.setting_an_attribute_changes_only_it(style.inverse, style.underline);
        let f4 = f3.with_inverse(style.inverse);
        f4.setting_an_attribute_changes_only_it(style.dim, style.underline);
        let f5 = f4.with_dim(style.dim);
        f5.setting_an_attribute_changes_only_it(style.blink, style.underline);
        let f6 = f5.with_blink(style.blink);
        f6.setting_an_attribute_changes_only_it(style.strikethrough, style.underline);
        let f7 = f6.with_strikethrough(style.strikethrough);
        f7.setting_an_attribute_changes_only_it(style.wide, style.underline);
        let f8 = f7.with_wide(style.wide);
        f8.setting_an_attribute_changes_only_it(style.wide_continuation, style.underline);
    }

    /// Whether no rendition attribute is set (the wide-character marks do not count).
    pub fn is_default_style(&self) -> (v: bool)
        ensures
            v == self.rendition_is_zero(),
            v ==> self@.is_default(),
            self.canonical() ==> v == self@.is_default(),
    {
        proof {
            lemma_rendition_mask(self.0);
        }
        self.0 & RENDITION_MASK == 0
    }
}

impl Default for StyleFlags {
    fn default() -> (flags: Self)
        ensures
            flags == StyleFlags::none(),
            flags@ == Style::plain(),
            flags.canonical(),
    {
        StyleFlags::new()
    }
}

/// One character cell of the screen.
#[derive(Clone, Copy, Debug, PartialEq, Eq, Structural)]
pub struct TerminalCell {
    pub character: char,
    pub foreground: Color,
    pub background: Color,
    pub flags: StyleFlags,
}

impl TerminalCell {
    /// A blank on the given background, without attributes.
    pub open spec fn blank_on(background: Color) -> TerminalCell {
        TerminalCell {
            character: ' ',
            foreground: Color::Default,
            background,
            flags: StyleFlags::none(),
        }
    }

    /// The blank that a fresh screen is filled with.
    pub open spec fn blank() -> TerminalCell {
        TerminalCell::blank_on(Color::Default)
    }

    /// A blank on `background`.
    pub(crate) fn new_blank(background: Color) -> (cell: TerminalCell)
        ensures
            cell == TerminalCell::blank_on(background),
    {
        TerminalCell {
            character: ' ',
            foreground: Color::Default,
            background,
            flags: StyleFlags::new(),
        }
    }
}

impl Default for TerminalCell {
    fn default() -> (cell: Self)
        ensures
            cell == TerminalCell::blank(),
    {
        TerminalCell::new_blank(Color::Default)
    }
}

} // verus!
