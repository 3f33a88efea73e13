//! Lines that have left the screen, kept in a compact form.

use crate::cell::{Color, Style, StyleFlags, TerminalCell, UnderlineStyle};
use crate::grid::line_of;
use crate::text::utf8_text;
use vstd::prelude::*;
use vstd::utf8::{decode_utf8, encode_scalar, encode_utf8, valid_utf8};

verus! {

/// What a [`ScrollbackLine`] gives back: its cells, and whether the text on it
/// continues on the next line.
#[verifier::ext_equal]
pub struct LineModel {
    pub cells: Seq<TerminalCell>,
    pub wrapped: bool,
}

/// A cell as the scrollback keeps it: everything but the blink attribute.
pub open spec fn kept_cell(cell: TerminalCell) -> TerminalCell {
    TerminalCell {
        flags: StyleFlags::of_style((Style { blink: false, ..cell.flags@ })),
        ..cell
    }
}

/// A run of cells as the scrollback keeps it.
pub open spec fn kept(cells: Seq<TerminalCell>) -> Seq<TerminalCell> {
    Seq::new(cells.len(), |i: int| kept_cell(cells[i]))
}

/// A line that was pushed into the scrollback is the line that comes out, for
/// cells that do not blink.
pub proof fn kept_line_is_unchanged(cells: Seq<TerminalCell>)
    requires
        forall|i: int|
            0 <= i < cells.len() ==> (#[trigger] cells[i]).flags.canonical()
                && !cells[i].flags@.blink,
    ensures
        kept(cells) == cells,
{
    assert forall|i: int| 0 <= i < cells.len() implies kept(cells)[i] == #[trigger] cells[i] by {
        let flags = cells[i].flags;
        StyleFlags::of_style_has_style(flags@);
        StyleFlags::attributes_determine_flags(flags, StyleFlags::of_style(flags@));
    }
    assert(kept(cells) =~= cells);
}

/// Keeping a line a second time changes nothing more.
pub proof fn keeping_is_idempotent(cells: Seq<TerminalCell>)
    ensures
        kept(kept(cells)) == kept(cells),
{
    assert forall|i: int| 0 <= i < cells.len() implies kept_cell(#[trigger] kept(cells)[i])
        == kept(cells)[i] by {
        StyleFlags::of_style_has_style((Style { blink: false, ..cells[i].flags@ }));
    }
    assert(kept(kept(cells)) =~= kept(cells));
}

proof fn lemma_plain_is_none()
    ensures
        StyleFlags::of_style(Style::plain()) == StyleFlags::none(),
{
    StyleFlags::none_is_plain();
    StyleFlags::of_style_has_style(Style::plain());
    StyleFlags::attributes_determine_flags(
        StyleFlags::of_style(Style::plain()),
        StyleFlags::none(),
    );
}

/// A line of scrollback.
#[derive(Clone, Debug)]
pub struct ScrollbackLine {
    data: CompressedLineData,
    pub is_wrapped: bool,
    cols: u16,
}

/// A line without any attribute is its text and a number of trailing blanks;
/// any other is a sequence of runs of equal cells, each
/// `[char_len:1][char_bytes][fg][bg][flags:1][wide_bits:1][run:1]`.
#[derive(Clone, Debug)]
enum CompressedLineData {
    Plain(String, u16),
    Encoded(Vec<u8>),
}

// ---- the byte format ----

spec fn color_bytes(color: Color) -> Seq<u8> {
    match color {
        Color::Default => seq![0u8],
        Color::Black => seq![1u8],
        Color::Red => seq![2u8],
        Color::Green => seq![3u8],
        Color::Yellow => seq![4u8],
        Color::Blue => seq![5u8],
        Color::Magenta => seq![6u8],
        Color::Cyan => seq![7u8],
        Color::White => seq![8u8],
        Color::BrightBlack => seq![9u8],
        Color::BrightRed => seq![10u8],
        Color::BrightGreen => seq![11u8],
        Color::BrightYellow => seq![12u8],
        Color::BrightBlue => seq![13u8],
        Color::BrightMagenta => seq![14u8],
        Color::BrightCyan => seq![15u8],
        Color::BrightWhite => seq![16u8],
        Color::Indexed(i) => seq![17u8, i],
        Color::Rgb(r, g, b) => seq![18u8, r, g, b],
    }
}

spec fn byte_at(data: Seq<u8>, pos: int, missing: u8) -> u8 {
    if pos < data.len() {
        data[pos]
    } else {
        missing
    }
}

spec fn advance(data: Seq<u8>, pos: int, by: int) -> int {
    if pos + by < data.len() {
        pos + by
    } else {
        data.len() as int
    }
}

spec fn color_at(data: Seq<u8>, pos: int) -> (Color, int) {
    if pos >= data.len() {
        (Color::Default, pos)
    } else {
        let tag = data[pos];
        let next = advance(data, pos, 1);
        if tag == 1 {
            (Color::Black, next)
        } else if tag == 2 {
            (Color::Red, next)
        } else if tag == 3 {
            (Color::Green, next)
        } else if tag == 4 {
            (Color::Yellow, next)
        } else if tag == 5 {
            (Color::Blue, next)
        } else if tag == 6 {
            (Color::Magenta, next)
        } else if tag == 7 {
            (Color::Cyan, next)
        } else if tag == 8 {
            (Color::White, next)
        } else if tag == 9 {
            (Color::BrightBlack, next)
        } else if tag == 10 {
            (Color::BrightRed, next)
        } else if tag == 11 {
            (Color::BrightGreen, next)
        } else if tag == 12 {
            (Color::BrightYellow, next)
        } else if tag == 13 {
            (Color::BrightBlue, next)
        } else if tag == 14 {
            (Color::BrightMagenta, next)
        } else if tag == 15 {
            (Color::BrightCyan, next)
        } else if tag == 16 {
            (Color::BrightWhite, next)
        } else if tag == 17 {
            (Color::Indexed(byte_at(data, next, 0)), advance(data, pos, 2))
        } else if tag == 18 {
            (
                Color::Rgb(
                    byte_at(data, next, 0),
                    byte_at(data, advance(data, pos, 2), 0),
                    byte_at(data, advance(data, pos, 3), 0),
                ),
                advance(data, pos, 4),
            )
        } else {
            (Color::Default, next)
        }
    }
}

spec fn underline_code(style: UnderlineStyle) -> u8 {
    match style {
        UnderlineStyle::Off => 0,
        UnderlineStyle::Single => 4,
        UnderlineStyle::Double => 8,
        UnderlineStyle::Curly => 12,
        UnderlineStyle::Dotted => 16,
        UnderlineStyle::Dashed => 20,
    }
}

spec fn underline_from(code: u8) -> UnderlineStyle {
    if code == 1 {
        UnderlineStyle::Single
    } else if code == 2 {
        UnderlineStyle::Double
    } else if code == 3 {
        UnderlineStyle::Curly
    } else if code == 4 {
        UnderlineStyle::Dotted
    } else if code == 5 {
        UnderlineStyle::Dashed
    } else {
        UnderlineStyle::Off
    }
}

spec fn bit_if(v: bool, bit: u8) -> u8 {
    if v {
        bit
    } else {
        0
    }
}

spec fn flag_byte(style: Style) -> u8 {
    bit_if(style.bold, 1) | bit_if(style.italic, 2) | underline_code(style.underline) | bit_if(
        style.inverse,
        32,
    ) | bit_if(style.dim, 64) | bit_if(style.strikethrough, 128)
}

spec fn wide_byte(style: Style) -> u8 {
    bit_if(style.wide, 1) | bit_if(style.wide_continuation, 2)
}

spec fn style_from(f: u8, w: u8) -> Style {
    Style {
        bold: f & 1 != 0,
        italic: f & 2 != 0,
        underline: underline_from((f >> 2) & 7),
        inverse: f & 32 != 0,
        dim: f & 64 != 0,
        blink: false,
        strikethrough: f & 128 != 0,
        wide: w & 1 != 0,
        wide_continuation: w & 2 != 0,
    }
}

proof fn lemma_flag_bits(b: u8, i: u8, u: u8, v: u8, d: u8, s: u8)
    by (bit_vector)
    requires
        b == 0 || b == 1,
        i == 0 || i == 2,
        u == 0 || u == 4 || u == 8 || u == 12 || u == 16 || u == 20,
        v == 0 || v == 32,
        d == 0 || d == 64,
        s == 0 || s == 128,
    ensures
        ((b | i | u | v | d | s) & 1) == b,
        ((b | i | u | v | d | s) & 2) == i,
        (((b | i | u | v | d | s) >> 2) & 7) * 4 == u,
        ((b | i | u | v | d | s) & 32) == v,
        ((b | i | u | v | d | s) & 64) == d,
        ((b | i | u | v | d | s) & 128) == s,
{
}

proof fn lemma_wide_bits(w: u8, c: u8)
    by (bit_vector)
    requires
        w == 0 || w == 1,
        c == 0 || c == 2,
    ensures
        ((w | c) & 1) == w,
        ((w | c) & 2) == c,
{
}

/// The two style bytes carry every attribute but blink.
proof fn lemma_style_round_trip(style: Style)
    ensures
        style_from(flag_byte(style), wide_byte(style)) == (Style { blink: false, ..style }),
{
    lemma_flag_bits(
        bit_if(style.bold, 1),
        bit_if(style.italic, 2),
        underline_code(style.underline),
        bit_if(style.inverse, 32),
        bit_if(style.dim, 64),
        bit_if(style.strikethrough, 128),
    );
    lemma_wide_bits(bit_if(style.wide, 1), bit_if(style.wide_continuation, 2));
}

spec fn char_bytes(c: char) -> Seq<u8> {
    encode_utf8(seq![c])
}

proof fn lemma_char_bytes(c: char)
    ensures
        1 <= char_bytes(c).len() <= 4,
        first_char(char_bytes(c)) == c,
{
    let chars = seq![c];
    assert(chars.drop_first() =~= Seq::<char>::empty());
    assert(encode_utf8(chars.drop_first()) =~= Seq::<u8>::empty());
    assert(char_bytes(c) =~= encode_scalar(c as u32));
    vstd::utf8::encode_utf8_valid_utf8(chars);
    vstd::utf8::encode_utf8_decode_utf8(chars);
}

spec fn first_char(bytes: Seq<u8>) -> char {
    if valid_utf8(bytes) && decode_utf8(bytes).len() > 0 {
        decode_utf8(bytes)[0]
    } else {
        ' '
    }
}

spec fn run_bytes(cell: TerminalCell, run: u8) -> Seq<u8> {
    seq![char_bytes(cell.character).len() as u8] + char_bytes(cell.character) + color_bytes(
        cell.foreground,
    ) + color_bytes(cell.background) + seq![flag_byte(cell.flags@), wide_byte(cell.flags@), run]
}

/// The first run of some encoded data: its cell, its length and what follows it.
spec fn first_run(data: Seq<u8>) -> (TerminalCell, nat, int) {
    let n = data[0] as int;
    let (fg, p1) = color_at(data, 1 + n);
    let (bg, p2) = color_at(data, p1);
    let f = byte_at(data, p2, 0);
    let w = byte_at(data, advance(data, p2, 1), 0);
    let run = byte_at(data, advance(data, p2, 2), 1);
    (
        TerminalCell {
            character: first_char(data.subrange(1, 1 + n)),
            foreground: fg,
            background: bg,
            flags: StyleFlags::of_style(style_from(f, w)),
        },
        if run == 0 {
            1
        } else {
            run as nat
        },
        advance(data, p2, 3),
    )
}

proof fn lemma_color_advances(data: Seq<u8>, pos: int)
    requires
        0 <= pos <= data.len(),
    ensures
        pos <= color_at(data, pos).1 <= data.len(),
{
}

proof fn lemma_first_run_advances(data: Seq<u8>)
    requires
        data.len() > 0,
        1 + data[0] <= data.len(),
    ensures
        1 <= first_run(data).2 <= data.len(),
{
    let n = data[0] as int;
    lemma_color_advances(data, 1 + n);
    lemma_color_advances(data, color_at(data, 1 + n).1);
}

spec fn decode_runs(data: Seq<u8>) -> Seq<TerminalCell>
    decreases data.len(),
{
    if data.len() == 0 || 1 + data[0] > data.len() {
        Seq::empty()
    } else {
        proof {
            lemma_first_run_advances(data);
        }
        let (cell, run, next) = first_run(data);
        line_of(cell, run) + decode_runs(data.subrange(next, data.len() as int))
    }
}

proof fn lemma_color_round_trip(data: Seq<u8>, pos: int, color: Color)
    requires
        0 <= pos,
        pos + color_bytes(color).len() < data.len(),
        data.subrange(pos, pos + color_bytes(color).len()) == color_bytes(color),
    ensures
        color_at(data, pos) == (color, pos + color_bytes(color).len() as int),
{
    let bytes = data.subrange(pos, pos + color_bytes(color).len());
    assert(bytes[0] == data[pos]);
    if bytes.len() >= 2 {
        assert(bytes[1] == data[pos + 1]);
    }
    if bytes.len() >= 4 {
        assert(bytes[2] == data[pos + 2]);
        assert(bytes[3] == data[pos + 3]);
    }
}

/// Decoding an encoded run gives the run back, and goes on behind it.
proof fn lemma_run_round_trip(cell: TerminalCell, run: u8, rest: Seq<u8>)
    requires
        run >= 1,
    ensures
        decode_runs(run_bytes(cell, run) + rest) == line_of(kept_cell(cell), run as nat)
            + decode_runs(rest),
{
    let u = char_bytes(cell.character);
    let fg = color_bytes(cell.foreground);
    let bg = color_bytes(cell.background);
    let style = cell.flags@;
    let data = run_bytes(cell, run) + rest;
    lemma_char_bytes(cell.character);
    let n = u.len() as int;
    assert(data[0] == n);
    assert(data.subrange(1, 1 + n) =~= u);
    let p0 = 1 + n;
    let p1 = p0 + fg.len();
    let p2 = p1 + bg.len();
    assert(data.subrange(p0, p1) =~= fg);
    assert(data.subrange(p1, p2) =~= bg);
    lemma_color_round_trip(data, p0, cell.foreground);
    lemma_color_round_trip(data, p1, cell.background);
    assert(data[p2] == flag_byte(style));
    assert(data[p2 + 1] == wide_byte(style));
    assert(data[p2 + 2] == run);
    lemma_style_round_trip(style);
    lemma_first_run_advances(data);
    assert(data.subrange(p2 + 3, data.len() as int) =~= rest);
    assert(first_run(data) == (kept_cell(cell), run as nat, p2 + 3));
}

/// Some runs, one after the other.
spec fn encode_runs(runs: Seq<(TerminalCell, u8)>) -> Seq<u8>
    decreases runs.len(),
{
    if runs.len() == 0 {
        Seq::empty()
    } else {
        run_bytes(runs[0].0, runs[0].1) + encode_runs(runs.drop_first())
    }
}

spec fn expand_runs(runs: Seq<(TerminalCell, u8)>) -> Seq<TerminalCell>
    decreases runs.len(),
{
    if runs.len() == 0 {
        Seq::empty()
    } else {
        line_of(runs[0].0, runs[0].1 as nat) + expand_runs(runs.drop_first())
    }
}

proof fn lemma_runs_push(runs: Seq<(TerminalCell, u8)>, cell: TerminalCell, run: u8)
    ensures
        encode_runs(runs.push((cell, run))) == encode_runs(runs) + run_bytes(cell, run),
        expand_runs(runs.push((cell, run))) == expand_runs(runs) + line_of(cell, run as nat),
    decreases runs.len(),
{
    let more = runs.push((cell, run));
    if runs.len() == 0 {
        reveal_with_fuel(encode_runs, 2);
        reveal_with_fuel(expand_runs, 2);
        assert(more.drop_first() =~= runs);
        assert(encode_runs(more) =~= run_bytes(cell, run));
        assert(expand_runs(more) =~= line_of(cell, run as nat));
        assert(encode_runs(runs) + run_bytes(cell, run) =~= run_bytes(cell, run));
        assert(expand_runs(runs) + line_of(cell, run as nat) =~= line_of(cell, run as nat));
    } else {
        assert(more.drop_first() =~= runs.drop_first().push((cell, run)));
        lemma_runs_push(runs.drop_first(), cell, run);
        assert(encode_runs(more) =~= encode_runs(runs) + run_bytes(cell, run));
        assert(expand_runs(more) =~= expand_runs(runs) + line_of(cell, run as nat));
    }
}

/// Decoding what was encoded gives every cell back, as the scrollback keeps it.
proof fn lemma_round_trip(runs: Seq<(TerminalCell, u8)>)
    requires
        forall|i: int| 0 <= i < runs.len() ==> (#[trigger] runs[i]).1 >= 1,
    ensures
        decode_runs(encode_runs(runs)) == kept(expand_runs(runs)),
    decreases runs.len(),
{
    if runs.len() == 0 {
        assert(kept(expand_runs(runs)) =~= Seq::<TerminalCell>::empty());
    } else {
        let rest = runs.drop_first();
        assert forall|i: int| 0 <= i < rest.len() implies (#[trigger] rest[i]).1 >= 1 by {
            assert(rest[i] == runs[i + 1]);
        }
        lemma_round_trip(rest);
        lemma_run_round_trip(runs[0].0, runs[0].1, encode_runs(rest));
        assert(kept(expand_runs(runs)) =~= line_of(kept_cell(runs[0].0), runs[0].1 as nat) + kept(
            expand_runs(rest),
        ));
    }
}

/// Cut or filled with blanks to a given length.
spec fn padded(cells: Seq<TerminalCell>, n: nat) -> Seq<TerminalCell> {
    Seq::new(
        n,
        |i: int|
            if i < cells.len() {
                cells[i]
            } else {
                TerminalCell::blank()
            },
    )
}

spec fn plain_cell(c: char) -> TerminalCell {
    TerminalCell { character: c, ..TerminalCell::blank() }
}

impl View for ScrollbackLine {
    type V = LineModel;

    closed spec fn view(&self) -> LineModel {
        LineModel {
            cells: match self.data {
                CompressedLineData::Plain(text, trailing) => Seq::new(
                    text@.len(),
                    |i: int| plain_cell(text@[i]),
                ) + line_of(TerminalCell::blank(), trailing as nat),
                CompressedLineData::Encoded(bytes) => padded(
                    decode_runs(bytes@),
                    self.cols as nat,
                ),
            },
            wrapped: self.is_wrapped,
        }
    }
}

/// No attribute, no colour, no part of a wide character.
fn is_plain(cell: &TerminalCell) -> (v: bool)
    ensures
        v == (cell.foreground == Color::Default && cell.background == Color::Default
            && cell.flags.rendition_is_zero() && !cell.flags@.wide
            && !cell.flags@.wide_continuation),
        cell.flags.canonical() ==> v == (cell.foreground == Color::Default && cell.background
            == Color::Default && cell.flags@ == Style::plain()),
        v ==> kept_cell(*cell) == plain_cell(cell.character),
{
    let v = cell.foreground == Color::Default && cell.background == Color::Default
        && cell.flags.is_default_style() && !cell.flags.wide() && !cell.flags.wide_continuation();
    proof {
        if v {
            lemma_plain_is_none();
            assert(Style { blink: false, ..cell.flags@ } == Style::plain());
        }
    }
    v
}

impl ScrollbackLine {
    /// Stores a line. What [`ScrollbackLine::decompress`] gives back are the same
    /// cells; only a blink attribute is not kept. A line has at most as many
    /// columns as sixteen bits can count.
    pub fn compress(cells: &[TerminalCell], is_wrapped: bool) -> (line: Self)
        requires
            cells@.len() <= u16::MAX,
        ensures
            line@ == (LineModel { cells: kept(cells@), wrapped: is_wrapped }),
    {
        let cols: u16 = cells.len() as u16;
        let mut active: usize = cells.len();
        while active > 0 && cells[active - 1].character == ' ' && is_plain(&cells[active - 1])
            invariant
                active <= cells@.len(),
                forall|k: int|
                    active <= k < cells@.len() ==> #[trigger] kept_cell(cells@[k])
                        == TerminalCell::blank(),
            decreases active,
        {
            proof {
                assert(plain_cell(' ') == TerminalCell::blank());
            }
            active = active - 1;
        }
        let trailing: u16 = (cells.len() - active) as u16;

        let mut i: usize = 0;
        let mut text = String::new();
        let mut all_plain = true;
        while i < active && all_plain
            invariant
                i <= active <= cells@.len(),
                text@.len() == i,
                forall|k: int|
                    0 <= k < i ==> plain_cell(#[trigger] text@[k]) == kept_cell(cells@[k]),
            decreases
                active - i + (if all_plain {
                    1int
                } else {
                    0int
                }),
        {
            if is_plain(&cells[i]) {
                text.push(cells[i].character);
                i = i + 1;
            } else {
                all_plain = false;
            }
        }
        if all_plain {
            let line = ScrollbackLine {
                data: CompressedLineData::Plain(text, trailing),
                is_wrapped,
                cols,
            };
            proof {
                assert(line@.cells =~= kept(cells@));
            }
            line
        } else {
            let active_cells = vstd::slice::slice_subrange(cells, 0, active);
            let encoded = Self::encode_cells(active_cells);
            let line = ScrollbackLine {
                data: CompressedLineData::Encoded(encoded),
                is_wrapped,
                cols,
            };
            proof {
                assert(line@.cells =~= kept(cells@));
            }
            line
        }
    }

    /// The cells of the line.
    pub fn decompress(&self) -> (cells: Vec<TerminalCell>)
        ensures
            cells@ == self@.cells,
    {
        match &self.data {
            CompressedLineData::Plain(text, trailing) => {
                let mut cells: Vec<TerminalCell> = Vec::new();
                let chars = crate::text::chars_of(text.as_str());
                let mut i: usize = 0;
                while i < chars.len()
                    invariant
                        i <= chars@.len(),
                        cells@.len() == i,
                        forall|k: int| 0 <= k < i ==> #[trigger] cells@[k] == plain_cell(chars@[k]),
                    decreases chars@.len() - i,
                {
                    let mut cell = TerminalCell::default();
                    cell.character = chars[i];
                    cells.push(cell);
                    i = i + 1;
                }
                let mut j: u16 = 0;
                while j < *trailing
                    invariant
                        j <= *trailing,
                        cells@.len() == chars@.len() + j,
                        forall|k: int|
                            0 <= k < cells@.len() ==> #[trigger] cells@[k] == (if k < chars@.len() {
                                plain_cell(chars@[k])
                            } else {
                                TerminalCell::blank()
                            }),
                    decreases *trailing - j,
                {
                    cells.push(TerminalCell::default());
                    j = j + 1;
                }
                proof {
                    assert(cells@ =~= self@.cells);
                }
                cells
            },
            CompressedLineData::Encoded(data) => Self::decode_cells(
                data.as_slice(),
                self.cols as usize,
            ),
        }
    }

    /// The cells of the line.
    pub fn cells(&self) -> (cells: Vec<TerminalCell>)
        ensures
            cells@ == self@.cells,
    {
        self.decompress()
    }

    /// Whether the text on the line continues on the next one.
    pub(crate) fn wraps(&self) -> (v: bool)
        ensures
            v == self@.wrapped,
    {
        self.is_wrapped
    }

    fn encode_color(color: &Color, buf: &mut Vec<u8>)
        ensures
            final(buf)@ == old(buf)@ + color_bytes(*color),
    {
        match color {
            Color::Default => buf.push(0),
            Color::Black => buf.push(1),
            Color::Red => buf.push(2),
            Color::Green => buf.push(3),
            Color::Yellow => buf.push(4),
            Color::Blue => buf.push(5),
            Color::Magenta => buf.push(6),
            Color::Cyan => buf.push(7),
            Color::White => buf.push(8),
            Color::BrightBlack => buf.push(9),
            Color::BrightRed => buf.push(10),
            Color::BrightGreen => buf.push(11),
            Color::BrightYellow => buf.push(12),
            Color::BrightBlue => buf.push(13),
            Color::BrightMagenta => buf.push(14),
            Color::BrightCyan => buf.push(15),
            Color::BrightWhite => buf.push(16),
            Color::Indexed(i) => {
                buf.push(17);
                buf.push(*i);
            },
            Color::Rgb(r, g, b) => {
                buf.push(18);
                buf.push(*r);
                buf.push(*g);
                buf.push(*b);
            },
        }
        proof {
            assert(buf@ =~= old(buf)@ + color_bytes(*color));
        }
    }

    fn decode_color(data: &[u8], pos: &mut usize) -> (color: Color)
        requires
            *old(pos) <= data@.len(),
        ensures
            (color, *final(pos) as int) == color_at(data@, *old(pos) as int),
            *old(pos) <= *final(pos) <= data@.len(),
    {
        if *pos >= data.len() {
            return Color::Default;
        }
        let tag: u8 = data[*pos];
        let start: usize = *pos;
        *pos = step(data, start, 1);
        match tag {
            1 => Color::Black,
            2 => Color::Red,
            3 => Color::Green,
            4 => Color::Yellow,
            5 => Color::Blue,
            6 => Color::Magenta,
            7 => Color::Cyan,
            8 => Color::White,
            9 => Color::BrightBlack,
            10 => Color::BrightRed,
            11 => Color::BrightGreen,
            12 => Color::BrightYellow,
            13 => Color::BrightBlue,
            14 => Color::BrightMagenta,
            15 => Color::BrightCyan,
            16 => Color::BrightWhite,
            17 => {
                let i: u8 = peek(data, *pos, 0);
                *pos = step(data, start, 2);
                Color::Indexed(i)
            },
            18 => {
                let r: u8 = peek(data, *pos, 0);
                let g: u8 = peek(data, step(data, start, 2), 0);
                let b: u8 = peek(data, step(data, start, 3), 0);
                *pos = step(data, start, 4);
                Color::Rgb(r, g, b)
            },
            _ => Color::Default,
        }
    }

    fn encode_flags(flags: &StyleFlags) -> (f: u8)
        ensures
            f == flag_byte(flags@),
    {
        let b: u8 = if flags.bold() {
            1
        } else {
            0
        };
        let i: u8 = if flags.italic() {
            2
        } else {
            0
        };
        let u: u8 = match flags.underline() {
            UnderlineStyle::Off => 0,
            UnderlineStyle::Single => 4,
            UnderlineStyle::Double => 8,
            UnderlineStyle::Curly => 12,
            UnderlineStyle::Dotted => 16,
            UnderlineStyle::Dashed => 20,
        };
        let v: u8 = if flags.inverse() {
            32
        } else {
            0
        };
        let d: u8 = if flags.dim() {
            64
        } else {
            0
        };
        let s: u8 = if flags.strikethrough() {
            128
        } else {
            0
        };
        b | i | u | v | d | s
    }

    fn decode_flags(f: u8, wide_bits: u8) -> (flags: StyleFlags)
        ensures
            flags == StyleFlags::of_style(style_from(f, wide_bits)),
    {
        let underline = match (f >> 2) & 0x7 {
            1 => UnderlineStyle::Single,
            2 => UnderlineStyle::Double,
            3 => UnderlineStyle::Curly,
            4 => UnderlineStyle::Dotted,
            5 => UnderlineStyle::Dashed,
            _ => UnderlineStyle::Off,
        };
        let mut flags = StyleFlags::new();
        flags.set_bold(f & 1 != 0);
        flags.set_italic(f & 2 != 0);
        flags.set_underline(underline);
        flags.set_inverse(f & 32 != 0);
        flags.set_dim(f & 64 != 0);
        flags.set_strikethrough(f & 128 != 0);
        flags.set_wide(wide_bits & 1 != 0);
        flags.set_wide_continuation(wide_bits & 2 != 0);
        proof {
            StyleFlags::of_style_has_style(style_from(f, wide_bits));
            StyleFlags::attributes_determine_flags(
                flags,
                StyleFlags::of_style(style_from(f, wide_bits)),
            );
        }
        flags
    }

    fn encode_cells(cells: &[TerminalCell]) -> (buf: Vec<u8>)
        ensures
            decode_runs(buf@) == kept(cells@),
    {
        let mut buf: Vec<u8> = Vec::new();
        let ghost mut runs: Seq<(TerminalCell, u8)> = Seq::empty();
        let mut i: usize = 0;
        proof {
            assert(cells@.subrange(0, 0) =~= Seq::<TerminalCell>::empty());
        }
        while i < cells.len()
            invariant
                i <= cells@.len(),
                buf@ == encode_runs(runs),
                expand_runs(runs) == cells@.subrange(0, i as int),
                forall|k: int| 0 <= k < runs.len() ==> (#[trigger] runs[k]).1 >= 1,
            decreases cells@.len() - i,
        {
            let cell = cells[i];
            // Count consecutive identical cells.
            let mut run: u8 = 1;
            while run < 255 && (run as usize) < cells.len() - i && cells[i + run as usize].character
                == cell.character && cells[i + run as usize].foreground == cell.foreground && cells[i
                + run as usize].background == cell.background && cells[i + run as usize].flags
                == cell.flags
                invariant
                    i < cells@.len(),
                    1 <= run <= cells@.len() - i,
                    cell == cells@[i as int],
                    forall|k: int| i <= k < i + run ==> #[trigger] cells@[k] == cell,
                decreases 255 - run,
            {
                run = run + 1;
            }
            let ghost before = buf@;
            let mut one = String::new();
            one.push(cell.character);
            proof {
                assert(one@ =~= seq![cell.character]);
                lemma_char_bytes(cell.character);
            }
            let bytes = one.as_str().as_bytes();
            buf.push(bytes.len() as u8);
            crate::text::push_bytes(&mut buf, bytes);
            Self::encode_color(&cell.foreground, &mut buf);
            Self::encode_color(&cell.background, &mut buf);
            let f: u8 = Self::encode_flags(&cell.flags);
            buf.push(f);
            let w: u8 = if cell.flags.wide() {
                1
            } else {
                0
            };
            let c: u8 = if cell.flags.wide_continuation() {
                2
            } else {
                0
            };
            buf.push(w | c);
            buf.push(run);
            proof {
                assert(buf@ =~= before + run_bytes(cell, run));
                lemma_runs_push(runs, cell, run);
                assert(cells@.subrange(0, i as int) + line_of(cell, run as nat) =~= cells@.subrange(
                    0,
                    i + run,
                ));
                runs = runs.push((cell, run));
            }
            i = i + run as usize;
        }
        proof {
            assert(cells@.subrange(0, i as int) =~= cells@);
            lemma_round_trip(runs);
        }
        buf
    }

    fn decode_cells(data: &[u8], cols: usize) -> (cells: Vec<TerminalCell>)
        ensures
            cells@ == padded(decode_runs(data@), cols as nat),
    {
        let mut cells: Vec<TerminalCell> = Vec::new();
        let mut rest: &[u8] = data;
        proof {
            assert(cells@ + decode_runs(data@) =~= decode_runs(data@));
        }
        while rest.len() > 0 && rest[0] as usize <= rest.len() - 1
            invariant
                cells@ + decode_runs(rest@) == decode_runs(data@),
            decreases rest@.len(),
        {
            proof {
                lemma_first_run_advances(rest@);
            }
            let n: usize = rest[0] as usize;
            let mut pos: usize = 1 + n;
            let bytes = crate::text::copy_bytes(vstd::slice::slice_subrange(rest, 1, pos));
            let ch: char = match utf8_text(bytes) {
                Some(s) => {
                    let chars = crate::text::chars_of(s.as_str());
                    if chars.len() > 0 {
                        chars[0]
                    } else {
                        ' '
                    }
                },
                None => ' ',
            };
            let fg = Self::decode_color(rest, &mut pos);
            let bg = Self::decode_color(rest, &mut pos);
            let f: u8 = peek(rest, pos, 0);
            let w: u8 = peek(rest, step(rest, pos, 1), 0);
            let mut run: u8 = peek(rest, step(rest, pos, 2), 1);
            if run == 0 {
                run = 1;
            }
            let next: usize = step(rest, pos, 3);
            let flags = Self::decode_flags(f, w);
            let cell = TerminalCell { character: ch, foreground: fg, background: bg, flags };
            proof {
                assert(first_run(rest@) == (cell, run as nat, next as int));
            }
            let ghost before = cells@;
            let mut j: u8 = 0;
            while j < run
                invariant
                    j <= run,
                    cells@ == before + line_of(cell, j as nat),
                decreases run - j,
            {
                proof {
                    assert((before + line_of(cell, j as nat)).push(cell) =~= before + line_of(
                        cell,
                        (j + 1) as nat,
                    ));
                }
                cells.push(cell);
                j = j + 1;
            }
            let tail = vstd::slice::slice_subrange(rest, next, rest.len());
            proof {
                assert(before + (line_of(cell, run as nat) + decode_runs(tail@)) =~= (before
                    + line_of(cell, run as nat)) + decode_runs(tail@));
            }
            rest = tail;
        }
        proof {
            assert(cells@ + Seq::<TerminalCell>::empty() =~= cells@);
        }
        // Bring the line to its width.
        let ghost decoded = cells@;
        while cells.len() > cols
            invariant
                cells@.len() <= decoded.len(),
                cells@ == decoded.subrange(0, cells@.len() as int),
                decoded.len() > cols ==> cells@.len() >= cols,
                decoded.len() <= cols ==> cells@.len() == decoded.len(),
            decreases cells@.len(),
        {
            cells.pop();
        }
        while cells.len() < cols
            invariant
                cells@.len() <= cols,
                forall|k: int|
                    0 <= k < cells@.len() ==> #[trigger] cells@[k] == (if k < decoded.len() {
                        decoded[k]
                    } else {
                        TerminalCell::blank()
                    }),
                cells@.len() >= decoded.len() || cells@.len() == cols,
            decreases cols - cells@.len(),
        {
            cells.push(TerminalCell::default());
        }
        proof {
            assert(cells@ =~= padded(decoded, cols as nat));
        }
        cells
    }
}

fn peek(data: &[u8], pos: usize, missing: u8) -> (v: u8)
    ensures
        v == byte_at(data@, pos as int, missing),
{
    if pos < data.len() {
        data[pos]
    } else {
        missing
    }
}

fn step(data: &[u8], pos: usize, by: usize) -> (next: usize)
    requires
        pos <= data@.len(),
    ensures
        next == advance(data@, pos as int, by as int),
        next <= data@.len(),
{
    if by < data.len() - pos {
        pos + by
    } else {
        data.len()
    }
}

} // verus!
