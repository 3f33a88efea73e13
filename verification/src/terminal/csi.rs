//! CSI sequences: from parameters and a final byte to what they do.

use super::model::{low_byte, next_stops, prev_stops, TerminalModel};
use super::params::{param_values, ParamList};
use super::rendition::{add_digit, more_digits, sgr_groups};
use super::state::TerminalState;
use crate::cell::CursorShape;
use crate::text::{decimal, push_decimal, push_text};
use vstd::prelude::*;
use vstd::utf8::encode_utf8;

verus! {

/// Numeric parameters: `;` or `:` ends a field, an empty field is left out, other
/// bytes are ignored. `current` is the field being read, if it has digits.
pub open spec fn csi_params_from(bytes: Seq<u8>, current: u16, has_digits: bool) -> Seq<u16>
    decreases bytes.len(),
{
    if bytes.len() == 0 {
        if has_digits {
            seq![current]
        } else {
            Seq::empty()
        }
    } else {
        let b = bytes[0];
        let rest = bytes.drop_first();
        if 48 <= b <= 57 {
            csi_params_from(rest, more_digits(current, b), true)
        } else if b == 58 || b == 59 {
            (if has_digits {
                seq![current]
            } else {
                Seq::empty()
            }) + csi_params_from(rest, 0, false)
        } else {
            csi_params_from(rest, current, has_digits)
        }
    }
}

pub open spec fn csi_params(bytes: Seq<u8>) -> Seq<u16> {
    csi_params_from(bytes, 0, false)
}

/// Parameter `i`, or a default where it is missing.
pub open spec fn arg(params: Seq<u16>, i: int, default: u16) -> u16 {
    if i < params.len() {
        params[i]
    } else {
        default
    }
}

/// A repeat count: the first parameter, and at least one.
pub open spec fn count(params: Seq<u16>) -> u16 {
    if arg(params, 0, 1) == 0 {
        1
    } else {
        arg(params, 0, 1)
    }
}

fn get_arg(params: &[u16], i: usize, default: u16) -> (v: u16)
    ensures
        v == arg(params@, i as int, default),
{
    if i < params.len() {
        params[i]
    } else {
        default
    }
}

fn get_count(params: &[u16]) -> (n: usize)
    ensures
        n == count(params@),
        1 <= n <= u16::MAX,
{
    let n: u16 = get_arg(params, 0, 1);
    if n == 0 {
        1
    } else {
        n as usize
    }
}

/// The reply to a primary device attributes request.
pub open spec fn primary_attributes() -> Seq<u8> {
    encode_utf8("\x1b[?65;1;9c"@)
}

/// The reply to a secondary device attributes request.
pub open spec fn secondary_attributes() -> Seq<u8> {
    encode_utf8("\x1b[>1;7802;0c"@)
}

/// The reply to a version request.
pub open spec fn version_report() -> Seq<u8> {
    encode_utf8("\x1bP>|VTE(7802)\x1b\\"@)
}

impl TerminalModel {
    /// CSI J: erase in the display.
    #[verifier::opaque]
    pub open spec fn csi_erase_display(self, what: u16) -> Self {
        if what == 0 {
            self.erased_below()
        } else if what == 1 {
            self.erased_above()
        } else if what == 2 {
            self.erased_screen()
        } else if what == 3 {
            TerminalModel { scrollback: Seq::empty(), scroll_offset: 0, ..self }
        } else {
            self
        }
    }

    /// CSI K: erase in the line.
    #[verifier::opaque]
    pub open spec fn csi_erase_line(self, what: u16) -> Self {
        if what == 0 {
            self.erased_in_line(self.cursor_col, self.cols())
        } else if what == 1 {
            self.erased_up_to_cursor()
        } else if what == 2 {
            self.erased_line()
        } else {
            self
        }
    }

    /// CSI g: clear tab stops.
    #[verifier::opaque]
    pub open spec fn csi_clear_tabs(self, what: u16) -> Self {
        if what == 0 {
            self.tab_stop_at_cursor(false)
        } else if what == 3 {
            TerminalModel {
                tab_stops: Seq::new(self.tab_stops.len(), |c: int| false),
                ..self
            }
        } else {
            self
        }
    }

    /// CSI u: restore the cursor, or one of the keyboard protocol's requests.
    #[verifier::opaque]
    pub open spec fn csi_keyboard(self, params: Seq<u16>, prefix: Option<u8>) -> Self {
        match prefix {
            None => self.cursor_restored(),
            Some(63) => self.replied(
                encode_utf8("\x1b[?"@) + decimal(self.keyboard_flags as nat) + encode_utf8("u"@),
            ),
            Some(61) => self.keyboard_flags_set(arg(params, 0, 0), arg(params, 1, 1)),
            Some(62) => self.keyboard_flags_pushed(arg(params, 0, 0)),
            Some(60) => self.keyboard_flags_popped(
                if arg(params, 0, 1) == 0 {
                    1
                } else {
                    arg(params, 0, 1) as nat
                },
            ),
            _ => self,
        }
    }

    /// CSI n: status reports.
    #[verifier::opaque]
    pub open spec fn csi_status(self, what: u16) -> Self {
        if what == 5 {
            self.replied(encode_utf8("\x1b[0n"@))
        } else if what == 6 {
            self.replied(
                encode_utf8("\x1b["@) + decimal((self.cursor_row + 1) as nat) + encode_utf8(";"@)
                    + decimal((self.cursor_col + 1) as nat) + encode_utf8("R"@),
            )
        } else {
            self
        }
    }

    /// CSI c: device attributes.
    #[verifier::opaque]
    pub open spec fn csi_attributes(self, prefix: Option<u8>) -> Self {
        match prefix {
            None => self.replied(primary_attributes()),
            Some(62) => self.replied(secondary_attributes()),
            _ => self,
        }
    }

    /// CSI p: soft reset, or whether paste events are on.
    #[verifier::opaque]
    pub open spec fn csi_request(
        self,
        params: Seq<u16>,
        prefix: Option<u8>,
        intermediates: Seq<u8>,
    ) -> Self {
        if intermediates == seq![33u8] && prefix is None {
            self.soft_reset()
        } else if prefix == Some(63u8) && intermediates == seq![36u8] && params.len() > 0
            && params[0] == 5522 {
            self.replied(
                encode_utf8("\x1b[?5522;"@) + encode_utf8(
                    (if self.has(5522) {
                        "1"
                    } else {
                        "2"
                    })@,
                ) + encode_utf8("$y"@),
            )
        } else {
            self
        }
    }

    /// CSI r: the scroll region; the cursor goes to the top left.
    #[verifier::opaque]
    pub open spec fn csi_region(self, params: Seq<u16>) -> Self {
        let last = self.rows() - 1;
        let first_arg = arg(params, 0, 1);
        let second_arg = arg(params, 1, self.rows() as u16);
        let t = if first_arg > 0 {
            first_arg - 1
        } else {
            0
        };
        let b = if second_arg > 0 {
            second_arg - 1
        } else {
            0
        };
        let top = if t < last {
            t
        } else {
            last
        };
        let bottom = if b < last {
            b
        } else {
            last
        };
        TerminalModel {
            scroll_region_top: if top > bottom {
                0
            } else {
                top
            },
            scroll_region_bottom: if top > bottom {
                last
            } else {
                bottom
            },
            cursor_row: 0,
            cursor_col: 0,
            ..self
        }
    }

    /// CSI q: the version, or the cursor shape.
    #[verifier::opaque]
    pub open spec fn csi_shape(
        self,
        params: Seq<u16>,
        prefix: Option<u8>,
        intermediates: Seq<u8>,
    ) -> Self {
        if prefix == Some(62u8) && intermediates.len() == 0 && arg(params, 0, 0) == 0 {
            self.replied(version_report())
        } else if prefix is None && intermediates == seq![32u8] {
            let shape = low_byte(arg(params, 0, 0));
            TerminalModel {
                cursor_shape: if shape == 2 {
                    CursorShape::Underline
                } else if shape == 3 {
                    CursorShape::Beam
                } else {
                    CursorShape::Block
                },
                ..self
            }
        } else {
            self
        }
    }

    /// CSI m: rendition, or xterm's modifyOtherKeys.
    #[verifier::opaque]
    pub open spec fn csi_rendition(
        self,
        params: Seq<u16>,
        raw: Seq<u8>,
        prefix: Option<u8>,
        intermediates: Seq<u8>,
    ) -> Self {
        if prefix == Some(62u8) && intermediates.len() == 0 {
            if arg(params, 0, 0) == 4 {
                TerminalModel { modify_other_keys: arg(params, 1, 0), ..self }
            } else {
                self
            }
        } else {
            self.rendered(sgr_groups(raw))
        }
    }

    /// CSI f: the cursor, or xterm's formatOtherKeys.
    #[verifier::opaque]
    pub open spec fn csi_position(
        self,
        params: Seq<u16>,
        prefix: Option<u8>,
        intermediates: Seq<u8>,
    ) -> Self {
        if prefix == Some(62u8) && intermediates.len() == 0 {
            if arg(params, 0, 0) == 4 {
                TerminalModel { format_other_keys: arg(params, 1, 0), ..self }
            } else {
                self
            }
        } else {
            self.cursor_placed(arg(params, 0, 1) as int, arg(params, 1, 1) as int)
        }
    }

    /// The column `n` to the right of the cursor, no further than the last one.
    pub open spec fn col_right(self, n: int) -> int {
        if self.cursor_col + n < self.cols() - 1 {
            self.cursor_col + n
        } else {
            self.cols() - 1
        }
    }

    /// The column `n` to the left of the cursor, no further than the first one.
    pub open spec fn col_left(self, n: int) -> int {
        if self.cursor_col > n {
            self.cursor_col - n
        } else {
            0
        }
    }

    /// Cursor movement.
    #[verifier::opaque]
    pub open spec fn csi_move(self, cmd: char, params: Seq<u16>) -> Self {
        let n = count(params) as int;
        match cmd {
            'A' => self.with_row(self.row_above(n)),
            'B' => self.with_row(self.row_below(n)),
            'C' => self.with_col(self.col_right(n)),
            'D' => self.with_col(self.col_left(n)),
            'E' => self.with_row(self.row_below(n)).with_col(0),
            'F' => self.with_row(self.row_above(n)).with_col(0),
            'G' | '`' => self.with_col(self.addressed_col(arg(params, 0, 1) as int)),
            'd' => self.with_row(self.addressed_row(arg(params, 0, 1) as int)),
            'I' => self.with_col(next_stops(self.tab_stops, self.cursor_col, n as nat)),
            'Z' => self.with_col(prev_stops(self.tab_stops, self.cursor_col, n as nat)),
            _ => self,
        }
    }

    /// A whole CSI sequence: its parameters (as numbers and as they were written),
    /// its final character, its private prefix and its intermediate bytes.
    #[verifier::opaque]
    pub open spec fn csi(
        self,
        params: Seq<u16>,
        raw: Seq<u8>,
        cmd: char,
        prefix: Option<u8>,
        intermediates: Seq<u8>,
    ) -> Self {
        let n = count(params) as nat;
        match cmd {
            'A' | 'B' | 'C' | 'D' | 'E' | 'F' | 'G' | '`' | 'd' | 'I' | 'Z' => self.csi_move(
                cmd,
                params,
            ),
            'b' => match self.last_printed_char {
                Some(ch) => self.printed_times(ch, n),
                None => self,
            },
            'g' => self.csi_clear_tabs(arg(params, 0, 0)),
            'H' => self.cursor_placed(arg(params, 0, 1) as int, arg(params, 1, 1) as int),
            'f' => self.csi_position(params, prefix, intermediates),
            'J' => self.csi_erase_display(arg(params, 0, 0)),
            'K' => self.csi_erase_line(arg(params, 0, 0)),
            'L' => self.lines_inserted(n),
            'M' => self.lines_deleted(n),
            'm' => self.csi_rendition(params, raw, prefix, intermediates),
            's' => if prefix is None && intermediates.len() == 0 {
                self.cursor_saved()
            } else {
                self
            },
            'u' => if intermediates.len() == 0 {
                self.csi_keyboard(params, prefix)
            } else {
                self
            },
            'S' => self.region_up_times(n),
            'T' => self.region_down_times(n),
            'n' => self.csi_status(arg(params, 0, 0)),
            'c' => if intermediates.len() == 0 {
                self.csi_attributes(prefix)
            } else {
                self
            },
            'p' => self.csi_request(params, prefix, intermediates),
            'h' => self.modes_set(params, prefix == Some(63u8)),
            'l' => self.modes_reset(params, prefix == Some(63u8)),
            'r' => self.csi_region(params),
            '@' => self.chars_inserted(n),
            'P' => self.chars_deleted(n),
            'X' => self.chars_erased(n as int),
            'q' => self.csi_shape(params, prefix, intermediates),
            _ => self,
        }
    }
}

/// Whether a prefix is the given byte.
fn is_prefix(prefix: Option<u8>, byte: u8) -> (v: bool)
    ensures
        v == (prefix == Some(byte)),
{
    match prefix {
        Some(b) => b == byte,
        None => false,
    }
}

/// Whether the intermediates are the given byte alone.
fn is_single(intermediates: &[u8], byte: u8) -> (v: bool)
    ensures
        v == (intermediates@ == seq![byte]),
{
    let v = intermediates.len() == 1 && intermediates[0] == byte;
    proof {
        if v {
            assert(intermediates@ =~= seq![byte]);
        } else if intermediates@ == seq![byte] {
            assert(seq![byte].len() == 1 && seq![byte][0] == byte);
        }
    }
    v
}

impl TerminalState {
    pub(crate) fn parse_csi_params(param_bytes: &[u8]) -> (params: ParamList)
        ensures
            param_values(params) == csi_params(param_bytes@),
    {
        let mut params = ParamList::new();
        let mut current: u16 = 0;
        let mut has_digits = false;
        let mut i: usize = 0;
        proof {
            assert(param_bytes@.subrange(0, param_bytes@.len() as int) =~= param_bytes@);
            assert(Seq::<u16>::empty() + csi_params(param_bytes@) =~= csi_params(param_bytes@));
        }
        while i < param_bytes.len()
            invariant
                i <= param_bytes@.len(),
                param_values(params) + csi_params_from(
                    param_bytes@.subrange(i as int, param_bytes@.len() as int),
                    current,
                    has_digits,
                ) == csi_params(param_bytes@),
            decreases param_bytes@.len() - i,
        {
            let byte: u8 = param_bytes[i];
            let ghost rest = param_bytes@.subrange(i as int, param_bytes@.len() as int);
            let ghost before = param_values(params);
            proof {
                assert(rest.drop_first() =~= param_bytes@.subrange(
                    i + 1,
                    param_bytes@.len() as int,
                ));
            }
            if 48 <= byte && byte <= 57 {
                current = add_digit(current, byte);
                has_digits = true;
            } else if byte == 58 || byte == 59 {
                proof {
                    let tail = csi_params_from(rest.drop_first(), 0, false);
                    assert(before + (seq![current] + tail) =~= before.push(current) + tail);
                    assert(before + (Seq::<u16>::empty() + tail) =~= before + tail);
                }
                if has_digits {
                    params.push(current);
                }
                current = 0;
                has_digits = false;
            }
            i = i + 1;
        }
        proof {
            let done = param_values(params);
            assert(done + seq![current] =~= done.push(current));
            assert(done + Seq::<u16>::empty() =~= done);
        }
        if has_digits {
            params.push(current);
        }
        params
    }

    /// Appends a reply.
    pub(crate) fn reply(&mut self, text: &str)
        requires
            old(self).wf(),
        ensures
            final(self).wf(),
            final(self)@ == old(self)@.replied(encode_utf8(text@)),
            final(self).kitty_graphics == old(self).kitty_graphics,
            final(self).sync_output_start == old(self).sync_output_start,
            final(self).widest == old(self).widest,
    {
        push_text(&mut self.output_buffer, text);
    }

    fn erase_display(&mut self, what: u16)
        requires
            old(self).wf(),
        ensures
            final(self).wf(),
            final(self)@ == old(self)@.csi_erase_display(what),
            final(self).kitty_graphics == old(self).kitty_graphics,
            final(self).sync_output_start == old(self).sync_output_start,
            final(self).widest == old(self).widest,
    {
        proof {
            reveal(TerminalModel::csi_erase_display);
        }
        match what {
            0 => self.erase_below(),
            1 => self.erase_above(),
            2 => self.clear_screen_no_home(),
            3 => self.clear_scrollback(),
            _ => {},
        }
    }

    fn erase_in_current_line(&mut self, what: u16)
        requires
            old(self).wf(),
        ensures
            final(self).wf(),
            final(self)@ == old(self)@.csi_erase_line(what),
            final(self).kitty_graphics == old(self).kitty_graphics,
            final(self).sync_output_start == old(self).sync_output_start,
            final(self).widest == old(self).widest,
    {
        proof {
            reveal(TerminalModel::csi_erase_line);
        }
        match what {
            0 => self.erase_line_right(),
            1 => self.erase_line_left(),
            2 => self.erase_line(),
            _ => {},
        }
    }

    fn clear_tabs(&mut self, what: u16)
        requires
            old(self).wf(),
        ensures
            final(self).wf(),
            final(self)@ == old(self)@.csi_clear_tabs(what),
            final(self).kitty_graphics == old(self).kitty_graphics,
            final(self).sync_output_start == old(self).sync_output_start,
            final(self).widest == old(self).widest,
    {
        proof {
            reveal(TerminalModel::csi_clear_tabs);
        }
        match what {
            0 => self.set_tab_stop(false),
            3 => self.clear_tab_stops(),
            _ => {},
        }
    }

    fn keyboard_request(&mut self, params: &[u16], prefix: Option<u8>)
        requires
            old(self).wf(),
        ensures
            final(self).wf(),
            final(self)@ == old(self)@.csi_keyboard(params@, prefix),
            final(self).kitty_graphics == old(self).kitty_graphics,
            final(self).sync_output_start == old(self).sync_output_start,
            final(self).widest == old(self).widest,
    {
        proof {
            reveal(TerminalModel::csi_keyboard);
        }
        match prefix {
            None => self.restore_cursor(),
            Some(63) => {
                let flags: u16 = self.keyboard_enhancement_flags;
                let ghost before = self.output_buffer@;
                push_text(&mut self.output_buffer, "\x1b[?");
                push_decimal(&mut self.output_buffer, flags as u64);
                push_text(&mut self.output_buffer, "u");
                proof {
                    assert(self.output_buffer@ =~= before + (encode_utf8("\x1b[?"@) + decimal(
                        flags as nat,
                    ) + encode_utf8("u"@)));
                }
            },
            Some(61) => {
                let flags: u16 = get_arg(params, 0, 0);
                let mode: u16 = get_arg(params, 1, 1);
                self.set_keyboard_enhancement_flags(flags, mode);
            },
            Some(62) => {
                let flags: u16 = get_arg(params, 0, 0);
                self.push_keyboard_enhancement_flags(flags);
            },
            Some(60) => {
                let n: u16 = get_arg(params, 0, 1);
                self.pop_keyboard_enhancement_flags(n as usize);
            },
            _ => {},
        }
    }

    fn report_status(&mut self, what: u16)
        requires
            old(self).wf(),
        ensures
            final(self).wf(),
            final(self)@ == old(self)@.csi_status(what),
            final(self).kitty_graphics == old(self).kitty_graphics,
            final(self).sync_output_start == old(self).sync_output_start,
            final(self).widest == old(self).widest,
    {
        proof {
            reveal(TerminalModel::csi_status);
        }
        match what {
            5 => self.reply("\x1b[0n"),
            6 => {
                let row: u64 = (self.cursor_row + 1) as u64;
                let col: u64 = (self.cursor_col + 1) as u64;
                let ghost before = self.output_buffer@;
                push_text(&mut self.output_buffer, "\x1b[");
                push_decimal(&mut self.output_buffer, row);
                push_text(&mut self.output_buffer, ";");
                push_decimal(&mut self.output_buffer, col);
                push_text(&mut self.output_buffer, "R");
                proof {
                    assert(self.output_buffer@ =~= before + (encode_utf8("\x1b["@) + decimal(
                        row as nat,
                    ) + encode_utf8(";"@) + decimal(col as nat) + encode_utf8("R"@)));
                }
            },
            _ => {},
        }
    }

    fn report_attributes(&mut self, prefix: Option<u8>)
        requires
            old(self).wf(),
        ensures
            final(self).wf(),
            final(self)@ == old(self)@.csi_attributes(prefix),
            final(self).kitty_graphics == old(self).kitty_graphics,
            final(self).sync_output_start == old(self).sync_output_start,
            final(self).widest == old(self).widest,
    {
        proof {
            reveal(TerminalModel::csi_attributes);
        }
        match prefix {
            None => self.reply("\x1b[?65;1;9c"),
            Some(62) => self.reply("\x1b[>1;7802;0c"),
            _ => {},
        }
    }

    fn reset_or_report(&mut self, params: &[u16], prefix: Option<u8>, intermediates: &[u8])
        requires
            old(self).wf(),
        ensures
            final(self).wf(),
            final(self)@ == old(self)@.csi_request(params@, prefix, intermediates@),
            final(self).kitty_graphics == old(self).kitty_graphics,
            final(self).sync_output_start == old(self).sync_output_start,
            final(self).widest == old(self).widest,
    {
        proof {
            reveal(TerminalModel::csi_request);
        }
        if is_single(intermediates, 33) && prefix.is_none() {
            self.soft_reset();
        } else if is_prefix(prefix, 63) && is_single(intermediates, 36) && params.len() > 0
            && params[0] == 5522 {
            let state = if self.modes.contains(5522) {
                "1"
            } else {
                "2"
            };
            let ghost before = self.output_buffer@;
            push_text(&mut self.output_buffer, "\x1b[?5522;");
            push_text(&mut self.output_buffer, state);
            push_text(&mut self.output_buffer, "$y");
            proof {
                assert(self.output_buffer@ =~= before + (encode_utf8("\x1b[?5522;"@) + encode_utf8(
                    state@,
                ) + encode_utf8("$y"@)));
            }
        }
    }

    /// DECSTBM: sets the scroll region.
    fn set_scroll_region(&mut self, params: &[u16])
        requires
            old(self).wf(),
        ensures
            final(self).wf(),
            final(self)@ == old(self)@.csi_region(params@),
            final(self).kitty_graphics == old(self).kitty_graphics,
            final(self).sync_output_start == old(self).sync_output_start,
            final(self).widest == old(self).widest,
    {
        proof {
            reveal(TerminalModel::csi_region);
        }
        let rows: usize = self.grid.rows();
        let last: usize = rows - 1;
        let t: usize = (get_arg(params, 0, 1) as usize).saturating_sub(1);
        let b: usize = (get_arg(params, 1, rows as u16) as usize).saturating_sub(1);
        let top: usize = if t < last {
            t
        } else {
            last
        };
        let bottom: usize = if b < last {
            b
        } else {
            last
        };
        // An empty region stands for the whole screen.
        if top > bottom {
            self.scroll_region_top = 0;
            self.scroll_region_bottom = last;
        } else {
            self.scroll_region_top = top;
            self.scroll_region_bottom = bottom;
        }
        self.cursor_row = 0;
        self.cursor_col = 0;
    }

    fn set_cursor_shape(&mut self, params: &[u16], prefix: Option<u8>, intermediates: &[u8])
        requires
            old(self).wf(),
        ensures
            final(self).wf(),
            final(self)@ == old(self)@.csi_shape(params@, prefix, intermediates@),
            final(self).kitty_graphics == old(self).kitty_graphics,
            final(self).sync_output_start == old(self).sync_output_start,
            final(self).widest == old(self).widest,
    {
        proof {
            reveal(TerminalModel::csi_shape);
        }
        if is_prefix(prefix, 62) && intermediates.len() == 0 && get_arg(params, 0, 0) == 0 {
            self.reply("\x1bP>|VTE(7802)\x1b\\");
        } else if prefix.is_none() && is_single(intermediates, 32) {
            let shape: u16 = get_arg(params, 0, 0) % 256;
            self.cursor_shape = match shape {
                2 => CursorShape::Underline,
                3 => CursorShape::Beam,
                _ => CursorShape::Block,
            };
        }
    }

    fn select_rendition(
        &mut self,
        params: &[u16],
        raw_params: &[u8],
        prefix: Option<u8>,
        intermediates: &[u8],
    )
        requires
            old(self).wf(),
            raw_params@.len() <= 32,
        ensures
            final(self).wf(),
            final(self)@ == old(self)@.csi_rendition(
                params@,
                raw_params@,
                prefix,
                intermediates@,
            ),
            final(self).kitty_graphics == old(self).kitty_graphics,
            final(self).sync_output_start == old(self).sync_output_start,
            final(self).widest == old(self).widest,
    {
        proof {
            reveal(TerminalModel::csi_rendition);
        }
        if is_prefix(prefix, 62) && intermediates.len() == 0 {
            if get_arg(params, 0, 0) == 4 {
                self.xterm_modify_other_keys = get_arg(params, 1, 0);
            }
        } else {
            let groups = Self::parse_sgr_groups(raw_params);
            proof {
                lemma_few_groups(raw_params@, Seq::empty(), 0);
            }
            self.handle_sgr(&groups);
        }
    }

    fn set_format_other_keys(&mut self, value: u16)
        requires
            old(self).wf(),
        ensures
            final(self).wf(),
            final(self)@ == (TerminalModel { format_other_keys: value, ..old(self)@ }),
            final(self).kitty_graphics == old(self).kitty_graphics,
            final(self).sync_output_start == old(self).sync_output_start,
            final(self).widest == old(self).widest,
    {
        self.xterm_format_other_keys = value;
    }

    fn position_cursor(&mut self, params: &[u16], prefix: Option<u8>, intermediates: &[u8])
        requires
            old(self).wf(),
        ensures
            final(self).wf(),
            final(self)@ == old(self)@.csi_position(params@, prefix, intermediates@),
            final(self).kitty_graphics == old(self).kitty_graphics,
            final(self).sync_output_start == old(self).sync_output_start,
            final(self).widest == old(self).widest,
    {
        proof {
            reveal(TerminalModel::csi_position);
        }
        if is_prefix(prefix, 62) && intermediates.len() == 0 {
            if get_arg(params, 0, 0) == 4 {
                let value: u16 = get_arg(params, 1, 0);
                self.set_format_other_keys(value);
            }
        } else {
            let row: u16 = get_arg(params, 0, 1);
            let col: u16 = get_arg(params, 1, 1);
            self.place_cursor(row as usize, col as usize);
        }
    }

    /// Moves the cursor right, no further than the last column.
    fn cursor_forward(&mut self, n: usize)
        requires
            old(self).wf(),
            n <= u16::MAX,
        ensures
            final(self).wf(),
            final(self)@ == old(self)@.with_col(old(self)@.col_right(n as int)),
            final(self).kitty_graphics == old(self).kitty_graphics,
            final(self).sync_output_start == old(self).sync_output_start,
            final(self).widest == old(self).widest,
    {
        proof {
            reveal(TerminalModel::with_col);
        }
        let last: usize = self.grid.row_len() - 1;
        self.cursor_col = if self.cursor_col + n < last {
            self.cursor_col + n
        } else {
            last
        };
    }

    /// Moves the cursor left, no further than the first column.
    fn cursor_back(&mut self, n: usize)
        requires
            old(self).wf(),
        ensures
            final(self).wf(),
            final(self)@ == old(self)@.with_col(old(self)@.col_left(n as int)),
            final(self).kitty_graphics == old(self).kitty_graphics,
            final(self).sync_output_start == old(self).sync_output_start,
            final(self).widest == old(self).widest,
    {
        proof {
            reveal(TerminalModel::with_col);
        }
        self.cursor_col = self.cursor_col.saturating_sub(n);
    }

    /// Goes to the first column.
    fn cursor_to_margin(&mut self)
        requires
            old(self).wf(),
        ensures
            final(self).wf(),
            final(self)@ == old(self)@.with_col(0),
            final(self).kitty_graphics == old(self).kitty_graphics,
            final(self).sync_output_start == old(self).sync_output_start,
            final(self).widest == old(self).widest,
    {
        proof {
            reveal(TerminalModel::with_col);
        }
        self.cursor_col = 0;
    }

    fn move_cursor(&mut self, cmd: char, params: &[u16])
        requires
            old(self).wf(),
        ensures
            final(self).wf(),
            final(self)@ == old(self)@.csi_move(cmd, params@),
            final(self).kitty_graphics == old(self).kitty_graphics,
            final(self).sync_output_start == old(self).sync_output_start,
            final(self).widest == old(self).widest,
    {
        proof {
            reveal(TerminalModel::csi_move);
        }
        let n: usize = get_count(params);
        match cmd {
            'A' => self.cursor_up(n),
            'B' => self.cursor_down(n),
            'C' => self.cursor_forward(n),
            'D' => self.cursor_back(n),
            'E' => {
                self.cursor_down(n);
                self.cursor_to_margin();
            },
            'F' => {
                self.cursor_up(n);
                self.cursor_to_margin();
            },
            'G' | '`' => {
                let col: u16 = get_arg(params, 0, 1);
                self.set_cursor_col_abs(col as usize);
            },
            'd' => {
                let row: u16 = get_arg(params, 0, 1);
                self.set_cursor_row_abs(row as usize);
            },
            'I' => self.tab_forward(n),
            'Z' => self.tab_backward(n),
            _ => {},
        }
    }

    /// Carries out a CSI sequence.
    pub(crate) fn handle_escape_sequence(
        &mut self,
        params: &[u16],
        raw_params: &[u8],
        cmd: char,
        private_prefix: Option<u8>,
        intermediates: &[u8],
    )
        requires
            old(self).wf(),
            raw_params@.len() <= 32,
        ensures
            final(self).wf(),
            final(self)@ == old(self)@.csi(
                params@,
                raw_params@,
                cmd,
                private_prefix,
                intermediates@,
            ),
            final(self).kitty_graphics == old(self).kitty_graphics,
            old(self)@.widened_to(final(self)@),
            !((cmd == 'h' || cmd == 'l') && private_prefix == Some(63u8) && params@.contains(2026))
                ==> final(self).sync_output_start == old(self).sync_output_start,
    {
        proof {
            reveal(TerminalModel::csi);
        }
        let n: usize = get_count(params);
        match cmd {
            'A' | 'B' | 'C' | 'D' | 'E' | 'F' | 'G' | '`' | 'd' | 'I' | 'Z' => self.move_cursor(
                cmd,
                params,
            ),
            'b' => {
                if let Some(ch) = self.last_printed_char {
                    self.repeat_char(ch, n);
                }
            },
            'g' => self.clear_tabs(get_arg(params, 0, 0)),
            'H' => {
                let row: u16 = get_arg(params, 0, 1);
                let col: u16 = get_arg(params, 1, 1);
                self.place_cursor(row as usize, col as usize);
            },
            'f' => self.position_cursor(params, private_prefix, intermediates),
            'J' => self.erase_display(get_arg(params, 0, 0)),
            'K' => self.erase_in_current_line(get_arg(params, 0, 0)),
            'L' => self.insert_lines(n),
            'M' => self.delete_lines(n),
            'm' => self.select_rendition(params, raw_params, private_prefix, intermediates),
            's' => {
                if private_prefix.is_none() && intermediates.len() == 0 {
                    self.save_cursor();
                }
            },
            'u' => {
                if intermediates.len() == 0 {
                    self.keyboard_request(params, private_prefix);
                }
            },
            'S' => self.scroll_up_times(n),
            'T' => self.scroll_down_times(n),
            'n' => self.report_status(get_arg(params, 0, 0)),
            'c' => {
                if intermediates.len() == 0 {
                    self.report_attributes(private_prefix);
                }
            },
            'p' => self.reset_or_report(params, private_prefix, intermediates),
            'h' => self.set_modes(params, is_prefix(private_prefix, 63)),
            'l' => self.reset_modes(params, is_prefix(private_prefix, 63)),
            'r' => self.set_scroll_region(params),
            '@' => self.insert_chars(n),
            'P' => self.delete_chars(n),
            'X' => self.erase_chars(n),
            'q' => self.set_cursor_shape(params, private_prefix, intermediates),
            _ => {},
        }
    }
}

/// No more groups than bytes, and one.
proof fn lemma_few_groups(bytes: Seq<u8>, group: Seq<u16>, current: u16)
    ensures
        super::rendition::sgr_groups_from(bytes, group, current).len() <= bytes.len() + 1,
    decreases bytes.len(),
{
    if bytes.len() > 0 {
        let b = bytes[0];
        let rest = bytes.drop_first();
        if 48 <= b <= 57 {
            lemma_few_groups(rest, group, more_digits(current, b));
        } else if b == 58 {
            lemma_few_groups(rest, group.push(current), 0);
        } else if b == 59 {
            lemma_few_groups(rest, Seq::empty(), 0);
        } else {
            lemma_few_groups(rest, group, current);
        }
    }
}

} // verus!
