//! What can be asked of a terminal, and what it is told about besides input.

use super::model::TerminalModel;
use super::osc::osc_end;
use super::state::{range_view, requests_view, TerminalState};
use super::types::ClipboardReadRequest;
use crate::outside::{base64_encode, base64_of, is_token, nanos_since, random_token};
use crate::text::{
    append_decimal, append_text, decimal_text, owned, push_bytes, push_text, texts,
};
use vstd::prelude::*;
use vstd::utf8::encode_utf8;

verus! {

/// How long drawing may be held back, in nanoseconds.
pub const SYNC_OUTPUT_TIMEOUT_NANOS: u128 = 1_000_000_000;

/// The lines that changed after a version, from top to bottom.
pub open spec fn changed_rows(versions: Seq<u64>, last: u64) -> Seq<usize>
    decreases versions.len(),
{
    if versions.len() == 0 {
        Seq::empty()
    } else {
        let before = changed_rows(versions.drop_last(), last);
        if versions.last() > last {
            before.push((versions.len() - 1) as usize)
        } else {
            before
        }
    }
}

/// The low 32 bits.
pub open spec fn low32(n: int) -> int {
    n % 0x1_0000_0000
}

/// The character of a position in the older mouse form, in which one byte holds it.
pub open spec fn mouse_byte(position: int) -> char {
    (32 + (if position + 1 < 223 {
        position + 1
    } else {
        223
    })) as char
}

impl TerminalModel {
    /// Whether the program wants to be told of the window's focus.
    pub open spec fn wants_focus(self) -> bool {
        self.has(1004)
    }

    /// Whether the program wants pasted text to be marked.
    pub open spec fn wants_marked_pastes(self) -> bool {
        self.has(2004)
    }

    /// Whether the cursor keys are in their application mode.
    pub open spec fn has_application_cursor_keys(self) -> bool {
        self.has(1)
    }

    /// Whether the cursor is shown.
    pub open spec fn shows_cursor(self) -> bool {
        self.has(25) && self.scroll_offset == 0
    }

    /// Whether the program wants to be told of motion.
    pub open spec fn wants_motion(self) -> bool {
        self.has(1002) || self.has(1003)
    }

    /// What the program is told of the window's focus.
    pub open spec fn focus_told(self, focused: bool) -> Self {
        if self.wants_focus() {
            self.replied(
                encode_utf8(
                    (if focused {
                        "\x1b[I"
                    } else {
                        "\x1b[O"
                    })@,
                ),
            )
        } else {
            self
        }
    }

    pub open spec fn mouse_enabled(self) -> bool {
        self.has(1000) || self.has(1002) || self.has(1003)
    }

    /// A mouse event as it is reported: with decimal numbers, or in the older form
    /// with one character each. Nothing where no program asked for it.
    pub open spec fn mouse_report(self, button: u8, pressed: bool, col: int, row: int) -> Option<
        Seq<char>,
    > {
        if !self.mouse_enabled() {
            None
        } else if self.has(1006) {
            Some(
                "\x1b[<"@ + decimal_text(button as nat) + ";"@ + decimal_text(
                    (low32(col) + 1) as nat,
                ) + ";"@ + decimal_text((low32(row) + 1) as nat) + (if pressed {
                    "M"@
                } else {
                    "m"@
                }),
            )
        } else {
            let code = if pressed {
                button
            } else {
                3
            };
            Some(
                "\x1b[M"@.push((32 + code) as char).push(mouse_byte(col)).push(mouse_byte(row)),
            )
        }
    }

    /// The event of a paste: its password, the types that can be read, the end.
    pub open spec fn paste_event(password: Seq<char>, mimes: Seq<Seq<char>>) -> Seq<u8> {
        encode_utf8("\x1b]5522;type=read:status=OK:password="@) + encode_utf8(
            base64_of(encode_utf8(password)),
        ) + osc_end() + Self::mime_list(mimes) + encode_utf8("\x1b]5522;type=read:status=DONE"@)
            + osc_end()
    }

    pub open spec fn mime_list(mimes: Seq<Seq<char>>) -> Seq<u8>
        decreases mimes.len(),
    {
        if mimes.len() == 0 {
            Seq::empty()
        } else {
            Self::mime_list(mimes.drop_last()) + encode_utf8(
                "\x1b]5522;type=read:status=DATA:mime="@,
            ) + encode_utf8(base64_of(encode_utf8(mimes.last()))) + osc_end()
        }
    }
}

fn mouse_char(position: usize) -> (c: char)
    ensures
        c == mouse_byte(position as int),
{
    let n: u8 = if position < 222 {
        position as u8 + 1
    } else {
        223
    };
    (32 + n) as char
}

impl TerminalState {
    /// The lines that changed after a version.
    pub fn get_dirty_rows(&self, last_rendered_version: u64, out: &mut Vec<usize>)
        requires
            self.wf(),
        ensures
            final(out)@ == changed_rows(self@.row_versions, last_rendered_version),
    {
        out.clear();
        let mut r: usize = 0;
        proof {
            assert(out@ =~= changed_rows(self@.row_versions.subrange(0, 0), last_rendered_version));
        }
        while r < self.row_versions.len()
            invariant
                r <= self.row_versions@.len(),
                out@ == changed_rows(
                    self.row_versions@.subrange(0, r as int),
                    last_rendered_version,
                ),
            decreases self.row_versions@.len() - r,
        {
            proof {
                let next = self.row_versions@.subrange(0, r + 1);
                assert(next.drop_last() =~= self.row_versions@.subrange(0, r as int));
            }
            if self.row_versions[r] > last_rendered_version {
                out.push(r);
            }
            r = r + 1;
        }
        proof {
            assert(self.row_versions@.subrange(0, r as int) =~= self.row_versions@);
        }
    }

    pub fn get_grid_version(&self) -> (version: u64)
        ensures
            version == self@.grid_version,
    {
        self.grid_version
    }

    /// Ends synchronized output that has lasted too long. Whether it has is up to the
    /// clock.
    pub fn check_sync_output_timeout(&mut self)
        requires
            old(self).wf(),
        ensures
            final(self).wf(),
            final(self)@ == old(self)@ || final(self)@ == old(self)@.sync_output_ended(),
            !old(self)@.sync_output_active ==> final(self)@ == old(self)@,
            final(self).kitty_graphics == old(self).kitty_graphics,
            final(self)@.sync_output_active == old(self)@.sync_output_active
                ==> final(self).sync_output_start == old(self).sync_output_start,
    {
        if self.sync_output_active {
            let elapsed: u128 = match &self.sync_output_start {
                Some(start) => nanos_since(start),
                None => 0,
            };
            self.end_sync_output_after(elapsed);
        }
    }

    /// Ends synchronized output that has lasted more than a second.
    pub fn end_sync_output_after(&mut self, elapsed_nanos: u128)
        requires
            old(self).wf(),
        ensures
            final(self).wf(),
            final(self)@ == (if old(self)@.sync_output_active && elapsed_nanos
                > SYNC_OUTPUT_TIMEOUT_NANOS {
                old(self)@.sync_output_ended()
            } else {
                old(self)@
            }),
            final(self).kitty_graphics == old(self).kitty_graphics,
            final(self).sync_output_start == (if old(self)@.sync_output_active && elapsed_nanos
                > SYNC_OUTPUT_TIMEOUT_NANOS {
                None
            } else {
                old(self).sync_output_start
            }),
    {
        if self.sync_output_active && elapsed_nanos > SYNC_OUTPUT_TIMEOUT_NANOS {
            self.end_sync_output();
        }
    }

    pub fn is_focus_event_mode(&self) -> (v: bool)
        requires
            self.wf(),
        ensures
            v == self@.has(1004),
            v == self@.wants_focus(),
    {
        self.modes.contains(1004)
    }

    pub fn is_bracketed_paste_mode(&self) -> (v: bool)
        requires
            self.wf(),
        ensures
            v == self@.has(2004),
            v == self@.wants_marked_pastes(),
    {
        self.modes.contains(2004)
    }

    /// Reports that the window got the focus, if the program asked for it.
    pub fn emit_focus_in(&mut self)
        requires
            old(self).wf(),
        ensures
            final(self).wf(),
            final(self)@ == (if old(self)@.has(1004) {
                old(self)@.replied(encode_utf8("\x1b[I"@))
            } else {
                old(self)@
            }),
            final(self)@ == old(self)@.focus_told(true),
            final(self).kitty_graphics == old(self).kitty_graphics,
            final(self).sync_output_start == old(self).sync_output_start,
    {
        if self.modes.contains(1004) {
            self.reply("\x1b[I");
        }
    }

    /// Reports that the window lost the focus, if the program asked for it.
    pub fn emit_focus_out(&mut self)
        requires
            old(self).wf(),
        ensures
            final(self).wf(),
            final(self)@ == (if old(self)@.has(1004) {
                old(self)@.replied(encode_utf8("\x1b[O"@))
            } else {
                old(self)@
            }),
            final(self)@ == old(self)@.focus_told(false),
            final(self).kitty_graphics == old(self).kitty_graphics,
            final(self).sync_output_start == old(self).sync_output_start,
    {
        if self.modes.contains(1004) {
            self.reply("\x1b[O");
        }
    }

    /// Whether the cursor is shown: it is switched on and the view is live.
    pub fn is_cursor_visible(&self) -> (v: bool)
        requires
            self.wf(),
        ensures
            v == (self@.has(25) && self@.scroll_offset == 0),
            v == self@.shows_cursor(),
    {
        self.modes.contains(25) && self.scroll_offset == 0
    }

    pub fn is_mouse_enabled(&self) -> (v: bool)
        requires
            self.wf(),
        ensures
            v == self@.mouse_enabled(),
    {
        self.modes.contains(1000) || self.modes.contains(1002) || self.modes.contains(1003)
    }

    /// Whether the program asked for movement with a button held, or for all movement.
    pub fn is_mouse_motion_enabled(&self) -> (v: bool)
        requires
            self.wf(),
        ensures
            v == (self@.has(1002) || self@.has(1003)),
            v == self@.wants_motion(),
    {
        self.modes.contains(1002) || self.modes.contains(1003)
    }

    /// A mouse event in the form with decimal numbers.
    fn sgr_report(button: u8, pressed: bool, col: usize, row: usize) -> (report: String)
        ensures
            report@ == "\x1b[<"@ + decimal_text(button as nat) + ";"@ + decimal_text(
                (low32(col as int) + 1) as nat,
            ) + ";"@ + decimal_text((low32(row as int) + 1) as nat) + (if pressed {
                "M"@
            } else {
                "m"@
            }),
    {
        let x: u64 = (col as u64 % 0x1_0000_0000) + 1;
        let y: u64 = (row as u64 % 0x1_0000_0000) + 1;
        let mut report = owned("\x1b[<");
        append_decimal(&mut report, button as u64);
        append_text(&mut report, ";");
        append_decimal(&mut report, x);
        append_text(&mut report, ";");
        append_decimal(&mut report, y);
        append_text(
            &mut report,
            if pressed {
                "M"
            } else {
                "m"
            },
        );
        report
    }

    /// The report of a button pressed at a position.
    pub fn get_mouse_report(&self, button: u8, col: usize, row: usize) -> (report: Option<String>)
        requires
            self.wf(),
            self@.mouse_enabled() && !self@.has(1006) ==> button <= 223,
            self@.mouse_enabled() && self@.has(1006) ==> low32(col as int) < u32::MAX && low32(
                row as int,
            ) < u32::MAX,
        ensures
            super::state::text_view(report) == self@.mouse_report(
                button,
                true,
                col as int,
                row as int,
            ),
    {
        if !self.is_mouse_enabled() {
            return None;
        }
        if self.modes.contains(1006) {
            return Some(Self::sgr_report(button, true, col, row));
        }
        let mut report = owned("\x1b[M");
        report.push((32 + button) as char);
        report.push(mouse_char(col));
        report.push(mouse_char(row));
        Some(report)
    }

    /// The report of a button released at a position.
    pub fn get_mouse_release_report(&self, button: u8, col: usize, row: usize) -> (report: Option<
        String,
    >)
        requires
            self.wf(),
            self@.mouse_enabled() && self@.has(1006) ==> low32(col as int) < u32::MAX && low32(
                row as int,
            ) < u32::MAX,
        ensures
            super::state::text_view(report) == self@.mouse_report(
                button,
                false,
                col as int,
                row as int,
            ),
    {
        if !self.is_mouse_enabled() {
            return None;
        }
        if self.modes.contains(1006) {
            return Some(Self::sgr_report(button, false, col, row));
        }
        let code: u8 = 35;
        let mut report = owned("\x1b[M");
        report.push(code as char);
        report.push(mouse_char(col));
        report.push(mouse_char(row));
        Some(report)
    }

    pub fn is_alt_buffer_active(&self) -> (v: bool)
        ensures
            v == self@.use_alt_buffer,
    {
        self.use_alt_buffer
    }

    pub fn is_bracketed_paste_enabled(&self) -> (v: bool)
        requires
            self.wf(),
        ensures
            v == self@.has(2004),
            v == self@.wants_marked_pastes(),
    {
        self.modes.contains(2004)
    }

    pub fn is_application_cursor_keys(&self) -> (v: bool)
        requires
            self.wf(),
        ensures
            v == self@.has(1),
            v == self@.has_application_cursor_keys(),
    {
        self.modes.contains(1)
    }

    pub fn is_paste_events_enabled(&self) -> (v: bool)
        requires
            self.wf(),
        ensures
            v == self@.has(5522),
    {
        self.modes.contains(5522)
    }

    pub fn keyboard_enhancement_flags(&self) -> (flags: u16)
        ensures
            flags == self@.keyboard_flags,
    {
        self.keyboard_enhancement_flags
    }

    pub fn xterm_modify_other_keys(&self) -> (v: u16)
        ensures
            v == self@.modify_other_keys,
    {
        self.xterm_modify_other_keys
    }

    pub fn xterm_format_other_keys(&self) -> (v: u16)
        ensures
            v == self@.format_other_keys,
    {
        self.xterm_format_other_keys
    }

    /// Whether every key is to be reported as an escape sequence.
    pub fn is_report_all_keys_enabled(&self) -> (v: bool)
        requires
            self.wf(),
        ensures
            v == (self@.has(2031) || self@.keyboard_flags & 0b1000 != 0),
    {
        self.modes.contains(2031) || (self.keyboard_enhancement_flags & 0b1000) != 0
    }

    /// The event that tells a program of a paste, under a fresh password, which reads
    /// of the data have to give.
    pub fn build_paste_event(&mut self, mime_types: &[String]) -> (event: Vec<u8>)
        requires
            old(self).wf(),
        ensures
            final(self).wf(),
            final(self)@.paste_password is Some,
            is_token(final(self)@.paste_password->0),
            final(self)@ == (TerminalModel {
                paste_password: final(self)@.paste_password,
                ..old(self)@
            }),
            event@ == TerminalModel::paste_event(
                final(self)@.paste_password->0,
                texts(mime_types@),
            ),
            final(self).kitty_graphics == old(self).kitty_graphics,
            final(self).sync_output_start == old(self).sync_output_start,
    {
        let password = random_token();
        self.paste_event_with(password, mime_types)
    }

    /// The event that tells a program of a paste, under the given password.
    pub fn paste_event_with(&mut self, password: String, mime_types: &[String]) -> (event: Vec<u8>)
        requires
            old(self).wf(),
        ensures
            final(self).wf(),
            final(self)@ == (TerminalModel { paste_password: Some(password@), ..old(self)@ }),
            event@ == TerminalModel::paste_event(password@, texts(mime_types@)),
            final(self).kitty_graphics == old(self).kitty_graphics,
            final(self).sync_output_start == old(self).sync_output_start,
    {
        let mut event: Vec<u8> = Vec::new();
        let encoded = base64_encode(password.as_str().as_bytes());
        push_text(&mut event, "\x1b]5522;type=read:status=OK:password=");
        push_text(&mut event, encoded.as_str());
        push_text(&mut event, "\x1b\\");
        let ghost head = event@;
        let ghost mimes = texts(mime_types@);
        let mut i: usize = 0;
        proof {
            assert(head + TerminalModel::mime_list(mimes.subrange(0, 0)) =~= head);
        }
        while i < mime_types.len()
            invariant
                i <= mime_types@.len(),
                mimes == texts(mime_types@),
                event@ == head + TerminalModel::mime_list(mimes.subrange(0, i as int)),
            decreases mime_types@.len() - i,
        {
            let ghost before = event@;
            let mime = base64_encode(mime_types[i].as_str().as_bytes());
            push_text(&mut event, "\x1b]5522;type=read:status=DATA:mime=");
            push_text(&mut event, mime.as_str());
            push_text(&mut event, "\x1b\\");
            proof {
                let next = mimes.subrange(0, i + 1);
                assert(next.drop_last() =~= mimes.subrange(0, i as int));
                assert(next.last() == mime_types@[i as int]@);
                assert(event@ =~= head + TerminalModel::mime_list(next));
            }
            i = i + 1;
        }
        push_text(&mut event, "\x1b]5522;type=read:status=DONE");
        push_text(&mut event, "\x1b\\");
        proof {
            assert(mimes.subrange(0, i as int) =~= mimes);
            assert(event@ =~= TerminalModel::paste_event(password@, mimes));
        }
        self.pending_paste_password = Some(password);
        event
    }

    /// The clipboard requests that wait, which are forgotten.
    pub fn take_clipboard_read_requests(&mut self) -> (requests: Vec<ClipboardReadRequest>)
        requires
            old(self).wf(),
        ensures
            final(self).wf(),
            requests_view(requests@) == old(self)@.clipboard_requests,
            final(self)@ == (TerminalModel { clipboard_requests: Seq::empty(), ..old(self)@ }),
            final(self).kitty_graphics == old(self).kitty_graphics,
            final(self).sync_output_start == old(self).sync_output_start,
    {
        let mut requests: Vec<ClipboardReadRequest> = Vec::new();
        std::mem::swap(&mut requests, &mut self.pending_clipboard_requests);
        proof {
            assert(requests_view(self.pending_clipboard_requests@) =~= Seq::empty());
        }
        requests
    }

    /// The first of the notifications that wait; all are then forgotten.
    pub fn take_notification(&mut self) -> (notification: Option<(String, String)>)
        requires
            old(self).wf(),
        ensures
            final(self).wf(),
            notification is Some <==> old(self)@.notifications.len() > 0,
            notification matches Some(n) ==> (n.0@, n.1@) == old(self)@.notifications[0],
            final(self)@ == (TerminalModel { notifications: Seq::empty(), ..old(self)@ }),
            final(self).kitty_graphics == old(self).kitty_graphics,
            final(self).sync_output_start == old(self).sync_output_start,
    {
        let mut waiting: Vec<(String, String)> = Vec::new();
        std::mem::swap(&mut waiting, &mut self.pending_notifications);
        proof {
            assert(super::state::notifications_view(self.pending_notifications@) =~= Seq::empty());
        }
        if waiting.len() == 0 {
            None
        } else {
            Some(waiting.remove(0))
        }
    }

    /// Appends bytes to the replies.
    pub fn reply_bytes(&mut self, bytes: &[u8])
        requires
            old(self).wf(),
        ensures
            final(self).wf(),
            final(self)@ == old(self)@.replied(bytes@),
            final(self).kitty_graphics == old(self).kitty_graphics,
            final(self).sync_output_start == old(self).sync_output_start,
    {
        push_bytes(&mut self.output_buffer, bytes);
    }

    /// Row and column. The row is one of the screen; the column is too, or the one behind
    /// the last, unless a character was written that is wider than the screen.
    pub fn get_cursor_pos(&self) -> (pos: (usize, usize))
        ensures
            pos.0 == self@.cursor_row,
            pos.1 == self@.cursor_col,
            self.wf() ==> pos.0 < self@.rows(),
            self.wf() && self@.widest <= self@.cols() ==> pos.1 <= self@.cols(),
    {
        (self.cursor_row, self.cursor_col)
    }

    /// The replies that wait, which are forgotten.
    pub fn get_output(&mut self) -> (output: Vec<u8>)
        requires
            old(self).wf(),
        ensures
            final(self).wf(),
            output@ == old(self)@.output,
            final(self)@ == (TerminalModel { output: Seq::empty(), ..old(self)@ }),
            final(self).kitty_graphics == old(self).kitty_graphics,
            final(self).sync_output_start == old(self).sync_output_start,
    {
        let mut output: Vec<u8> = Vec::new();
        std::mem::swap(&mut output, &mut self.output_buffer);
        output
    }

    /// The text that an input method is composing.
    pub fn set_preedit(&mut self, text: String, selection: Option<std::ops::Range<usize>>)
        requires
            old(self).wf(),
        ensures
            final(self).wf(),
            final(self)@ == (TerminalModel {
                preedit_text: text@,
                preedit_selection: range_view(selection),
                ..old(self)@
            }),
            final(self).kitty_graphics == old(self).kitty_graphics,
            final(self).sync_output_start == old(self).sync_output_start,
    {
        self.preedit_text = text;
        self.preedit_selection = selection;
    }

    pub fn clear_preedit(&mut self)
        requires
            old(self).wf(),
        ensures
            final(self).wf(),
            final(self)@ == (TerminalModel {
                preedit_text: Seq::empty(),
                preedit_selection: None,
                ..old(self)@
            }),
            final(self).kitty_graphics == old(self).kitty_graphics,
            final(self).sync_output_start == old(self).sync_output_start,
    {
        self.preedit_text = String::new();
        self.preedit_selection = None;
        proof {
            assert(self.preedit_text@ =~= Seq::empty());
        }
    }
}

/// The lines that are told as changed after a version are exactly those with a later one,
/// from top to bottom.
pub proof fn changed_lines_are_told(versions: Seq<u64>, last: u64, r: usize)
    requires
        versions.len() <= usize::MAX,
    ensures
        changed_rows(versions, last).contains(r) <==> r < versions.len() && versions[r as int] > last,
        forall|a: int, b: int|
            0 <= a < b < changed_rows(versions, last).len() ==> #[trigger] changed_rows(
                versions,
                last,
            )[a] < #[trigger] changed_rows(versions, last)[b],
        forall|a: int|
            0 <= a < changed_rows(versions, last).len() ==> #[trigger] changed_rows(
                versions,
                last,
            )[a] < versions.len(),
    decreases versions.len(),
{
    if versions.len() > 0 {
        let init = versions.drop_last();
        changed_lines_are_told(init, last, r);
        let before = changed_rows(init, last);
        let all = changed_rows(versions, last);
        if before.contains(r) {
            let k = choose|k: int| 0 <= k < before.len() && before[k] == r;
            assert(all[k] == r);
        }
        if all.contains(r) && r < init.len() {
            let k = choose|k: int| 0 <= k < all.len() && all[k] == r;
            assert(k < before.len());
            assert(before[k] == r);
        }
        if r == versions.len() - 1 && versions.last() > last {
            assert(all[all.len() - 1] == r);
        }
        if all.contains(r) {
            let k = choose|k: int| 0 <= k < all.len() && all[k] == r;
            if k < before.len() {
                assert(before[k] == r);
            }
        }
    }
}

} // verus!
