//! OSC sequences: titles, links, colours, notifications, shell marks, clipboard.

use super::model::TerminalModel;
use super::state::{notifications_view, requests_view, text_view, TerminalState};
use super::types::{ClipboardReadKind, ClipboardReadRequest, CommandZone, ZoneState};
use crate::outside::{base64_decode, base64_decoding, base64_encode, base64_of};
use crate::text::{
    after_prefix, chars_of, cut_at, hex4, is_text, parse_i32, parse_number, parse_signed,
    parse_unsigned, push_hex4, push_text, same_text, split, split_chars, split_once, string_of,
    strip_prefix, utf8_text,
};
use vstd::prelude::*;
use vstd::utf8::{decode_utf8, encode_utf8, valid_utf8};

verus! {

/// The end of an OSC reply.
pub open spec fn osc_end() -> Seq<u8> {
    encode_utf8("\x1b\\"@)
}

/// A base64 text decoded to text, if both steps succeed.
pub open spec fn base64_text(s: Seq<char>) -> Option<Seq<char>> {
    match base64_decoding(s) {
        Ok(bytes) => if valid_utf8(bytes) {
            Some(decode_utf8(bytes))
        } else {
            None
        },
        Err(_) => None,
    }
}

/// The low byte of a colour component scaled down.
pub open spec fn component(v: nat, scale: nat) -> u8 {
    ((v / scale) % 256) as u8
}

/// A colour: `#RRGGBB`, or `rgb:R/G/B` with one to four digits each. Four digits
/// in the first component mean that all are scaled down from 16 bits.
#[verifier::opaque]
pub open spec fn parse_color(s: Seq<char>) -> Option<(u8, u8, u8)> {
    match (after_prefix(s, "#"@), after_prefix(s, "rgb:"@)) {
        (Some(hex), _) => if hex.len() == 6 {
            match (
                parse_unsigned(hex.subrange(0, 2), 16, 255),
                parse_unsigned(hex.subrange(2, 4), 16, 255),
                parse_unsigned(hex.subrange(4, 6), 16, 255),
            ) {
                (Some(r), Some(g), Some(b)) => Some((r as u8, g as u8, b as u8)),
                _ => None,
            }
        } else {
            None
        },
        (None, Some(rgb)) => {
            let parts = split(rgb, '/');
            if parts.len() == 3 {
                let scale: nat = if parts[0].len() == 4 {
                    257
                } else {
                    1
                };
                match (
                    parse_unsigned(parts[0], 16, 65535),
                    parse_unsigned(parts[1], 16, 65535),
                    parse_unsigned(parts[2], 16, 65535),
                ) {
                    (Some(r), Some(g), Some(b)) => Some(
                        (component(r, scale), component(g, scale), component(b, scale)),
                    ),
                    _ => None,
                }
            } else {
                None
            }
        },
        (None, None) => None,
    }
}

/// The reply to a colour query: the command, and each component widened to 16 bits.
pub open spec fn color_reply(command: Seq<char>, color: (u8, u8, u8)) -> Seq<u8> {
    encode_utf8("\x1b]"@) + encode_utf8(command) + encode_utf8(";rgb:"@) + hex4(
        (color.0 * 257) as nat,
    ) + encode_utf8("/"@) + hex4((color.1 * 257) as nat) + encode_utf8("/"@) + hex4(
        (color.2 * 257) as nat,
    ) + osc_end()
}

/// The first `n` characters.
pub open spec fn first_chars(s: Seq<char>, n: int) -> Seq<char> {
    if s.len() <= n {
        s
    } else {
        s.subrange(0, n)
    }
}

/// The value of the first `id=` field.
pub open spec fn first_id(fields: Seq<Seq<char>>) -> Option<Seq<char>>
    decreases fields.len(),
{
    if fields.len() == 0 {
        None
    } else {
        match after_prefix(fields[0], "id="@) {
            Some(id) => Some(id),
            None => first_id(fields.drop_first()),
        }
    }
}

/// What the fields of a clipboard request say; a later field replaces an earlier one.
pub struct ClipboardFields {
    pub kind: Option<Seq<char>>,
    pub mime: Option<Seq<char>>,
    pub password: Option<Seq<char>>,
}

impl ClipboardFields {
    pub open spec fn with_field(self, field: Seq<char>) -> Self {
        match after_prefix(field, "type="@) {
            Some(v) => ClipboardFields { kind: Some(v), ..self },
            None => match after_prefix(field, "mime="@) {
                Some(v) => ClipboardFields { mime: base64_text(v), ..self },
                None => match after_prefix(field, "password="@) {
                    Some(v) => ClipboardFields { password: base64_text(v), ..self },
                    None => match after_prefix(field, "pw="@) {
                        Some(v) => ClipboardFields { password: base64_text(v), ..self },
                        None => self,
                    },
                },
            },
        }
    }

    pub open spec fn of(fields: Seq<Seq<char>>) -> Self
        decreases fields.len(),
    {
        if fields.len() == 0 {
            ClipboardFields { kind: None, mime: None, password: None }
        } else {
            Self::of(fields.drop_last()).with_field(fields.last())
        }
    }
}

/// The exit code behind a `D` mark: what follows the character after it.
pub open spec fn exit_code_of(value: Seq<char>) -> Option<i32> {
    if value.len() >= 2 && (value[1] as u32) < 128 {
        match parse_signed(value.subrange(2, value.len() as int)) {
            Some(v) => Some(v as i32),
            None => None,
        }
    } else {
        None
    }
}

/// A command zone added; of more than 256 the oldest goes.
pub open spec fn zone_added(zones: Seq<CommandZone>, zone: CommandZone) -> Seq<CommandZone> {
    if zones.len() >= 256 {
        zones.push(zone).drop_first()
    } else {
        zones.push(zone)
    }
}

/// The zone of a command that ends in line `row`, if it was started.
pub open spec fn finished_zone(state: ZoneState, row: usize, exit_code: Option<i32>) -> Option<
    CommandZone,
> {
    match state {
        ZoneState::OutputStarted(prompt, command, output) => Some(
            CommandZone {
                prompt_start: prompt,
                command_start: Some(command),
                output_start: Some(output),
                output_end: Some(row),
                exit_code,
            },
        ),
        ZoneState::CommandStarted(prompt, command) => Some(
            CommandZone {
                prompt_start: prompt,
                command_start: Some(command),
                output_start: None,
                output_end: Some(row),
                exit_code,
            },
        ),
        _ => None,
    }
}

/// How far a command is after a mark in line `row`: `A` starts the prompt, `B` the
/// command behind a prompt, `C` the output behind a command.
pub open spec fn marked_zone(state: ZoneState, mark: char, row: usize) -> ZoneState {
    if mark == 'A' {
        ZoneState::PromptStarted(row)
    } else if mark == 'B' {
        match state {
            ZoneState::PromptStarted(prompt) => ZoneState::CommandStarted(prompt, row),
            _ => state,
        }
    } else if mark == 'C' {
        match state {
            ZoneState::CommandStarted(prompt, command) => ZoneState::OutputStarted(
                prompt,
                command,
                row,
            ),
            _ => state,
        }
    } else {
        state
    }
}

fn next_zone(state: ZoneState, mark: char, row: usize) -> (next: ZoneState)
    ensures
        next == marked_zone(state, mark, row),
{
    match (mark, state) {
        ('A', _) => ZoneState::PromptStarted(row),
        ('B', ZoneState::PromptStarted(prompt)) => ZoneState::CommandStarted(prompt, row),
        ('C', ZoneState::CommandStarted(prompt, command)) => ZoneState::OutputStarted(
            prompt,
            command,
            row,
        ),
        _ => state,
    }
}

impl TerminalModel {
    /// The line of the cursor, counted from the oldest line of the scrollback.
    pub open spec fn absolute_row(self) -> int {
        self.scrollback.len() + self.cursor_row
    }

    #[verifier::opaque]
    pub open spec fn title_set(self, title: Seq<char>) -> Self {
        TerminalModel { window_title: title, ..self }
    }

    /// OSC 8: opens a hyperlink, or closes it where the address is empty.
    #[verifier::opaque]
    pub open spec fn hyperlink_set(self, value: Seq<char>) -> Self {
        match split_once(value, ';') {
            Some((params, uri)) => if uri.len() == 0 {
                TerminalModel { hyperlink: None, ..self }
            } else {
                TerminalModel { hyperlink: Some((uri, first_id(split(params, ':')))), ..self }
            },
            None => if value.len() == 0 {
                TerminalModel { hyperlink: None, ..self }
            } else {
                self
            },
        }
    }

    /// OSC 10, 11 and 12: the foreground, background and cursor colours.
    #[verifier::opaque]
    pub open spec fn color_handled(self, command: Seq<char>, value: Seq<char>) -> Self {
        if value == "?"@ {
            if command == "10"@ {
                self.replied(color_reply(command, self.dynamic_fg.unwrap_or((255, 255, 255))))
            } else if command == "11"@ {
                self.replied(color_reply(command, self.dynamic_bg.unwrap_or((0, 0, 0))))
            } else if command == "12"@ {
                self.replied(
                    color_reply(command, self.dynamic_cursor_color.unwrap_or((255, 255, 255))),
                )
            } else {
                self
            }
        } else {
            match parse_color(value) {
                Some(rgb) => if command == "10"@ {
                    TerminalModel { dynamic_fg: Some(rgb), ..self }
                } else if command == "11"@ {
                    TerminalModel { dynamic_bg: Some(rgb), ..self }
                } else if command == "12"@ {
                    TerminalModel { dynamic_cursor_color: Some(rgb), ..self }
                } else {
                    self
                },
                None => self,
            }
        }
    }

    /// A notification queued, unless eight are waiting.
    #[verifier::opaque]
    pub open spec fn notified(self, title: Seq<char>, body: Seq<char>) -> Self {
        if self.notifications.len() < 8 {
            TerminalModel { notifications: self.notifications.push((title, body)), ..self }
        } else {
            self
        }
    }

    /// OSC 777: `notify;title;body`.
    #[verifier::opaque]
    pub open spec fn rxvt_notified(self, value: Seq<char>) -> Self {
        match split_once(value, ';') {
            Some((head, rest)) => if head == "notify"@ {
                match split_once(rest, ';') {
                    Some((title, body)) => self.notified(
                        first_chars(title, 256),
                        first_chars(body, 256),
                    ),
                    None => self.notified(first_chars(rest, 256), Seq::empty()),
                }
            } else {
                self
            },
            None => self,
        }
    }

    /// OSC 133: the shell's marks for prompt, command, output and end.
    #[verifier::opaque]
    pub open spec fn shell_marked(self, value: Seq<char>) -> Self {
        let row = self.absolute_row() as usize;
        if value.len() == 0 {
            self
        } else if value[0] == 'D' {
            TerminalModel {
                command_zones: match finished_zone(self.zone_state, row, exit_code_of(value)) {
                    Some(zone) => zone_added(self.command_zones, zone),
                    None => self.command_zones,
                },
                zone_state: ZoneState::Idle,
                ..self
            }
        } else {
            TerminalModel { zone_state: marked_zone(self.zone_state, value[0], row), ..self }
        }
    }

    /// OSC 52: a program sets or asks for the clipboard.
    #[verifier::opaque]
    pub open spec fn clipboard_handled(self, value: Seq<char>) -> Self {
        match split_once(value, ';') {
            Some((_, data)) => if data == "?"@ {
                TerminalModel { clipboard_query: true, ..self }
            } else if data.len() > 0 {
                match base64_text(data) {
                    Some(text) => TerminalModel { clipboard_set: Some(text), ..self },
                    None => self,
                }
            } else {
                self
            },
            None => self,
        }
    }

    /// OSC 5522: a program asks for the clipboard's types, or for one of them. A
    /// read of data needs the password of the paste event that is pending, if one is.
    #[verifier::opaque]
    pub open spec fn clipboard_asked(self, metadata: Seq<char>) -> Self {
        let fields = ClipboardFields::of(split(metadata, ':'));
        if fields.kind != Some("read"@) {
            self
        } else {
            match fields.mime {
                None => TerminalModel {
                    clipboard_requests: self.clipboard_requests.push(None),
                    ..self
                },
                Some(mime) => if self.paste_password is Some && fields.password
                    != self.paste_password {
                    self.replied(
                        encode_utf8("\x1b]5522;"@) + encode_utf8("type=read:status=EPERM"@)
                            + osc_end(),
                    )
                } else {
                    TerminalModel {
                        clipboard_requests: self.clipboard_requests.push(Some(mime)),
                        paste_password: None,
                        ..self
                    }
                },
            }
        }
    }

    /// A whole OSC sequence: a command, `;`, and its value.
    #[verifier::opaque]
    pub open spec fn osc(self, payload: Seq<char>) -> Self {
        match split_once(payload, ';') {
            None => self,
            Some((command, value)) => if command == "0"@ || command == "2"@ {
                self.title_set(value)
            } else if command == "8"@ {
                self.hyperlink_set(value)
            } else if command == "10"@ || command == "11"@ || command == "12"@ {
                self.color_handled(command, value)
            } else if command == "9"@ {
                self.notified("jterm2"@, first_chars(value, 256))
            } else if command == "777"@ {
                self.rxvt_notified(value)
            } else if command == "133"@ {
                self.shell_marked(value)
            } else if command == "52"@ {
                self.clipboard_handled(value)
            } else if command == "5522"@ {
                match split_once(value, ';') {
                    Some((metadata, _)) => self.clipboard_asked(metadata),
                    None => self.clipboard_asked(value),
                }
            } else {
                self
            },
        }
    }

    /// The bytes between `ESC ]` and the terminator: text that is no UTF-8 is ignored.
    pub open spec fn osc_bytes(self, payload: Seq<u8>) -> Self {
        if valid_utf8(payload) {
            self.osc(decode_utf8(payload))
        } else {
            self
        }
    }
}

/// At most `n` characters from the start of a text, as a string.
fn take_chars(s: &[char], n: usize) -> (text: String)
    ensures
        text@ == first_chars(s@, n as int),
{
    if s.len() <= n {
        string_of(s)
    } else {
        string_of(vstd::slice::slice_subrange(s, 0, n))
    }
}

/// The value of the first `id=` field.
fn find_id(params: &[char]) -> (id: Option<String>)
    ensures
        text_view(id) == first_id(split(params@, ':')),
{
    let fields = split_chars(params, ':');
    let ghost all = split(params@, ':');
    let mut i: usize = 0;
    proof {
        assert(all.subrange(0, all.len() as int) =~= all);
    }
    while i < fields.len()
        invariant
            i <= fields@.len() == all.len(),
            forall|k: int| 0 <= k < all.len() ==> (#[trigger] fields@[k])@ == all[k],
            first_id(all.subrange(i as int, all.len() as int)) == first_id(all),
            all == split(params@, ':'),
        decreases fields@.len() - i,
    {
        let ghost rest = all.subrange(i as int, all.len() as int);
        proof {
            assert(rest.drop_first() =~= all.subrange(i + 1, all.len() as int));
            assert(rest[0] == fields@[i as int]@);
        }
        match strip_prefix(fields[i], "id=") {
            Some(id) => {
                return Some(string_of(id));
            },
            None => {},
        }
        i = i + 1;
    }
    None
}

fn component_of(v: u64, scale: u64) -> (c: u8)
    requires
        scale == 1 || scale == 257,
    ensures
        c == component(v as nat, scale as nat),
{
    ((v / scale) % 256) as u8
}

/// The colour that three two-digit numbers give.
fn parse_hex_color(hex: &[char]) -> (color: Option<(u8, u8, u8)>)
    requires
        hex@.len() == 6,
    ensures
        color == (match (
            parse_unsigned(hex@.subrange(0, 2), 16, 255),
            parse_unsigned(hex@.subrange(2, 4), 16, 255),
            parse_unsigned(hex@.subrange(4, 6), 16, 255),
        ) {
            (Some(r), Some(g), Some(b)) => Some((r as u8, g as u8, b as u8)),
            _ => None,
        }),
{
    let r = parse_number(vstd::slice::slice_subrange(hex, 0, 2), 16, 255);
    let g = parse_number(vstd::slice::slice_subrange(hex, 2, 4), 16, 255);
    let b = parse_number(vstd::slice::slice_subrange(hex, 4, 6), 16, 255);
    match (r, g, b) {
        (Some(r), Some(g), Some(b)) => Some((r as u8, g as u8, b as u8)),
        _ => None,
    }
}

/// One field of a clipboard request.
struct ClipboardRequestFields {
    kind: Option<String>,
    mime: Option<String>,
    password: Option<String>,
}

impl ClipboardRequestFields {
    spec fn model(self) -> ClipboardFields {
        ClipboardFields {
            kind: text_view(self.kind),
            mime: text_view(self.mime),
            password: text_view(self.password),
        }
    }

    fn note_field(&mut self, field: &[char])
        ensures
            final(self).model() == old(self).model().with_field(field@),
    {
        if let Some(value) = strip_prefix(field, "type=") {
            self.kind = Some(string_of(value));
        } else if let Some(value) = strip_prefix(field, "mime=") {
            self.mime = TerminalState::decode_base64(string_of(value).as_str());
        } else if let Some(value) = strip_prefix(field, "password=") {
            self.password = TerminalState::decode_base64(string_of(value).as_str());
        } else if let Some(value) = strip_prefix(field, "pw=") {
            self.password = TerminalState::decode_base64(string_of(value).as_str());
        }
    }

    fn parse(metadata: &[char]) -> (fields: Self)
        ensures
            fields.model() == ClipboardFields::of(split(metadata@, ':')),
    {
        let parts = split_chars(metadata, ':');
        let ghost all = split(metadata@, ':');
        let mut fields = ClipboardRequestFields { kind: None, mime: None, password: None };
        let mut i: usize = 0;
        while i < parts.len()
            invariant
                i <= parts@.len() == all.len(),
                forall|k: int| 0 <= k < all.len() ==> (#[trigger] parts@[k])@ == all[k],
                fields.model() == ClipboardFields::of(all.subrange(0, i as int)),
            decreases parts@.len() - i,
        {
            proof {
                let next = all.subrange(0, i + 1);
                assert(next.drop_last() =~= all.subrange(0, i as int));
                assert(next.last() == parts@[i as int]@);
            }
            fields.note_field(parts[i]);
            i = i + 1;
        }
        proof {
            assert(all.subrange(0, i as int) =~= all);
        }
        fields
    }
}

impl TerminalState {
    pub(crate) fn decode_base64(value: &str) -> (text: Option<String>)
        ensures
            text_view(text) == base64_text(value@),
    {
        match base64_decode(value) {
            Ok(bytes) => utf8_text(bytes),
            Err(_) => None,
        }
    }

    /// Appends an OSC 5522 reply.
    fn append_osc_5522_status(&mut self, metadata: &str, payload: Option<&str>)
        requires
            old(self).wf(),
        ensures
            final(self).wf(),
            final(self)@ == old(self)@.replied(
                encode_utf8("\x1b]5522;"@) + encode_utf8(metadata@) + (match payload {
                    Some(p) => encode_utf8(";"@) + encode_utf8(p@),
                    None => Seq::empty(),
                }) + osc_end(),
            ),
            final(self).kitty_graphics == old(self).kitty_graphics,
            final(self).sync_output_start == old(self).sync_output_start,
            final(self).widest == old(self).widest,
    {
        let ghost before = self.output_buffer@;
        push_text(&mut self.output_buffer, "\x1b]5522;");
        push_text(&mut self.output_buffer, metadata);
        if let Some(payload) = payload {
            push_text(&mut self.output_buffer, ";");
            push_text(&mut self.output_buffer, payload);
        }
        push_text(&mut self.output_buffer, "\x1b\\");
        proof {
            assert(self.output_buffer@ =~= before + (encode_utf8("\x1b]5522;"@) + encode_utf8(
                metadata@,
            ) + (match payload {
                Some(p) => encode_utf8(";"@) + encode_utf8(p@),
                None => Seq::empty(),
            }) + osc_end()));
        }
    }

    fn parse_color_spec(spec_text: &[char]) -> (color: Option<(u8, u8, u8)>)
        ensures
            color == parse_color(spec_text@),
    {
        proof {
            reveal(parse_color);
        }
        if let Some(hex) = strip_prefix(spec_text, "#") {
            if hex.len() == 6 {
                return parse_hex_color(hex);
            }
            return None;
        }
        if let Some(rgb) = strip_prefix(spec_text, "rgb:") {
            let parts = split_chars(rgb, '/');
            if parts.len() == 3 {
                let scale: u64 = if parts[0].len() == 4 {
                    257
                } else {
                    1
                };
                let r = parse_number(parts[0], 16, 65535);
                let g = parse_number(parts[1], 16, 65535);
                let b = parse_number(parts[2], 16, 65535);
                return match (r, g, b) {
                    (Some(r), Some(g), Some(b)) => Some(
                        (component_of(r, scale), component_of(g, scale), component_of(b, scale)),
                    ),
                    _ => None,
                };
            }
        }
        None
    }

    /// Answers a colour query.
    fn append_color_reply(&mut self, command: &[char], color: (u8, u8, u8))
        requires
            old(self).wf(),
        ensures
            final(self).wf(),
            final(self)@ == old(self)@.replied(color_reply(command@, color)),
            final(self).kitty_graphics == old(self).kitty_graphics,
            final(self).sync_output_start == old(self).sync_output_start,
            final(self).widest == old(self).widest,
    {
        let ghost before = self.output_buffer@;
        let command_text = string_of(command);
        push_text(&mut self.output_buffer, "\x1b]");
        push_text(&mut self.output_buffer, command_text.as_str());
        push_text(&mut self.output_buffer, ";rgb:");
        push_hex4(&mut self.output_buffer, color.0 as u16 * 257);
        push_text(&mut self.output_buffer, "/");
        push_hex4(&mut self.output_buffer, color.1 as u16 * 257);
        push_text(&mut self.output_buffer, "/");
        push_hex4(&mut self.output_buffer, color.2 as u16 * 257);
        push_text(&mut self.output_buffer, "\x1b\\");
        proof {
            assert(self.output_buffer@ =~= before + color_reply(command@, color));
        }
    }

    fn handle_osc_color(&mut self, command: &[char], value: &[char])
        requires
            old(self).wf(),
        ensures
            final(self).wf(),
            final(self)@ == old(self)@.color_handled(command@, value@),
            final(self).kitty_graphics == old(self).kitty_graphics,
            final(self).sync_output_start == old(self).sync_output_start,
            final(self).widest == old(self).widest,
    {
        proof {
            reveal(TerminalModel::color_handled);
        }
        let is_fg = is_text(command, "10");
        let is_bg = is_text(command, "11");
        let is_cursor = is_text(command, "12");
        if is_text(value, "?") {
            let color = if is_fg {
                self.dynamic_fg.unwrap_or((255, 255, 255))
            } else if is_bg {
                self.dynamic_bg.unwrap_or((0, 0, 0))
            } else if is_cursor {
                self.dynamic_cursor_color.unwrap_or((255, 255, 255))
            } else {
                return ;
            };
            self.append_color_reply(command, color);
        } else if let Some(rgb) = Self::parse_color_spec(value) {
            if is_fg {
                self.dynamic_fg = Some(rgb);
            } else if is_bg {
                self.dynamic_bg = Some(rgb);
            } else if is_cursor {
                self.dynamic_cursor_color = Some(rgb);
            }
        }
    }

    fn set_title(&mut self, value: &[char])
        requires
            old(self).wf(),
        ensures
            final(self).wf(),
            final(self)@ == old(self)@.title_set(value@),
            final(self).kitty_graphics == old(self).kitty_graphics,
            final(self).sync_output_start == old(self).sync_output_start,
            final(self).widest == old(self).widest,
    {
        proof {
            reveal(TerminalModel::title_set);
        }
        self.window_title = string_of(value);
    }

    #[verifier::spinoff_prover]
    #[verifier::rlimit(30)]
    fn set_hyperlink(&mut self, value: &[char])
        requires
            old(self).wf(),
        ensures
            final(self).wf(),
            final(self)@ == old(self)@.hyperlink_set(value@),
            final(self).kitty_graphics == old(self).kitty_graphics,
            final(self).sync_output_start == old(self).sync_output_start,
            final(self).widest == old(self).widest,
    {
        proof {
            reveal(TerminalModel::hyperlink_set);
        }
        match cut_at(value, ';') {
            Some((params, uri)) => {
                if uri.len() == 0 {
                    self.current_hyperlink = None;
                } else {
                    self.current_hyperlink = Some((string_of(uri), find_id(params)));
                }
            },
            None => {
                if value.len() == 0 {
                    self.current_hyperlink = None;
                }
            },
        }
    }

    fn notify(&mut self, title: String, body: String)
        requires
            old(self).wf(),
        ensures
            final(self).wf(),
            final(self)@ == old(self)@.notified(title@, body@),
            final(self).kitty_graphics == old(self).kitty_graphics,
            final(self).sync_output_start == old(self).sync_output_start,
            final(self).widest == old(self).widest,
    {
        proof {
            reveal(TerminalModel::notified);
        }
        if self.pending_notifications.len() < 8 {
            let ghost before = self.pending_notifications@;
            self.pending_notifications.push((title, body));
            proof {
                assert(notifications_view(self.pending_notifications@) =~= notifications_view(
                    before,
                ).push((title@, body@)));
            }
        }
    }

    fn handle_osc_777(&mut self, value: &[char])
        requires
            old(self).wf(),
        ensures
            final(self).wf(),
            final(self)@ == old(self)@.rxvt_notified(value@),
            final(self).kitty_graphics == old(self).kitty_graphics,
            final(self).sync_output_start == old(self).sync_output_start,
            final(self).widest == old(self).widest,
    {
        proof {
            reveal(TerminalModel::rxvt_notified);
        }
        if let Some((head, rest)) = cut_at(value, ';') {
            if is_text(head, "notify") {
                match cut_at(rest, ';') {
                    Some((title, body)) => self.notify(
                        take_chars(title, 256),
                        take_chars(body, 256),
                    ),
                    None => self.notify(take_chars(rest, 256), String::new()),
                }
            }
        }
    }

    /// Ends the current command zone.
    fn finish_zone(&mut self, row: usize, exit_code: Option<i32>)
        requires
            old(self).wf(),
        ensures
            final(self).wf(),
            final(self)@ == (TerminalModel {
                command_zones: match finished_zone(old(self)@.zone_state, row, exit_code) {
                    Some(zone) => zone_added(old(self)@.command_zones, zone),
                    None => old(self)@.command_zones,
                },
                zone_state: ZoneState::Idle,
                ..old(self)@
            }),
            final(self).kitty_graphics == old(self).kitty_graphics,
            final(self).sync_output_start == old(self).sync_output_start,
            final(self).widest == old(self).widest,
    {
        let zone = match self.current_zone_state {
            ZoneState::OutputStarted(prompt_start, command, output) => Some(
                CommandZone {
                    prompt_start,
                    command_start: Some(command),
                    output_start: Some(output),
                    output_end: Some(row),
                    exit_code,
                },
            ),
            ZoneState::CommandStarted(prompt_start, command) => Some(
                CommandZone {
                    prompt_start,
                    command_start: Some(command),
                    output_start: None,
                    output_end: Some(row),
                    exit_code,
                },
            ),
            _ => None,
        };
        if let Some(zone) = zone {
            self.command_zones.push_back(zone);
            if self.command_zones.len() > 256 {
                self.command_zones.pop_front();
            }
            proof {
                assert(self.command_zones@ =~= zone_added(old(self).command_zones@, zone));
            }
        }
        self.current_zone_state = ZoneState::Idle;
    }

    fn handle_osc_133(&mut self, value: &[char])
        requires
            old(self).wf(),
        ensures
            final(self).wf(),
            final(self)@ == old(self)@.shell_marked(value@),
            final(self).kitty_graphics == old(self).kitty_graphics,
            final(self).sync_output_start == old(self).sync_output_start,
            final(self).widest == old(self).widest,
    {
        proof {
            reveal(TerminalModel::shell_marked);
        }
        if value.len() == 0 {
            return ;
        }
        let row: usize = self.scrollback.len() + self.cursor_row;
        if value[0] == 'D' {
            let exit_code = if value.len() >= 2 && (value[1] as u32) < 128 {
                parse_i32(vstd::slice::slice_subrange(value, 2, value.len()))
            } else {
                None
            };
            self.finish_zone(row, exit_code);
        } else {
            self.current_zone_state = next_zone(self.current_zone_state, value[0], row);
        }
    }

    fn handle_osc_52(&mut self, value: &[char])
        requires
            old(self).wf(),
        ensures
            final(self).wf(),
            final(self)@ == old(self)@.clipboard_handled(value@),
            final(self).kitty_graphics == old(self).kitty_graphics,
            final(self).sync_output_start == old(self).sync_output_start,
            final(self).widest == old(self).widest,
    {
        proof {
            reveal(TerminalModel::clipboard_handled);
        }
        if let Some((_, data)) = cut_at(value, ';') {
            if is_text(data, "?") {
                self.pending_osc52_clipboard_query = true;
            } else if data.len() > 0 {
                let text = string_of(data);
                let decoded = Self::decode_base64(text.as_str());
                if decoded.is_some() {
                    self.pending_osc52_clipboard_set = decoded;
                }
            }
        }
    }

    /// Queues a clipboard request.
    fn queue_request(&mut self, kind: ClipboardReadKind)
        requires
            old(self).wf(),
        ensures
            final(self).wf(),
            final(self)@ == (TerminalModel {
                clipboard_requests: old(self)@.clipboard_requests.push(
                    (ClipboardReadRequest { kind }).mime(),
                ),
                ..old(self)@
            }),
            final(self).kitty_graphics == old(self).kitty_graphics,
            final(self).sync_output_start == old(self).sync_output_start,
            final(self).widest == old(self).widest,
    {
        let request = ClipboardReadRequest { kind };
        let ghost before = self.pending_clipboard_requests@;
        self.pending_clipboard_requests.push(request);
        proof {
            assert(requests_view(self.pending_clipboard_requests@) =~= requests_view(before).push(
                request.mime(),
            ));
        }
    }

    fn handle_osc_5522(&mut self, metadata: &[char])
        requires
            old(self).wf(),
        ensures
            final(self).wf(),
            final(self)@ == old(self)@.clipboard_asked(metadata@),
            final(self).kitty_graphics == old(self).kitty_graphics,
            final(self).sync_output_start == old(self).sync_output_start,
            final(self).widest == old(self).widest,
    {
        proof {
            reveal(TerminalModel::clipboard_asked);
        }
        let fields = ClipboardRequestFields::parse(metadata);
        let is_read = match &fields.kind {
            Some(kind) => same_text(kind.as_str(), "read"),
            None => false,
        };
        if !is_read {
            return ;
        }
        match fields.mime {
            None => self.queue_request(ClipboardReadKind::MimeList),
            Some(mime) => {
                let allowed = match (&self.pending_paste_password, &fields.password) {
                    (None, _) => true,
                    (Some(expected), Some(given)) => same_text(expected.as_str(), given.as_str()),
                    (Some(_), None) => false,
                };
                if !allowed {
                    self.append_osc_5522_status("type=read:status=EPERM", None);
                    proof {
                        let head = encode_utf8("\x1b]5522;"@) + encode_utf8(
                            "type=read:status=EPERM"@,
                        );
                        assert(head + Seq::<u8>::empty() =~= head);
                    }
                    return ;
                }
                self.pending_paste_password = None;
                self.queue_request(ClipboardReadKind::MimeData(mime));
            },
        }
    }

    /// Carries out an OSC sequence.
    pub(crate) fn handle_osc(&mut self, payload: &[char])
        requires
            old(self).wf(),
        ensures
            final(self).wf(),
            final(self)@ == old(self)@.osc(payload@),
            final(self).kitty_graphics == old(self).kitty_graphics,
            final(self).sync_output_start == old(self).sync_output_start,
            final(self).widest == old(self).widest,
    {
        proof {
            reveal(TerminalModel::osc);
        }
        if let Some((command, value)) = cut_at(payload, ';') {
            if is_text(command, "0") || is_text(command, "2") {
                self.set_title(value);
            } else if is_text(command, "8") {
                self.set_hyperlink(value);
            } else if is_text(command, "10") || is_text(command, "11") || is_text(command, "12") {
                self.handle_osc_color(command, value);
            } else if is_text(command, "9") {
                let title = string_of(chars_of("jterm2").as_slice());
                self.notify(title, take_chars(value, 256));
            } else if is_text(command, "777") {
                self.handle_osc_777(value);
            } else if is_text(command, "133") {
                self.handle_osc_133(value);
            } else if is_text(command, "52") {
                self.handle_osc_52(value);
            } else if is_text(command, "5522") {
                match cut_at(value, ';') {
                    Some((metadata, _)) => self.handle_osc_5522(metadata),
                    None => self.handle_osc_5522(value),
                }
            }
        }
    }

    // ---- the clipboard's side ----

    pub fn take_osc52_clipboard_set(&mut self) -> (text: Option<String>)
        requires
            old(self).wf(),
        ensures
            final(self).wf(),
            text_view(text) == old(self)@.clipboard_set,
            final(self)@ == (TerminalModel { clipboard_set: None, ..old(self)@ }),
            final(self).kitty_graphics == old(self).kitty_graphics,
            final(self).sync_output_start == old(self).sync_output_start,
            final(self).widest == old(self).widest,
    {
        self.pending_osc52_clipboard_set.take()
    }

    pub fn take_osc52_clipboard_query(&mut self) -> (asked: bool)
        requires
            old(self).wf(),
        ensures
            final(self).wf(),
            asked == old(self)@.clipboard_query,
            final(self)@ == (TerminalModel { clipboard_query: false, ..old(self)@ }),
            final(self).kitty_graphics == old(self).kitty_graphics,
            final(self).sync_output_start == old(self).sync_output_start,
            final(self).widest == old(self).widest,
    {
        let asked = self.pending_osc52_clipboard_query;
        self.pending_osc52_clipboard_query = false;
        asked
    }

    /// Answers an OSC 52 query with the clipboard's text.
    pub fn respond_osc52_clipboard(&mut self, content: &str)
        requires
            old(self).wf(),
        ensures
            final(self).wf(),
            final(self)@ == old(self)@.replied(
                encode_utf8("\x1b]52;c;"@) + encode_utf8(base64_of(encode_utf8(content@)))
                    + osc_end(),
            ),
            base64_text(base64_of(encode_utf8(content@))) == Some(content@),
            final(self).kitty_graphics == old(self).kitty_graphics,
            final(self).sync_output_start == old(self).sync_output_start,
            final(self).widest == old(self).widest,
    {
        let encoded = base64_encode(content.as_bytes());
        let ghost before = self.output_buffer@;
        push_text(&mut self.output_buffer, "\x1b]52;c;");
        push_text(&mut self.output_buffer, encoded.as_str());
        push_text(&mut self.output_buffer, "\x1b\\");
        proof {
            vstd::utf8::encode_utf8_valid_utf8(content@);
            vstd::utf8::encode_utf8_decode_utf8(content@);
            assert(self.output_buffer@ =~= before + (encode_utf8("\x1b]52;c;"@) + encode_utf8(
                encoded@,
            ) + osc_end()));
        }
    }
}

} // verus!
