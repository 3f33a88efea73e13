//! The input stream: from bytes to what they do.

use super::csi::csi_params;
use super::model::{next_stop, TerminalModel};
use super::state::TerminalState;
use super::types::Charset;
use crate::char_width::char_width;
use crate::kitty_graphics::model::KittyModel;
use crate::kitty_graphics::{asks_for_transfer, handled_after, start_kept};
use crate::text::{chars_of, copy_bytes, push_bytes, strip_prefix, utf8_text};
use vstd::prelude::*;
use vstd::utf8::{decode_utf8, valid_utf8};

verus! {

/// An incomplete escape sequence longer than this is given up.
pub const MAX_PENDING_ESCAPE: usize = 1_048_576;

/// The outcome of one step: the terminal, the position behind what was read, and
/// the graphics command that was found, if one was.
pub struct Step {
    pub state: TerminalModel,
    pub next: int,
    pub graphics: Option<Seq<char>>,
}

/// The first position at or after `i` at which an OSC sequence ends: a BEL, or `ESC \`.
pub open spec fn osc_end_at(data: Seq<u8>, i: int) -> int
    decreases data.len() - i,
{
    if i >= data.len() {
        data.len() as int
    } else if data[i] == 7 || (i + 1 < data.len() && data[i] == 27 && data[i + 1] == 92) {
        i
    } else {
        osc_end_at(data, i + 1)
    }
}

/// The first position at or after `i` that holds `ESC \`.
pub open spec fn string_end_at(data: Seq<u8>, i: int) -> int
    decreases data.len() - i,
{
    if i >= data.len() {
        data.len() as int
    } else if i + 1 < data.len() && data[i] == 27 && data[i + 1] == 92 {
        i
    } else {
        string_end_at(data, i + 1)
    }
}

/// The first position at or after `i` that holds no printable ASCII byte.
pub open spec fn ascii_end(data: Seq<u8>, i: int) -> int
    decreases data.len() - i,
{
    if i >= data.len() {
        data.len() as int
    } else if data[i] < 32 || data[i] > 126 {
        i
    } else {
        ascii_end(data, i + 1)
    }
}

/// The parts of a CSI sequence.
#[verifier::ext_equal]
pub struct CsiParts {
    pub params: Seq<u8>,
    pub intermediates: Seq<u8>,
    /// Where the final byte stands.
    pub end: int,
}

impl CsiParts {
    /// One more parameter byte; of more than 32 the rest is ignored.
    pub open spec fn with_param(self, b: u8) -> Self {
        if self.params.len() < 32 {
            CsiParts { params: self.params.push(b), ..self }
        } else {
            self
        }
    }

    /// One more intermediate byte; of more than 8 the rest is ignored.
    pub open spec fn with_intermediate(self, b: u8) -> Self {
        if self.intermediates.len() < 8 {
            CsiParts { intermediates: self.intermediates.push(b), ..self }
        } else {
            self
        }
    }

    /// Reads on from position `i`; nothing where no final byte comes.
    pub open spec fn read(self, data: Seq<u8>, i: int) -> Option<Self>
        decreases data.len() - i,
    {
        if i >= data.len() {
            None
        } else if 0x30 <= data[i] <= 0x3f {
            self.with_param(data[i]).read(data, i + 1)
        } else if 0x20 <= data[i] <= 0x2f {
            self.with_intermediate(data[i]).read(data, i + 1)
        } else if 0x40 <= data[i] <= 0x7e {
            Some(CsiParts { end: i, ..self })
        } else {
            None
        }
    }

    pub open spec fn empty() -> Self {
        CsiParts { params: Seq::empty(), intermediates: Seq::empty(), end: 0 }
    }
}

/// A byte that marks a sequence as private where it comes first.
pub open spec fn is_private(b: u8) -> bool {
    0x3c <= b <= 0x3f
}

/// A byte that continues a UTF-8 character.
pub open spec fn continues_char(b: u8) -> bool {
    0x80 <= b <= 0xbf
}

/// How many bytes a character has that starts with `b`; none where no character does.
pub open spec fn char_length(b: u8) -> int {
    if 0xc2 <= b <= 0xdf {
        2
    } else if 0xe0 <= b <= 0xef {
        3
    } else if 0xf0 <= b <= 0xf4 {
        4
    } else {
        0
    }
}

/// Whether a text holds `a=`.
pub open spec fn has_action(s: Seq<char>) -> bool {
    exists|i: int| 0 <= i && i + 1 < s.len() && #[trigger] s[i] == 'a' && s[i + 1] == '='
}

/// The graphics command that a device control string holds.
pub open spec fn graphics_command(payload: Seq<u8>) -> Option<Seq<char>> {
    if valid_utf8(payload) {
        let s = decode_utf8(payload);
        if "@"@.is_prefix_of(s) || has_action(s) || "kitty"@.is_prefix_of(s) {
            Some(s)
        } else {
            None
        }
    } else {
        None
    }
}

/// Whether a CSI sequence that starts at `i` sets or resets synchronized output (mode 2026).
pub open spec fn switches_sync(data: Seq<u8>, i: int) -> bool {
    &&& i + 1 < data.len()
    &&& data[i] == 27
    &&& data[i + 1] == 91
    &&& CsiParts::empty().read(data, i + 2) matches Some(parts) && (data[parts.end] == 104
        || data[parts.end] == 108) && parts.params.len() > 0 && parts.params[0] == 63
        && csi_params(parts.params.drop_first()).contains(2026)
}

impl TerminalModel {
    /// A step that reads up to `next` and finds no graphics command.
    pub open spec fn up_to(self, next: int) -> Step {
        Step { state: self, next, graphics: None }
    }

    /// An incomplete sequence that starts at `i`, kept until more comes.
    #[verifier::opaque]
    pub open spec fn kept_from(self, data: Seq<u8>, i: int) -> Step {
        (TerminalModel {
            pending_escape: self.pending_escape + data.subrange(i, data.len() as int),
            ..self
        }).up_to(data.len() as int)
    }

    #[verifier::opaque]
    pub open spec fn with_active(self, charset: Charset) -> Self {
        TerminalModel { active_charset: charset, ..self }
    }

    /// `ESC ( c` and `ESC ) c`.
    #[verifier::opaque]
    pub open spec fn charset_selected(self, first: bool, designator: u8) -> Self {
        let charset = if designator == 48 {
            Charset::DecSpecialGraphics
        } else {
            Charset::Ascii
        };
        if first {
            TerminalModel { g0_charset: charset, active_charset: charset, ..self }
        } else {
            TerminalModel { g1_charset: charset, ..self }
        }
    }

    /// The bytes of an incomplete character.
    #[verifier::opaque]
    pub open spec fn with_utf8(self, bytes: Seq<u8>, expected: int) -> Self {
        TerminalModel { utf8: bytes, utf8_expected: expected, ..self }
    }

    /// The character that some bytes encode printed, if they encode one.
    pub open spec fn printed_bytes(self, bytes: Seq<u8>) -> Self {
        if valid_utf8(bytes) && decode_utf8(bytes).len() > 0 {
            self.printed(decode_utf8(bytes)[0])
        } else {
            self
        }
    }

    /// An OSC sequence; `start` is the position of its ESC.
    #[verifier::opaque]
    pub open spec fn osc_step(self, data: Seq<u8>, start: int) -> Step {
        let end = osc_end_at(data, start + 2);
        if end >= data.len() {
            self.kept_from(data, start)
        } else {
            self.osc_bytes(data.subrange(start + 2, end)).up_to(
                if data[end] == 7 {
                    end + 1
                } else {
                    end + 2
                },
            )
        }
    }

    /// A device control, application or similar string.
    #[verifier::opaque]
    pub open spec fn string_step(self, data: Seq<u8>, start: int) -> Step {
        let end = string_end_at(data, start + 2);
        if end >= data.len() {
            self.kept_from(data, start)
        } else {
            Step {
                state: self,
                next: end + 2,
                graphics: graphics_command(data.subrange(start + 2, end)),
            }
        }
    }

    /// A CSI sequence.
    #[verifier::opaque]
    pub open spec fn csi_step(self, data: Seq<u8>, start: int) -> Step {
        match CsiParts::empty().read(data, start + 2) {
            None => self.kept_from(data, start),
            Some(parts) => {
                let private = parts.params.len() > 0 && is_private(parts.params[0]);
                let raw = if private {
                    parts.params.drop_first()
                } else {
                    parts.params
                };
                self.csi(
                    csi_params(raw),
                    raw,
                    data[parts.end] as char,
                    if private {
                        Some(parts.params[0])
                    } else {
                        None
                    },
                    parts.intermediates,
                ).up_to(parts.end + 1)
            },
        }
    }

    /// An escape sequence.
    #[verifier::opaque]
    pub open spec fn escape_step(self, data: Seq<u8>, i: int) -> Step {
        if i + 1 >= data.len() {
            self.kept_from(data, i)
        } else {
            match data[i + 1] {
                // 7, 8: save and restore the cursor
                55 => self.cursor_saved().up_to(i + 2),
                56 => self.cursor_restored().up_to(i + 2),
                // E: next line
                69 => self.with_col(0).line_fed().up_to(i + 2),
                // H: set a tab stop
                72 => self.tab_stop_at_cursor(true).up_to(i + 2),
                // c: reset
                99 => self.reset_to_initial().up_to(i + 2),
                // # 8: alignment pattern
                35 => if i + 2 < data.len() && data[i + 2] == 56 {
                    self.aligned().up_to(i + 3)
                } else {
                    self.up_to(i + 2)
                },
                // ]
                93 => self.osc_step(data, i),
                // P, X, ^, _
                80 | 88 | 94 | 95 => self.string_step(data, i),
                // ( and )
                40 | 41 => if i + 2 >= data.len() {
                    self.kept_from(data, i)
                } else {
                    self.charset_selected(data[i + 1] == 40, data[i + 2]).up_to(i + 3)
                },
                // M, D: index and reverse index
                77 => self.reverse_indexed().up_to(i + 2),
                68 => self.indexed().up_to(i + 2),
                // [
                91 => self.csi_step(data, i),
                // Keypad modes and all else: two bytes are read and nothing is done.
                _ => self.up_to(i + 2),
            }
        }
    }

    /// Printable ASCII: a whole run at once, unless each character needs a look of
    /// its own.
    #[verifier::opaque]
    pub open spec fn ascii_step(self, data: Seq<u8>, i: int) -> Step {
        if self.utf8.len() == 0 && self.active_charset == Charset::Ascii && !self.has(4) {
            let end = ascii_end(data, i + 1);
            self.run_printed(data.subrange(i, end)).up_to(end)
        } else {
            self.printed(data[i] as char).up_to(i + 1)
        }
    }

    /// The first byte of a character of `n` bytes.
    #[verifier::opaque]
    pub open spec fn lead_step(self, data: Seq<u8>, i: int, n: int) -> Step {
        if i + n <= data.len() && (forall|k: int|
            i < k < i + n ==> continues_char(#[trigger] data[k])) {
            self.printed_bytes(data.subrange(i, i + n)).up_to(i + n)
        } else {
            self.with_utf8(seq![data[i]], n).up_to(i + 1)
        }
    }

    /// A byte of its own: it continues a character, or ends what there was of one.
    #[verifier::opaque]
    pub open spec fn trail_step(self, data: Seq<u8>, i: int) -> Step {
        if self.utf8.len() > 0 && continues_char(data[i]) {
            let bytes = self.utf8.push(data[i]);
            if bytes.len() == self.utf8_expected {
                self.printed_bytes(bytes).with_utf8(Seq::empty(), 0).up_to(i + 1)
            } else {
                self.with_utf8(bytes, self.utf8_expected).up_to(i + 1)
            }
        } else {
            self.with_utf8(Seq::empty(), 0).up_to(i + 1)
        }
    }

    /// What starts at position `i`.
    #[verifier::opaque]
    pub open spec fn step(self, data: Seq<u8>, i: int) -> Step {
        let b = data[i];
        if b == 8 {
            self.with_col(
                if self.cursor_col > 0 {
                    self.cursor_col - 1
                } else {
                    0
                },
            ).up_to(i + 1)
        } else if b == 127 || b == 7 {
            self.up_to(i + 1)
        } else if b == 10 {
            self.line_fed().up_to(i + 1)
        } else if b == 13 {
            self.with_col(0).up_to(i + 1)
        } else if b == 14 {
            self.with_active(self.g1_charset).up_to(i + 1)
        } else if b == 15 {
            self.with_active(self.g0_charset).up_to(i + 1)
        } else if b == 9 {
            self.with_col(next_stop(self.tab_stops, self.cursor_col)).up_to(i + 1)
        } else if b == 27 {
            self.escape_step(data, i)
        } else if 32 <= b <= 126 {
            self.ascii_step(data, i)
        } else if char_length(b) > 0 {
            self.lead_step(data, i, char_length(b))
        } else {
            self.trail_step(data, i)
        }
    }

    /// Everything from position `i` on, with the graphics commands that were found.
    pub open spec fn run(self, data: Seq<u8>, i: int) -> (Self, Seq<Seq<char>>)
        decreases data.len() - i,
    {
        if i >= data.len() {
            (self, Seq::empty())
        } else {
            let s = self.step(data, i);
            let found = match s.graphics {
                Some(command) => seq![command],
                None => Seq::empty(),
            };
            if i < s.next <= data.len() {
                let rest = s.state.run(data, s.next);
                (rest.0, found + rest.1)
            } else {
                (s.state, found)
            }
        }
    }

    /// Whether nothing from position `i` on sets or resets synchronized output.
    pub open spec fn leaves_sync(self, data: Seq<u8>, i: int) -> bool
        decreases data.len() - i,
    {
        i >= data.len() || {
            let s = self.step(data, i);
            &&& !switches_sync(data, i)
            &&& i < s.next <= data.len() ==> s.state.leaves_sync(data, s.next)
        }
    }

    /// Whether from position `i` on no character is written that has more than two columns.
    pub open spec fn writes_narrow(self, data: Seq<u8>, i: int) -> bool
        decreases data.len() - i,
    {
        i >= data.len() || {
            let s = self.step(data, i);
            &&& s.state.last_printed_char matches Some(c) ==> char_width(c) <= 2
            &&& i < s.next <= data.len() ==> s.state.writes_narrow(data, s.next)
        }
    }

    /// Input behind the incomplete sequence that was kept, unless that has become too long.
    pub open spec fn behind_kept(self, input: Seq<u8>) -> Seq<u8> {
        (if self.pending_escape.len() > MAX_PENDING_ESCAPE {
            Seq::empty()
        } else {
            self.pending_escape
        }) + input
    }

    pub open spec fn with_none_kept(self) -> Self {
        TerminalModel { pending_escape: Seq::empty(), ..self }
    }

    /// Input taken in behind the incomplete sequence that was kept.
    pub open spec fn fed(self, input: Seq<u8>) -> (Self, Seq<Seq<char>>) {
        self.with_none_kept().run(self.behind_kept(input), 0)
    }

    /// Whether input, taken in so, neither sets nor resets synchronized output.
    pub open spec fn fed_leaves_sync(self, input: Seq<u8>) -> bool {
        self.with_none_kept().leaves_sync(self.behind_kept(input), 0)
    }

    /// Whether of input, taken in so, no character is written that has more than two
    /// columns.
    pub open spec fn fed_writes_narrow(self, input: Seq<u8>) -> bool {
        self.with_none_kept().writes_narrow(self.behind_kept(input), 0)
    }
}

/// Graphics commands one after the other. Before each of them the pending transfer
/// may have been given up: `expired` says where it was.
pub open spec fn graphics_run(
    state: KittyModel,
    commands: Seq<Seq<char>>,
    expired: Seq<bool>,
) -> KittyModel
    decreases commands.len(),
{
    if commands.len() == 0 {
        state
    } else {
        let before = graphics_run(state, commands.drop_last(), expired);
        (if expired[commands.len() - 1] {
            before.expired()
        } else {
            before
        }).handled(commands.last()).0
    }
}

/// Whether graphics commands lead from one state to another.
pub open spec fn graphics_led(
    before: KittyModel,
    commands: Seq<Seq<char>>,
    after: KittyModel,
) -> bool {
    exists|expired: Seq<bool>|
        expired.len() == commands.len() && after == #[trigger] graphics_run(
            before,
            commands,
            expired,
        )
}

/// Whether none of some graphics commands begins a transfer.
pub open spec fn none_begins_transfer(commands: Seq<Seq<char>>) -> bool {
    forall|k: int| 0 <= k < commands.len() ==> !asks_for_transfer(#[trigger] commands[k])
}

/// Only the answers that are used matter.
proof fn lemma_graphics_frame(
    state: KittyModel,
    commands: Seq<Seq<char>>,
    a: Seq<bool>,
    b: Seq<bool>,
)
    requires
        a.len() >= commands.len(),
        b.len() >= commands.len(),
        forall|k: int| 0 <= k < commands.len() ==> a[k] == b[k],
    ensures
        graphics_run(state, commands, a) == graphics_run(state, commands, b),
    decreases commands.len(),
{
    if commands.len() > 0 {
        lemma_graphics_frame(state, commands.drop_last(), a, b);
    }
}

/// One more command.
proof fn lemma_graphics_step(
    before: KittyModel,
    commands: Seq<Seq<char>>,
    middle: KittyModel,
    expired: bool,
    command: Seq<char>,
    after: KittyModel,
    result: Result<(), Seq<char>>,
)
    requires
        graphics_led(before, commands, middle),
        handled_after(middle, expired, command, after, result),
    ensures
        graphics_led(before, commands.push(command), after),
{
    let answers = choose|answers: Seq<bool>|
        answers.len() == commands.len() && middle == #[trigger] graphics_run(
            before,
            commands,
            answers,
        );
    let more = answers.push(expired);
    let all = commands.push(command);
    assert(all.drop_last() =~= commands);
    lemma_graphics_frame(before, commands, answers, more);
    assert(graphics_run(before, all, more) == after);
}

fn is_continuation(b: u8) -> (v: bool)
    ensures
        v == continues_char(b),
{
    0x80 <= b && b <= 0xbf
}

fn length_of_char(b: u8) -> (n: usize)
    ensures
        n == char_length(b),
{
    if 0xc2 <= b && b <= 0xdf {
        2
    } else if 0xe0 <= b && b <= 0xef {
        3
    } else if 0xf0 <= b && b <= 0xf4 {
        4
    } else {
        0
    }
}

fn find_osc_end(data: &[u8], from: usize) -> (end: usize)
    requires
        from <= data@.len(),
    ensures
        end == osc_end_at(data@, from as int),
        from <= end <= data@.len(),
        end < data@.len() && data@[end as int] != 7 ==> end + 1 < data@.len(),
{
    let mut i: usize = from;
    while i < data.len() && !(data[i] == 7 || (data.len() - i > 1 && data[i] == 27 && data[i + 1]
        == 92))
        invariant
            from <= i <= data@.len(),
            osc_end_at(data@, i as int) == osc_end_at(data@, from as int),
        decreases data@.len() - i,
    {
        i = i + 1;
    }
    i
}

fn find_string_end(data: &[u8], from: usize) -> (end: usize)
    requires
        from <= data@.len(),
    ensures
        end == string_end_at(data@, from as int),
        from <= end <= data@.len(),
        end < data@.len() ==> end + 1 < data@.len(),
{
    let mut i: usize = from;
    while i < data.len() && !(data.len() - i > 1 && data[i] == 27 && data[i + 1] == 92)
        invariant
            from <= i <= data@.len(),
            string_end_at(data@, i as int) == string_end_at(data@, from as int),
        decreases data@.len() - i,
    {
        i = i + 1;
    }
    i
}

fn find_ascii_end(data: &[u8], from: usize) -> (end: usize)
    requires
        from <= data@.len(),
    ensures
        end == ascii_end(data@, from as int),
        from <= end <= data@.len(),
        forall|k: int| from <= k < end ==> 32 <= #[trigger] data@[k] <= 126,
{
    let mut i: usize = from;
    while i < data.len() && data[i] >= 32 && data[i] <= 126
        invariant
            from <= i <= data@.len(),
            ascii_end(data@, i as int) == ascii_end(data@, from as int),
            forall|k: int| from <= k < i ==> 32 <= #[trigger] data@[k] <= 126,
        decreases data@.len() - i,
    {
        i = i + 1;
    }
    i
}

/// The text that some bytes encode, as a graphics command if it is one.
fn find_graphics_command(payload: &[u8]) -> (command: Option<String>)
    ensures
        super::state::text_view(command) == graphics_command(payload@),
{
    match utf8_text(copy_bytes(payload)) {
        None => None,
        Some(text) => {
            let chars = chars_of(text.as_str());
            let chars: &[char] = chars.as_slice();
            let mut found = false;
            let mut i: usize = 0;
            while i < chars.len() && chars.len() - i > 1 && !found
                invariant
                    i <= chars@.len(),
                    found ==> has_action(chars@),
                    !found ==> forall|k: int|
                        0 <= k < i && k + 1 < chars@.len() ==> !(#[trigger] chars@[k] == 'a'
                            && chars@[k + 1] == '='),
                decreases chars@.len() - i,
            {
                if chars[i] == 'a' && chars[i + 1] == '=' {
                    found = true;
                }
                i = i + 1;
            }
            if found || strip_prefix(chars, "@").is_some() || strip_prefix(
                chars,
                "kitty",
            ).is_some() {
                Some(text)
            } else {
                None
            }
        },
    }
}

/// The parts of a CSI sequence whose parameters start at `from`.
fn read_csi(data: &[u8], from: usize) -> (parts: Option<(Vec<u8>, Vec<u8>, usize)>)
    requires
        from <= data@.len(),
    ensures
        parts is Some <==> CsiParts::empty().read(data@, from as int) is Some,
        parts matches Some(p) ==> CsiParts::empty().read(data@, from as int) == Some(
            CsiParts { params: p.0@, intermediates: p.1@, end: p.2 as int },
        ) && from <= p.2 < data@.len() && p.0@.len() <= 32 && data@[p.2 as int] < 128,
{
    let mut params: Vec<u8> = Vec::new();
    let mut intermediates: Vec<u8> = Vec::new();
    let mut i: usize = from;
    proof {
        assert(CsiParts { params: params@, intermediates: intermediates@, end: 0 }
            =~= CsiParts::empty());
    }
    while i < data.len()
        invariant
            from <= i <= data@.len(),
            params@.len() <= 32,
            (CsiParts { params: params@, intermediates: intermediates@, end: 0 }).read(
                data@,
                i as int,
            ) == CsiParts::empty().read(data@, from as int),
        decreases data@.len() - i,
    {
        let b: u8 = data[i];
        let ghost before = CsiParts { params: params@, intermediates: intermediates@, end: 0 };
        if 0x30 <= b && b <= 0x3f {
            if params.len() < 32 {
                params.push(b);
            }
            proof {
                assert(CsiParts { params: params@, intermediates: intermediates@, end: 0 }
                    =~= before.with_param(b));
            }
        } else if 0x20 <= b && b <= 0x2f {
            if intermediates.len() < 8 {
                intermediates.push(b);
            }
            proof {
                assert(CsiParts { params: params@, intermediates: intermediates@, end: 0 }
                    =~= before.with_intermediate(b));
            }
        } else if 0x40 <= b && b <= 0x7e {
            return Some((params, intermediates, i));
        } else {
            return None;
        }
        i = i + 1;
    }
    None
}

impl TerminalState {
    /// Keeps an incomplete sequence until more comes.
    fn keep_from(&mut self, data: &[u8], i: usize) -> (next: usize)
        requires
            old(self).wf(),
            i <= data@.len(),
        ensures
            final(self).wf(),
            final(self)@.up_to(next as int) == old(self)@.kept_from(data@, i as int),
            next == data@.len(),
            final(self).kitty_graphics == old(self).kitty_graphics,
            final(self).sync_output_start == old(self).sync_output_start,
            final(self).widest == old(self).widest,
    {
        proof {
            reveal(TerminalModel::kept_from);
        }
        let rest = vstd::slice::slice_subrange(data, i, data.len());
        push_bytes(&mut self.pending_escape, rest);
        data.len()
    }

    fn set_active_charset(&mut self, charset: Charset)
        requires
            old(self).wf(),
        ensures
            final(self).wf(),
            final(self)@ == old(self)@.with_active(charset),
            final(self).kitty_graphics == old(self).kitty_graphics,
            final(self).sync_output_start == old(self).sync_output_start,
            final(self).widest == old(self).widest,
    {
        proof {
            reveal(TerminalModel::with_active);
        }
        self.active_charset = charset;
    }

    fn charset_from_designator(byte: u8) -> (charset: Charset)
        ensures
            charset == (if byte == 48 {
                Charset::DecSpecialGraphics
            } else {
                Charset::Ascii
            }),
    {
        if byte == 48 {
            Charset::DecSpecialGraphics
        } else {
            Charset::Ascii
        }
    }

    fn select_charset(&mut self, first: bool, designator: u8)
        requires
            old(self).wf(),
        ensures
            final(self).wf(),
            final(self)@ == old(self)@.charset_selected(first, designator),
            final(self).kitty_graphics == old(self).kitty_graphics,
            final(self).sync_output_start == old(self).sync_output_start,
            final(self).widest == old(self).widest,
    {
        proof {
            reveal(TerminalModel::charset_selected);
        }
        let charset = Self::charset_from_designator(designator);
        if first {
            self.g0_charset = charset;
            self.active_charset = charset;
        } else {
            self.g1_charset = charset;
        }
    }

    fn set_column(&mut self, col: usize)
        requires
            old(self).wf(),
            col <= old(self)@.furthest(),
        ensures
            final(self).wf(),
            final(self)@ == old(self)@.with_col(col as int),
            final(self).kitty_graphics == old(self).kitty_graphics,
            final(self).sync_output_start == old(self).sync_output_start,
            final(self).widest == old(self).widest,
    {
        proof {
            reveal(TerminalModel::with_col);
        }
        self.cursor_col = col;
    }

    fn set_utf8(&mut self, bytes: Vec<u8>, expected: u8)
        requires
            old(self).wf(),
            expected <= 4,
            bytes@.len() > 0 ==> bytes@.len() < expected,
            bytes@.len() == 0 ==> expected == 0,
        ensures
            final(self).wf(),
            final(self)@ == old(self)@.with_utf8(bytes@, expected as int),
            final(self).last_printed_char == old(self).last_printed_char,
            final(self).kitty_graphics == old(self).kitty_graphics,
            final(self).sync_output_start == old(self).sync_output_start,
            final(self).widest == old(self).widest,
    {
        proof {
            reveal(TerminalModel::with_utf8);
        }
        self.utf8_buf = bytes;
        self.utf8_expected = expected;
    }

    /// Prints the character that some bytes encode, if they encode one.
    fn put_bytes(&mut self, bytes: Vec<u8>)
        requires
            old(self).wf(),
        ensures
            final(self).wf(),
            final(self)@ == old(self)@.printed_bytes(bytes@),
            final(self).kitty_graphics == old(self).kitty_graphics,
            final(self).sync_output_start == old(self).sync_output_start,
            old(self)@.widened_to(final(self)@),
    {
        if let Some(text) = utf8_text(bytes) {
            let chars = chars_of(text.as_str());
            if chars.len() > 0 {
                self.put_char(chars[0]);
            }
        }
    }

    fn read_osc(&mut self, data: &[u8], start: usize) -> (next: usize)
        requires
            old(self).wf(),
            start + 2 <= data@.len(),
        ensures
            final(self).wf(),
            final(self)@.up_to(next as int) == old(self)@.osc_step(data@, start as int),
            start < next <= data@.len(),
            final(self).kitty_graphics == old(self).kitty_graphics,
            final(self).sync_output_start == old(self).sync_output_start,
            final(self).widest == old(self).widest,
    {
        let len: usize = data.len();
        proof {
            reveal(TerminalModel::osc_step);
        }
        let end: usize = find_osc_end(data, start + 2);
        if end >= len {
            return self.keep_from(data, start);
        }
        let payload = vstd::slice::slice_subrange(data, start + 2, end);
        if let Some(text) = utf8_text(copy_bytes(payload)) {
            let chars = chars_of(text.as_str());
            self.handle_osc(chars.as_slice());
        }
        if data[end] == 7 {
            end + 1
        } else {
            end + 2
        }
    }

    fn read_string(&mut self, data: &[u8], start: usize) -> (step: (usize, Option<String>))
        requires
            old(self).wf(),
            start + 2 <= data@.len(),
        ensures
            final(self).wf(),
            (Step {
                state: final(self)@,
                next: step.0 as int,
                graphics: super::state::text_view(step.1),
            }) == old(self)@.string_step(data@, start as int),
            start < step.0 <= data@.len(),
            final(self).kitty_graphics == old(self).kitty_graphics,
            final(self).sync_output_start == old(self).sync_output_start,
            final(self).widest == old(self).widest,
    {
        let len: usize = data.len();
        proof {
            reveal(TerminalModel::string_step);
        }
        let end: usize = find_string_end(data, start + 2);
        if end >= len {
            let next: usize = self.keep_from(data, start);
            return (next, None);
        }
        let payload = vstd::slice::slice_subrange(data, start + 2, end);
        (end + 2, find_graphics_command(payload))
    }

    fn read_csi_sequence(&mut self, data: &[u8], start: usize) -> (next: usize)
        requires
            old(self).wf(),
            start + 2 <= data@.len(),
        ensures
            final(self).wf(),
            final(self)@.up_to(next as int) == old(self)@.csi_step(data@, start as int),
            start < next <= data@.len(),
            final(self).kitty_graphics == old(self).kitty_graphics,
            old(self)@.widened_to(final(self)@),
            data@[start as int] == 27 && data@[start + 1] == 91 && !switches_sync(
                data@,
                start as int,
            ) ==> final(self).sync_output_start == old(self).sync_output_start,
    {
        let len: usize = data.len();
        proof {
            reveal(TerminalModel::csi_step);
        }
        match read_csi(data, start + 2) {
            None => self.keep_from(data, start),
            Some((all, intermediates, end)) => {
                let private = all.len() > 0 && 0x3c <= all[0] && all[0] <= 0x3f;
                let prefix = if private {
                    Some(all[0])
                } else {
                    None
                };
                let raw = vstd::slice::slice_subrange(
                    all.as_slice(),
                    if private {
                        1
                    } else {
                        0
                    },
                    all.len(),
                );
                proof {
                    if private {
                        assert(raw@ =~= all@.drop_first());
                    } else {
                        assert(raw@ =~= all@);
                    }
                }
                let params = Self::parse_csi_params(raw);
                let cmd: char = data[end] as char;
                self.handle_escape_sequence(
                    params.as_slice(),
                    raw,
                    cmd,
                    prefix,
                    intermediates.as_slice(),
                );
                end + 1
            },
        }
    }

    fn read_escape(&mut self, data: &[u8], i: usize) -> (step: (usize, Option<String>))
        requires
            old(self).wf(),
            i < data@.len(),
        ensures
            final(self).wf(),
            (Step {
                state: final(self)@,
                next: step.0 as int,
                graphics: super::state::text_view(step.1),
            }) == old(self)@.escape_step(data@, i as int),
            i < step.0 <= data@.len(),
            final(self).kitty_graphics == old(self).kitty_graphics,
            old(self)@.widened_to(final(self)@),
            data@[i as int] == 27 && !switches_sync(data@, i as int) ==> final(self).sync_output_start
                == old(self).sync_output_start,
    {
        proof {
            reveal(TerminalModel::escape_step);
        }
        if data.len() - i < 2 {
            let next: usize = self.keep_from(data, i);
            return (next, None);
        }
        match data[i + 1] {
            55 => {
                self.save_cursor();
                (i + 2, None)
            },
            56 => {
                self.restore_cursor();
                (i + 2, None)
            },
            69 => {
                self.set_column(0);
                self.line_feed();
                (i + 2, None)
            },
            72 => {
                self.set_tab_stop(true);
                (i + 2, None)
            },
            99 => {
                self.full_reset();
                (i + 2, None)
            },
            35 => {
                if data.len() - i > 2 && data[i + 2] == 56 {
                    self.decaln();
                    (i + 3, None)
                } else {
                    (i + 2, None)
                }
            },
            93 => {
                let next: usize = self.read_osc(data, i);
                (next, None)
            },
            80 | 88 | 94 | 95 => self.read_string(data, i),
            40 | 41 => {
                if data.len() - i < 3 {
                    let next: usize = self.keep_from(data, i);
                    return (next, None);
                }
                self.select_charset(data[i + 1] == 40, data[i + 2]);
                (i + 3, None)
            },
            77 => {
                self.reverse_index();
                (i + 2, None)
            },
            68 => {
                self.index_down();
                (i + 2, None)
            },
            91 => {
                let next: usize = self.read_csi_sequence(data, i);
                (next, None)
            },
            _ => (i + 2, None),
        }
    }

    fn read_ascii(&mut self, data: &[u8], i: usize) -> (next: usize)
        requires
            old(self).wf(),
            i < data@.len(),
            32 <= data@[i as int] <= 126,
        ensures
            final(self).wf(),
            final(self)@.up_to(next as int) == old(self)@.ascii_step(data@, i as int),
            i < next <= data@.len(),
            final(self).kitty_graphics == old(self).kitty_graphics,
            final(self).sync_output_start == old(self).sync_output_start,
            old(self)@.widened_to(final(self)@),
    {
        let len: usize = data.len();
        proof {
            reveal(TerminalModel::ascii_step);
        }
        if self.utf8_buf.len() == 0 && self.active_charset == Charset::Ascii
            && !self.modes.contains(4) {
            let end: usize = find_ascii_end(data, i + 1);
            let run = vstd::slice::slice_subrange(data, i, end);
            self.put_ascii_run(run);
            end
        } else {
            self.put_char(data[i] as char);
            i + 1
        }
    }

    fn read_lead(&mut self, data: &[u8], i: usize, n: usize) -> (next: usize)
        requires
            old(self).wf(),
            i < data@.len(),
            2 <= n <= 4,
        ensures
            final(self).wf(),
            final(self)@.up_to(next as int) == old(self)@.lead_step(data@, i as int, n as int),
            i < next <= data@.len(),
            final(self).kitty_graphics == old(self).kitty_graphics,
            final(self).sync_output_start == old(self).sync_output_start,
            old(self)@.widened_to(final(self)@),
    {
        let len: usize = data.len();
        proof {
            reveal(TerminalModel::lead_step);
        }
        let mut complete = len - i >= n;
        let mut k: usize = 1;
        while complete && k < n
            invariant
                1 <= k <= n <= 4,
                i < data@.len(),
                len == data@.len(),
                complete ==> i + n <= data@.len() && forall|j: int|
                    i < j < i + k ==> continues_char(#[trigger] data@[j]),
                !complete ==> !(i + n <= data@.len() && forall|j: int|
                    i < j < i + n ==> continues_char(#[trigger] data@[j])),
            decreases n - k,
        {
            if !is_continuation(data[i + k]) {
                complete = false;
            }
            k = k + 1;
        }
        if complete {
            let bytes = copy_bytes(vstd::slice::slice_subrange(data, i, i + n));
            self.put_bytes(bytes);
            i + n
        } else {
            let mut bytes: Vec<u8> = Vec::new();
            bytes.push(data[i]);
            proof {
                assert(bytes@ =~= seq![data@[i as int]]);
            }
            self.set_utf8(bytes, n as u8);
            i + 1
        }
    }

    fn read_trail(&mut self, data: &[u8], i: usize) -> (next: usize)
        requires
            old(self).wf(),
            i < data@.len(),
        ensures
            final(self).wf(),
            final(self)@.up_to(next as int) == old(self)@.trail_step(data@, i as int),
            i < next <= data@.len(),
            final(self).kitty_graphics == old(self).kitty_graphics,
            final(self).sync_output_start == old(self).sync_output_start,
            old(self)@.widened_to(final(self)@),
    {
        let len: usize = data.len();
        proof {
            reveal(TerminalModel::trail_step);
        }
        let expected: u8 = self.utf8_expected;
        let mut bytes = copy_bytes(self.utf8_buf.as_slice());
        let empty: Vec<u8> = Vec::new();
        if bytes.len() > 0 && is_continuation(data[i]) {
            bytes.push(data[i]);
            if bytes.len() == expected as usize {
                self.put_bytes(bytes);
                self.set_utf8(empty, 0);
            } else {
                self.set_utf8(bytes, expected);
            }
        } else {
            self.set_utf8(empty, 0);
        }
        i + 1
    }

    /// Reads what starts at position `i`.
    fn read_step(&mut self, data: &[u8], i: usize) -> (step: (usize, Option<String>))
        requires
            old(self).wf(),
            i < data@.len(),
        ensures
            final(self).wf(),
            (Step {
                state: final(self)@,
                next: step.0 as int,
                graphics: super::state::text_view(step.1),
            }) == old(self)@.step(data@, i as int),
            i < step.0 <= data@.len(),
            final(self).kitty_graphics == old(self).kitty_graphics,
            old(self)@.widened_to(final(self)@),
            !switches_sync(data@, i as int) ==> final(self).sync_output_start == old(
                self,
            ).sync_output_start,
    {
        proof {
            reveal(TerminalModel::step);
        }
        let b: u8 = data[i];
        let next: usize = i + 1;
        if b == 27 {
            return self.read_escape(data, i);
        }
        if b == 8 {
            self.set_column(self.cursor_col.saturating_sub(1));
            (next, None)
        } else if b == 127 || b == 7 {
            (next, None)
        } else if b == 10 {
            self.line_feed();
            (next, None)
        } else if b == 13 {
            self.set_column(0);
            (next, None)
        } else if b == 14 {
            self.set_active_charset(self.g1_charset);
            (next, None)
        } else if b == 15 {
            self.set_active_charset(self.g0_charset);
            (next, None)
        } else if b == 9 {
            let col: usize = self.next_tab_stop(self.cursor_col);
            self.set_column(col);
            (next, None)
        } else if 32 <= b && b <= 126 {
            let next: usize = self.read_ascii(data, i);
            (next, None)
        } else if length_of_char(b) > 0 {
            let next: usize = self.read_lead(data, i, length_of_char(b));
            (next, None)
        } else {
            let next: usize = self.read_trail(data, i);
            (next, None)
        }
    }

    /// Carries out a graphics command. Its result is not needed.
    fn run_graphics(&mut self, command: &str)
        requires
            old(self).wf(),
        ensures
            final(self).wf(),
            final(self)@ == old(self)@,
            final(self).sync_output_start == old(self).sync_output_start,
            exists|expired: bool, result: Result<(), Seq<char>>| #[trigger]
                handled_after(
                    old(self).kitty_graphics@,
                    expired,
                    command@,
                    final(self).kitty_graphics@,
                    result,
                ),
            !asks_for_transfer(command@) ==> start_kept(
                old(self).kitty_graphics.pending_transfer,
                final(self).kitty_graphics.pending_transfer,
            ),
    {
        let result = self.kitty_graphics.parse_graphics_payload(command);
        proof {
            let ghost_result = crate::kitty_graphics::params::outcome(result);
            let expired = choose|expired: bool| #[trigger]
                handled_after(
                    old(self).kitty_graphics@,
                    expired,
                    command@,
                    self.kitty_graphics@,
                    ghost_result,
                );
            assert(handled_after(
                old(self).kitty_graphics@,
                expired,
                command@,
                self.kitty_graphics@,
                ghost_result,
            ));
        }
    }

    /// Reads a whole piece of input.
    fn read_all(&mut self, data: &[u8])
        requires
            old(self).wf(),
        ensures
            final(self).wf(),
            final(self)@ == old(self)@.run(data@, 0).0,
            graphics_led(
                old(self).kitty_graphics@,
                old(self)@.run(data@, 0).1,
                final(self).kitty_graphics@,
            ),
            none_begins_transfer(old(self)@.run(data@, 0).1) ==> start_kept(
                old(self).kitty_graphics.pending_transfer,
                final(self).kitty_graphics.pending_transfer,
            ),
            old(self)@.leaves_sync(data@, 0) ==> final(self).sync_output_start == old(
                self,
            ).sync_output_start,
            old(self)@.writes_narrow(data@, 0) ==> final(self)@.widest <= 2 || final(self)@.widest
                == old(self)@.widest,
    {
        let ghost whole = self@.run(data@, 0);
        let ghost mut found: Seq<Seq<char>> = Seq::empty();
        let ghost start = self.kitty_graphics@;
        let mut i: usize = 0;
        proof {
            assert(found + whole.1 =~= whole.1);
            assert(graphics_run(start, found, Seq::empty()) == start);
        }
        while i < data.len()
            invariant
                i <= data@.len(),
                self.wf(),
                self@.run(data@, i as int).0 == whole.0,
                found + self@.run(data@, i as int).1 == whole.1,
                graphics_led(start, found, self.kitty_graphics@),
                none_begins_transfer(found) ==> start_kept(
                    old(self).kitty_graphics.pending_transfer,
                    self.kitty_graphics.pending_transfer,
                ),
                old(self)@.leaves_sync(data@, 0) ==> self@.leaves_sync(data@, i as int)
                    && self.sync_output_start == old(self).sync_output_start,
                old(self)@.writes_narrow(data@, 0) ==> self@.writes_narrow(data@, i as int) && (
                self@.widest <= 2 || self@.widest == old(self)@.widest),
            decreases data@.len() - i,
        {
            let ghost before = self@;
            let ghost rest = self@.run(data@, i as int).1;
            let ghost graphics = self.kitty_graphics@;
            let (next, command) = self.read_step(data, i);
            let ghost tail = self@.run(data@, next as int).1;
            match command {
                Some(text) => {
                    let ghost middle = self.kitty_graphics@;
                    self.run_graphics(text.as_str());
                    proof {
                        assert(rest == seq![text@] + tail);
                        assert(found + (seq![text@] + tail) =~= found.push(text@) + tail);
                        let (expired, result) = choose|
                            expired: bool,
                            result: Result<(), Seq<char>>,
                        | #[trigger]
                            handled_after(
                                middle,
                                expired,
                                text@,
                                self.kitty_graphics@,
                                result,
                            );
                        lemma_graphics_step(
                            start,
                            found,
                            middle,
                            expired,
                            text@,
                            self.kitty_graphics@,
                            result,
                        );
                        let earlier = found;
                        found = found.push(text@);
                        if none_begins_transfer(found) {
                            assert(!asks_for_transfer(found[earlier.len() as int]));
                            assert forall|k: int| 0 <= k < earlier.len() implies !asks_for_transfer(
                                #[trigger] earlier[k],
                            ) by {
                                assert(found[k] == earlier[k]);
                            }
                        }
                    }
                },
                None => {
                    proof {
                        assert(rest == Seq::<Seq<char>>::empty() + tail);
                        assert(Seq::<Seq<char>>::empty() + tail =~= tail);
                    }
                },
            }
            i = next;
        }
        proof {
            assert(found + Seq::<Seq<char>>::empty() =~= found);
        }
    }

    /// Takes in input from the program: it is the old state with everything done that
    /// the bytes ask for, in order. An incomplete sequence is kept for the next call.
    pub fn process_input(&mut self, input: &[u8])
        requires
            old(self).wf(),
        ensures
            final(self).wf(),
            final(self)@ == old(self)@.fed(input@).0,
            graphics_led(
                old(self).kitty_graphics@,
                old(self)@.fed(input@).1,
                final(self).kitty_graphics@,
            ),
            none_begins_transfer(old(self)@.fed(input@).1) ==> start_kept(
                old(self).kitty_graphics.pending_transfer,
                final(self).kitty_graphics.pending_transfer,
            ),
            old(self)@.fed_leaves_sync(input@) ==> final(self).sync_output_start == old(
                self,
            ).sync_output_start,
            old(self)@.fed_writes_narrow(input@) ==> final(self)@.widest <= 2 || final(self)@.widest
                == old(self)@.widest,
            old(self)@.fed_writes_narrow(input@) && old(self)@.widest <= 2 && final(self)@.cols()
                >= 2 ==> final(self)@.cursor_col <= final(self)@.cols(),
    {
        let mut data: Vec<u8> = Vec::new();
        if self.pending_escape.len() <= MAX_PENDING_ESCAPE {
            push_bytes(&mut data, self.pending_escape.as_slice());
        }
        proof {
            assert(Seq::<u8>::empty() + self.pending_escape@ =~= self.pending_escape@);
        }
        push_bytes(&mut data, input);
        self.pending_escape = Vec::new();
        self.read_all(data.as_slice());
    }

    /// As [`process_input`](Self::process_input), under a new grid version. All but the
    /// versions is as it is after that.
    pub fn process_batch(&mut self, input: &[u8])
        requires
            old(self).wf(),
        ensures
            final(self).wf(),
            final(self)@ == old(self)@.next_version().fed(input@).0,
            final(self)@.alike(old(self)@.fed(input@).0),
            graphics_led(
                old(self).kitty_graphics@,
                old(self)@.next_version().fed(input@).1,
                final(self).kitty_graphics@,
            ),
            none_begins_transfer(old(self)@.fed(input@).1) ==> start_kept(
                old(self).kitty_graphics.pending_transfer,
                final(self).kitty_graphics.pending_transfer,
            ),
            old(self)@.fed_leaves_sync(input@) ==> final(self).sync_output_start == old(
                self,
            ).sync_output_start,
            old(self)@.fed_writes_narrow(input@) ==> final(self)@.widest <= 2 || final(self)@.widest
                == old(self)@.widest,
            old(self)@.fed_writes_narrow(input@) && old(self)@.widest <= 2 && final(self)@.cols()
                >= 2 ==> final(self)@.cursor_col <= final(self)@.cols(),
    {
        proof {
            super::versions::a_batch_shows_the_same(self@, input@);
        }
        self.grid_version = self.grid_version.wrapping_add(1);
        self.process_input(input);
    }
}

impl TerminalModel {
    pub open spec fn next_version(self) -> Self {
        TerminalModel { grid_version: self.grid_version.wrapping_add(1), ..self }
    }
}

} // verus!
