//! A session: its terminal, what waits to be written to its shell, and its answers about
//! the clipboard.

use crate::input::{
    clipboard_packet, clipboard_read_answer, osc_5522_packet, paste_bytes, paste_size, pasted,
    read_answer, MAX_CLIPBOARD_RESPONSE_BYTES,
};
use crate::keyboard::{
    encode_key, key_bytes, opt_chars, Key, KeyboardEnhancements, Location, Modifiers, Named,
};
use crate::kitty_graphics::start_kept;
use crate::outside::base64_of;
use crate::pointer::PointerAction;
use crate::tabs::{directory_name, label_of, tab_label};
use crate::terminal::model::TerminalModel;
use crate::terminal::osc::osc_end;
use crate::terminal::parser::{graphics_led, none_begins_transfer};
use crate::terminal::state::{range_view, TerminalState};
use crate::terminal::types::{
    clamped, ClipboardReadKind, ClipboardReadRequest, Selection, SelectionMode, MAX_TERMINAL_COLS,
    MAX_TERMINAL_ROWS,
};
use crate::text::{chars_of, owned, starts_with, texts};
use crate::write_queue::{queue_is_bounded, PtyQueue, QueueModel};
use vstd::prelude::*;
use vstd::utf8::encode_utf8;

verus! {

/// The least time between two notifications, in nanoseconds.
pub const NOTIFICATION_PAUSE_NANOS: u128 = 2_000_000_000;

/// What an input method does.
#[derive(Debug)]
pub enum Composition {
    Opened,
    Closed,
    /// The text so far, and what of it is marked.
    Preedit(String, Option<std::ops::Range<usize>>),
    /// The text is complete.
    Commit(String),
}

/// A session, without its shell.
pub struct Session {
    pub id: usize,
    pub terminal: TerminalState,
    pub queue: PtyQueue,
    /// The working directory and the program in the foreground, as they were last seen.
    pub cwd_cache: Option<String>,
    pub fg_proc_cache: Option<String>,
    /// Whether the clipboard is being read for the program.
    pub clipboard_read_in_flight: bool,
}

pub open spec fn owned_view(s: Option<String>) -> Option<Seq<char>> {
    match s {
        Some(s) => Some(s@),
        None => None,
    }
}

fn as_text(s: &Option<String>) -> (t: Option<&str>)
    ensures
        opt_chars(t) == owned_view(*s),
{
    match s {
        Some(s) => Some(s.as_str()),
        None => None,
    }
}

/// What is left of a session where only its terminal changed.
pub open spec fn same_but_terminal(a: Session, b: Session) -> bool {
    &&& a.id == b.id
    &&& a.queue == b.queue
    &&& a.cwd_cache == b.cwd_cache
    &&& a.fg_proc_cache == b.fg_proc_cache
    &&& a.clipboard_read_in_flight == b.clipboard_read_in_flight
}

/// The answer to a query of the clipboard's text.
pub open spec fn query_answer(content: Seq<char>) -> Seq<u8> {
    encode_utf8("\x1b]52;c;"@) + encode_utf8(base64_of(encode_utf8(content))) + osc_end()
}

/// What is told of the clipboard: nothing where that is not allowed or it is too large.
pub open spec fn told(content: Option<Seq<char>>, allowed: bool) -> Seq<char> {
    if content is Some && allowed && encode_utf8(content->0).len() <= MAX_CLIPBOARD_RESPONSE_BYTES {
        content->0
    } else {
        Seq::empty()
    }
}

/// A queue once some input was put into it `n` times, as often as it had room.
pub open spec fn typed_times(queue: QueueModel, bytes: Seq<u8>, n: nat) -> QueueModel
    decreases n,
{
    if n == 0 {
        queue
    } else {
        let before = typed_times(queue, bytes, (n - 1) as nat);
        if bytes.len() > 0 && before.has_room(bytes.len() as int, false) {
            before.with(bytes, false)
        } else {
            before
        }
    }
}

/// Whether an action of the pointer is at a position that can be told and selected.
pub open spec fn can_point(m: TerminalModel, action: PointerAction) -> bool {
    match action {
        PointerAction::Report { code, col, row, .. } => code <= 223 && col < u32::MAX && row
            < u32::MAX,
        PointerAction::ReportRelease { col, row, .. } => col < u32::MAX && row < u32::MAX,
        PointerAction::StartSelection { row, .. } => m.absolute(row as int) <= usize::MAX,
        PointerAction::StartBlockSelection { row, .. } => m.absolute(row as int) <= usize::MAX,
        PointerAction::SelectWord { row, .. } => m.absolute(row as int) <= usize::MAX,
        PointerAction::SelectLine { row } => m.absolute(row as int) <= usize::MAX,
        PointerAction::ExtendSelection { row, .. } => m.absolute(row as int) <= usize::MAX,
        PointerAction::ExtendWord { row, .. } => m.absolute(row as int) <= usize::MAX,
        PointerAction::ExtendLine { row } => m.absolute(row as int) <= usize::MAX,
        _ => true,
    }
}

/// A selection of one cell of the view.
pub open spec fn selected_at(m: TerminalModel, row: int, col: usize, mode: SelectionMode) -> TerminalModel {
    m.with_selection(
        Selection {
            anchor: (m.absolute(row) as usize, col),
            active: (m.absolute(row) as usize, col),
            mode,
        },
    )
}

/// The selection, if there is one, ends at a cell of the view.
pub open spec fn selected_to(m: TerminalModel, row: int, col: usize) -> TerminalModel {
    match m.selection {
        Some(sel) => m.with_selection(
            Selection { active: (m.absolute(row) as usize, col), ..sel },
        ),
        None => m,
    }
}

/// What an action of the pointer makes of the terminal.
pub open spec fn pointed(m: TerminalModel, action: PointerAction) -> TerminalModel {
    let last = (m.cols() - 1) as usize;
    match action {
        PointerAction::StartSelection { row, col } => selected_at(
            m,
            row as int,
            col,
            SelectionMode::Normal,
        ),
        PointerAction::StartBlockSelection { row, col } => selected_at(
            m,
            row as int,
            col,
            SelectionMode::Block,
        ),
        PointerAction::SelectWord { row, col } => m.word_selected(row as int, col as int),
        PointerAction::SelectLine { row } => selected_to(
            selected_at(m, row as int, 0, SelectionMode::Normal),
            row as int,
            last,
        ),
        PointerAction::ExtendSelection { row, col } => selected_to(m, row as int, col),
        PointerAction::ExtendWord { row, col } => selected_to(m, row as int, col),
        PointerAction::ExtendLine { row } => selected_to(m, row as int, last),
        PointerAction::Scroll(lines) => m.scrolled_to(m.scroll_offset + lines),
        PointerAction::ScrollTo(offset) => m.scrolled_to(offset as int),
        _ => m,
    }
}

/// What the program is told of the pointer, and how often.
pub open spec fn told_of(m: TerminalModel, action: PointerAction) -> (Option<Seq<char>>, nat) {
    match action {
        PointerAction::Report { code, col, row, times } => (
            m.mouse_report(code, true, col as int, row as int),
            times as nat,
        ),
        PointerAction::ReportRelease { code, col, row } => (
            m.mouse_report(code, false, col as int, row as int),
            1,
        ),
        _ => (None, 0),
    }
}

/// How a key that scrolls the view with Shift scrolls it.
pub open spec fn scroll_key(m: TerminalModel, key: Key, mods: Modifiers) -> Option<TerminalModel> {
    let page = if m.rows() > 2 {
        m.rows() - 1
    } else {
        1
    };
    if !mods.shift {
        None
    } else {
        match key {
            Key::Named(Named::PageUp) => Some(m.scrolled_to(m.scroll_offset + page)),
            Key::Named(Named::PageDown) => Some(m.scrolled_to(m.scroll_offset - page)),
            Key::Named(Named::Home) => Some(m.scrolled_to(m.scrollback.len() as int)),
            Key::Named(Named::End) => Some(TerminalModel { scroll_offset: 0, ..m }),
            _ => None,
        }
    }
}

/// What came with output of the program.
pub struct Ingested {
    /// What it puts on the clipboard.
    pub clip_set: Option<String>,
    /// Whether it asks for the clipboard's text.
    pub clip_query: bool,
    /// What else it asks of the clipboard.
    pub requests: Vec<ClipboardReadRequest>,
    /// What the user is to be told: a title and a text.
    pub notification: Option<(String, String)>,
}

impl Session {
    pub open spec fn wf(&self) -> bool {
        self.terminal.wf() && self.queue.wf()
    }

    /// A session with a terminal of the given size, at most as large as terminals are.
    pub fn new(id: usize, cols: usize, rows: usize, scrollback_lines: usize) -> (session: Self)
        ensures
            session.wf(),
            session.id == id,
            session.terminal@ == TerminalModel::initial(
                clamped(cols as int, 1, MAX_TERMINAL_COLS as int),
                clamped(rows as int, 1, MAX_TERMINAL_ROWS as int),
            ).limited_to(scrollback_lines as int),
            session.queue@.pending().len() == 0,
            session.cwd_cache is None,
            session.fg_proc_cache is None,
            !session.clipboard_read_in_flight,
    {
        let mut terminal = TerminalState::new(cols, rows);
        terminal.set_max_scrollback(scrollback_lines);
        Session {
            id,
            terminal,
            queue: PtyQueue::new(),
            cwd_cache: None,
            fg_proc_cache: None,
            clipboard_read_in_flight: false,
        }
    }

    /// The label of the session's tab.
    pub fn label(&self, home: Option<&str>) -> (label: String)
        requires
            self.id < usize::MAX,
        ensures
            label@ == label_of(
                self.terminal.window_title@,
                owned_view(self.fg_proc_cache),
                match owned_view(self.cwd_cache) {
                    Some(cwd) => directory_name(cwd, opt_chars(home)),
                    None => None,
                },
                self.id as int,
            ),
    {
        tab_label(
            self.terminal.window_title.as_str(),
            as_text(&self.fg_proc_cache),
            as_text(&self.cwd_cache),
            home,
            self.id,
        )
    }

    /// Takes in output of the program, and hands out what came with it. Of several
    /// notifications only the first is.
    pub fn ingest(&mut self, data: &[u8]) -> (ingested: Ingested)
        requires
            old(self).wf(),
        ensures
            final(self).wf(),
            same_but_terminal(*old(self), *final(self)),
            ({
                let m = old(self).terminal@.next_version().fed(data@).0;
                &&& final(self).terminal@ == (TerminalModel {
                    clipboard_set: None,
                    clipboard_query: false,
                    clipboard_requests: Seq::empty(),
                    notifications: Seq::empty(),
                    ..m
                })
                &&& owned_view(ingested.clip_set) == m.clipboard_set
                &&& ingested.clip_query == m.clipboard_query
                &&& crate::terminal::state::requests_view(ingested.requests@)
                    == m.clipboard_requests
                &&& ingested.notification is Some <==> m.notifications.len() > 0
                &&& ingested.notification matches Some(n) ==> (n.0@, n.1@) == m.notifications[0]
            }),
            graphics_led(
                old(self).terminal.kitty_graphics@,
                old(self).terminal@.next_version().fed(data@).1,
                final(self).terminal.kitty_graphics@,
            ),
            none_begins_transfer(old(self).terminal@.fed(data@).1) ==> start_kept(
                old(self).terminal.kitty_graphics.pending_transfer,
                final(self).terminal.kitty_graphics.pending_transfer,
            ),
            old(self).terminal@.fed_leaves_sync(data@) ==> final(self).terminal.sync_output_start
                == old(self).terminal.sync_output_start,
    {
        self.terminal.process_batch(data);
        let clip_set = self.terminal.take_osc52_clipboard_set();
        let clip_query = self.terminal.take_osc52_clipboard_query();
        let requests = self.terminal.take_clipboard_read_requests();
        let notification = self.terminal.take_notification();
        Ingested { clip_set, clip_query, requests, notification }
    }

    /// The terminal's answers, which are then no longer there.
    pub fn take_responses(&mut self) -> (answers: Vec<u8>)
        requires
            old(self).wf(),
        ensures
            final(self).wf(),
            same_but_terminal(*old(self), *final(self)),
            answers@ == old(self).terminal@.output,
            final(self).terminal@ == (TerminalModel {
                output: Seq::empty(),
                ..old(self).terminal@
            }),
            final(self).terminal.kitty_graphics == old(self).terminal.kitty_graphics,
            final(self).terminal.sync_output_start == old(self).terminal.sync_output_start,
    {
        self.terminal.get_output()
    }

    /// Takes up a query of the clipboard's text: whether the clipboard is to be read now.
    /// Otherwise the answer is empty: it is not allowed, or being read already.
    pub fn start_clipboard_query(&mut self, allowed: bool) -> (read: bool)
        requires
            old(self).wf(),
        ensures
            final(self).wf(),
            final(self).cwd_cache == old(self).cwd_cache,
            final(self).fg_proc_cache == old(self).fg_proc_cache,
            read == (allowed && !old(self).clipboard_read_in_flight),
            final(self).clipboard_read_in_flight == (old(self).clipboard_read_in_flight || read),
            final(self).id == old(self).id,
            final(self).queue == old(self).queue,
            final(self).terminal@ == (if read {
                old(self).terminal@
            } else {
                old(self).terminal@.replied(query_answer(Seq::empty()))
            }),
            final(self).terminal.kitty_graphics == old(self).terminal.kitty_graphics,
            final(self).terminal.sync_output_start == old(self).terminal.sync_output_start,
    {
        if allowed && !self.clipboard_read_in_flight {
            self.clipboard_read_in_flight = true;
            true
        } else {
            proof {
                reveal_strlit("");
                assert(""@ =~= Seq::<char>::empty());
            }
            self.terminal.respond_osc52_clipboard("");
            false
        }
    }

    /// Answers a query of the clipboard's text with what was read.
    pub fn answer_clipboard_query(&mut self, content: Option<&str>, allowed: bool)
        requires
            old(self).wf(),
        ensures
            final(self).wf(),
            final(self).cwd_cache == old(self).cwd_cache,
            final(self).fg_proc_cache == old(self).fg_proc_cache,
            !final(self).clipboard_read_in_flight,
            final(self).id == old(self).id,
            final(self).queue == old(self).queue,
            final(self).terminal@ == old(self).terminal@.replied(
                query_answer(told(opt_chars(content), allowed)),
            ),
            final(self).terminal.kitty_graphics == old(self).terminal.kitty_graphics,
            final(self).terminal.sync_output_start == old(self).terminal.sync_output_start,
    {
        self.clipboard_read_in_flight = false;
        proof {
            reveal_strlit("");
            assert(""@ =~= Seq::<char>::empty());
        }
        let text: &str = match content {
            Some(text) => {
                if allowed && text.as_bytes().len() <= MAX_CLIPBOARD_RESPONSE_BYTES {
                    text
                } else {
                    ""
                }
            },
            None => "",
        };
        self.terminal.respond_osc52_clipboard(text);
    }

    /// Appends bytes to the terminal's answers.
    fn answer(&mut self, bytes: &[u8])
        requires
            old(self).wf(),
        ensures
            final(self).wf(),
            same_but_terminal(*old(self), *final(self)),
            final(self).terminal@ == old(self).terminal@.replied(bytes@),
            final(self).terminal.kitty_graphics == old(self).terminal.kitty_graphics,
            final(self).terminal.sync_output_start == old(self).terminal.sync_output_start,
    {
        self.terminal.reply_bytes(bytes);
    }

    /// Takes up a request about the clipboard: in which form it is to be read now, if at
    /// all. Otherwise the answer is given: it is not allowed, the forms there are, it is
    /// being read already, or the form is none of text.
    pub fn start_clipboard_read(&mut self, request: ClipboardReadRequest, allowed: bool) -> (read:
        Option<String>)
        requires
            old(self).wf(),
        ensures
            final(self).wf(),
            final(self).cwd_cache == old(self).cwd_cache,
            final(self).fg_proc_cache == old(self).fg_proc_cache,
            final(self).id == old(self).id,
            final(self).queue == old(self).queue,
            final(self).terminal.kitty_graphics == old(self).terminal.kitty_graphics,
            final(self).terminal.sync_output_start == old(self).terminal.sync_output_start,
            ({
                let m = old(self).terminal@;
                let busy = old(self).clipboard_read_in_flight;
                if !allowed {
                    &&& read is None
                    &&& final(self).clipboard_read_in_flight == busy
                    &&& final(self).terminal@ == m.replied(
                        clipboard_packet("type=read:status=EPERM"@, None),
                    )
                } else {
                    match request.mime() {
                    None => {
                        let password = final(self).terminal@.paste_password;
                        &&& read is None
                        &&& final(self).clipboard_read_in_flight == busy
                        &&& password is Some
                        &&& final(self).terminal@ == (TerminalModel {
                            paste_password: password,
                            ..m
                        }).replied(
                            TerminalModel::paste_event(
                                password->0,
                                seq!["text/plain;charset=utf-8"@],
                            ),
                        )
                    },
                    Some(mime) => if !"text"@.is_prefix_of(mime) {
                        &&& read is None
                        &&& final(self).clipboard_read_in_flight == busy
                        &&& final(self).terminal@ == m.replied(
                            clipboard_packet("type=read:status=ENOSYS"@, None),
                        )
                    } else if busy {
                        &&& read is None
                        &&& final(self).clipboard_read_in_flight
                        &&& final(self).terminal@ == m.replied(
                            clipboard_packet("type=read:status=EBUSY"@, None),
                        )
                    } else {
                        &&& owned_view(read) == Some(mime)
                        &&& final(self).clipboard_read_in_flight
                        &&& final(self).terminal@ == m
                    },
                    }
                }
            }),
    {
        if !allowed {
            let packet = osc_5522_packet("type=read:status=EPERM", None);
            self.answer(packet.as_slice());
            return None;
        }
        match request.kind {
            ClipboardReadKind::MimeList => {
                let forms: Vec<String> = vec![owned("text/plain;charset=utf-8")];
                proof {
                    assert(texts(forms@) =~= seq!["text/plain;charset=utf-8"@]);
                }
                let event = self.terminal.build_paste_event(forms.as_slice());
                self.answer(event.as_slice());
                None
            },
            ClipboardReadKind::MimeData(mime) => {
                let chars = chars_of(mime.as_str());
                if !starts_with(chars.as_slice(), "text") {
                    let packet = osc_5522_packet("type=read:status=ENOSYS", None);
                    self.answer(packet.as_slice());
                    return None;
                }
                if self.clipboard_read_in_flight {
                    let packet = osc_5522_packet("type=read:status=EBUSY", None);
                    self.answer(packet.as_slice());
                    return None;
                }
                self.clipboard_read_in_flight = true;
                Some(mime)
            },
        }
    }

    /// Answers a request for the clipboard in a given form with what was read.
    pub fn answer_clipboard_read(&mut self, mime: &str, content: Option<&str>, allowed: bool)
        requires
            old(self).wf(),
        ensures
            final(self).wf(),
            final(self).cwd_cache == old(self).cwd_cache,
            final(self).fg_proc_cache == old(self).fg_proc_cache,
            !final(self).clipboard_read_in_flight,
            final(self).id == old(self).id,
            final(self).queue == old(self).queue,
            final(self).terminal@ == old(self).terminal@.replied(
                read_answer(
                    mime@,
                    encode_utf8(
                        match content {
                            Some(content) => content@,
                            None => Seq::empty(),
                        },
                    ),
                    allowed,
                ),
            ),
            final(self).terminal.kitty_graphics == old(self).terminal.kitty_graphics,
            final(self).terminal.sync_output_start == old(self).terminal.sync_output_start,
    {
        self.clipboard_read_in_flight = false;
        proof {
            reveal_strlit("");
            assert(""@ =~= Seq::<char>::empty());
        }
        let text: &str = match content {
            Some(text) => text,
            None => "",
        };
        let answer = clipboard_read_answer(mime, text, allowed);
        self.answer(answer.as_slice());
    }

    /// Puts bytes that are typed behind what waits, and shows the live screen. Whether
    /// they had room.
    pub fn type_bytes(&mut self, bytes: &[u8]) -> (queued: bool)
        requires
            old(self).wf(),
        ensures
            final(self).wf(),
            final(self).cwd_cache == old(self).cwd_cache,
            final(self).fg_proc_cache == old(self).fg_proc_cache,
            final(self).id == old(self).id,
            queued == (bytes@.len() == 0 || old(self).queue@.has_room(bytes@.len() as int, false)),
            final(self).queue@ == (if bytes@.len() > 0 && queued {
                old(self).queue@.with(bytes@, false)
            } else {
                old(self).queue@
            }),
            final(self).terminal@ == (TerminalModel { scroll_offset: 0, ..old(self).terminal@ }),
            final(self).terminal.kitty_graphics == old(self).terminal.kitty_graphics,
            final(self).terminal.sync_output_start == old(self).terminal.sync_output_start,
            final(self).clipboard_read_in_flight == old(self).clipboard_read_in_flight,
    {
        self.terminal.scroll_to_bottom();
        self.queue.queue_user_bytes(bytes)
    }

    /// Pastes text, if it has room. Whether it has.
    pub fn paste(&mut self, text: &str) -> (queued: bool)
        requires
            old(self).wf(),
        ensures
            final(self).wf(),
            final(self).cwd_cache == old(self).cwd_cache,
            final(self).fg_proc_cache == old(self).fg_proc_cache,
            final(self).id == old(self).id,
            ({
                let bytes = pasted(text@, old(self).terminal@.has(2004));
                &&& queued == old(self).queue@.has_room(bytes.len() as int, false)
                &&& final(self).queue@ == (if bytes.len() > 0 && queued {
                    old(self).queue@.with(bytes, false)
                } else {
                    old(self).queue@
                })
                &&& final(self).terminal@ == (if queued {
                    TerminalModel { scroll_offset: 0, ..old(self).terminal@ }
                } else {
                    old(self).terminal@
                })
            }),
            final(self).terminal.kitty_graphics == old(self).terminal.kitty_graphics,
            final(self).terminal.sync_output_start == old(self).terminal.sync_output_start,
            final(self).clipboard_read_in_flight == old(self).clipboard_read_in_flight,
    {
        proof {
            queue_is_bounded(self.queue);
        }
        let bracketed = self.terminal.is_bracketed_paste_enabled();
        let size: usize = paste_size(text, bracketed);
        if !self.queue.can_queue_user_bytes(size) {
            return false;
        }
        let bytes = paste_bytes(text, bracketed);
        self.type_bytes(bytes.as_slice())
    }

    /// What the program has asked to be told of keys.
    pub fn keyboard_enhancements(&self, application_keypad: bool) -> (enh: KeyboardEnhancements)
        requires
            self.wf(),
        ensures
            enh == self.enhancements(application_keypad),
    {
        KeyboardEnhancements {
            kitty_flags: self.terminal.keyboard_enhancement_flags(),
            modify_other_keys: self.terminal.xterm_modify_other_keys(),
            format_other_keys: self.terminal.xterm_format_other_keys(),
            report_all_keys: self.terminal.is_report_all_keys_enabled(),
            application_keypad,
        }
    }

    pub open spec fn enhancements(&self, application_keypad: bool) -> KeyboardEnhancements {
        let m = self.terminal@;
        KeyboardEnhancements {
            kitty_flags: m.keyboard_flags,
            modify_other_keys: m.modify_other_keys,
            format_other_keys: m.format_other_keys,
            report_all_keys: m.has(2031) || m.keyboard_flags & 0b1000 != 0,
            application_keypad,
        }
    }

    /// Sends a key press to the program. Whether it had room; nothing where the key is
    /// none that is sent.
    pub fn press_key(
        &mut self,
        key: &Key,
        location: Location,
        mods: Modifiers,
        text: Option<&str>,
        application_keypad: bool,
    ) -> (sent: Option<bool>)
        requires
            old(self).wf(),
        ensures
            final(self).wf(),
            final(self).cwd_cache == old(self).cwd_cache,
            final(self).fg_proc_cache == old(self).fg_proc_cache,
            final(self).id == old(self).id,
            ({
                let bytes = key_bytes(
                    *key,
                    location,
                    mods,
                    opt_chars(text),
                    old(self).terminal@.has(1),
                    old(self).enhancements(application_keypad),
                );
                match bytes {
                    None => sent is None && *final(self) == *old(self),
                    Some(bytes) => {
                        &&& sent == Some(
                            bytes.len() == 0 || old(self).queue@.has_room(
                                bytes.len() as int,
                                false,
                            ),
                        )
                        &&& final(self).queue@ == (if bytes.len() > 0 && sent == Some(true) {
                            old(self).queue@.with(bytes, false)
                        } else {
                            old(self).queue@
                        })
                        &&& final(self).terminal@ == (TerminalModel {
                            scroll_offset: 0,
                            ..old(self).terminal@
                        })
                    },
                }
            }),
            final(self).terminal.kitty_graphics == old(self).terminal.kitty_graphics,
            final(self).terminal.sync_output_start == old(self).terminal.sync_output_start,
            final(self).clipboard_read_in_flight == old(self).clipboard_read_in_flight,
    {
        let app_cursor = self.terminal.is_application_cursor_keys();
        let enh = self.keyboard_enhancements(application_keypad);
        match encode_key(key, location, mods, text, app_cursor, enh) {
            Some(bytes) => Some(self.type_bytes(bytes.as_slice())),
            None => None,
        }
    }

    /// Takes in what an input method does. Whether there was room for what it typed.
    pub fn compose(&mut self, event: Composition) -> (queued: bool)
        requires
            old(self).wf(),
        ensures
            final(self).wf(),
            final(self).cwd_cache == old(self).cwd_cache,
            final(self).fg_proc_cache == old(self).fg_proc_cache,
            final(self).id == old(self).id,
            final(self).terminal.kitty_graphics == old(self).terminal.kitty_graphics,
            final(self).terminal.sync_output_start == old(self).terminal.sync_output_start,
            final(self).clipboard_read_in_flight == old(self).clipboard_read_in_flight,
            ({
                let m = old(self).terminal@;
                let cleared = TerminalModel {
                    preedit_text: Seq::empty(),
                    preedit_selection: None,
                    ..m
                };
                match event {
                    Composition::Opened => {
                        &&& final(self).terminal@ == (TerminalModel { ime_enabled: true, ..m })
                        &&& final(self).queue@ == old(self).queue@
                        &&& queued
                    },
                    Composition::Closed => {
                        &&& final(self).terminal@ == (TerminalModel {
                            ime_enabled: false,
                            ..cleared
                        })
                        &&& final(self).queue@ == old(self).queue@
                        &&& queued
                    },
                    Composition::Preedit(text, selection) => {
                        &&& final(self).terminal@ == (TerminalModel {
                            preedit_text: text@,
                            preedit_selection: range_view(selection),
                            ..m
                        })
                        &&& final(self).queue@ == old(self).queue@
                        &&& queued
                    },
                    Composition::Commit(text) => {
                        let bytes = encode_utf8(text@);
                        &&& final(self).terminal@ == (TerminalModel { scroll_offset: 0, ..cleared })
                        &&& queued == (bytes.len() == 0 || old(self).queue@.has_room(
                            bytes.len() as int,
                            false,
                        ))
                        &&& final(self).queue@ == (if bytes.len() > 0 && queued {
                            old(self).queue@.with(bytes, false)
                        } else {
                            old(self).queue@
                        })
                    },
                }
            }),
    {
        match event {
            Composition::Opened => {
                self.terminal.ime_enabled = true;
                return true;
            },
            Composition::Closed => {
                self.terminal.ime_enabled = false;
                self.terminal.clear_preedit();
                return true;
            },
            Composition::Preedit(text, selection) => {
                self.terminal.set_preedit(text, selection);
                return true;
            },
            Composition::Commit(text) => {
                self.terminal.clear_preedit();
                return self.type_bytes(text.as_str().as_bytes());
            },
        }
    }

    /// Puts the terminal's answers with what waits for the shell. Whether there was room:
    /// they are lost otherwise.
    pub fn flush_responses(&mut self) -> (queued: bool)
        requires
            old(self).wf(),
        ensures
            final(self).wf(),
            final(self).cwd_cache == old(self).cwd_cache,
            final(self).fg_proc_cache == old(self).fg_proc_cache,
            final(self).id == old(self).id,
            final(self).clipboard_read_in_flight == old(self).clipboard_read_in_flight,
            final(self).terminal.kitty_graphics == old(self).terminal.kitty_graphics,
            final(self).terminal.sync_output_start == old(self).terminal.sync_output_start,
            final(self).terminal@ == (TerminalModel {
                output: Seq::empty(),
                ..old(self).terminal@
            }),
            ({
                let answers = old(self).terminal@.output;
                &&& queued == (answers.len() == 0 || old(self).queue@.has_room(
                    answers.len() as int,
                    true,
                ))
                &&& final(self).queue@ == (if answers.len() > 0 && queued {
                    old(self).queue@.with(answers, true)
                } else {
                    old(self).queue@
                })
            }),
    {
        let answers = self.terminal.get_output();
        self.queue.queue_response(answers)
    }

    /// Scrolls the view where the key is one that does, with Shift. Whether it is.
    #[verifier::spinoff_prover]
    pub fn handle_scroll_shortcut(&mut self, key: &Key, mods: Modifiers) -> (consumed: bool)
        requires
            old(self).wf(),
        ensures
            final(self).wf(),
            same_but_terminal(*old(self), *final(self)),
            consumed == (scroll_key(old(self).terminal@, *key, mods) is Some),
            final(self).terminal@ == (match scroll_key(old(self).terminal@, *key, mods) {
                Some(m) => m,
                None => old(self).terminal@,
            }),
            final(self).terminal.kitty_graphics == old(self).terminal.kitty_graphics,
            final(self).terminal.sync_output_start == old(self).terminal.sync_output_start,
    {
        if !mods.shift {
            return false;
        }
        let rows: usize = self.terminal.get_dimensions().1;
        let page: isize = if rows > 2 {
            (rows - 1) as isize
        } else {
            1
        };
        match key {
            Key::Named(Named::PageUp) => {
                self.terminal.scroll(page);
                return true;
            },
            Key::Named(Named::PageDown) => {
                self.terminal.scroll(-page);
                return true;
            },
            Key::Named(Named::Home) => {
                let len: usize = self.terminal.scrollback_len();
                self.terminal.set_scroll_offset(len);
                return true;
            },
            Key::Named(Named::End) => {
                self.terminal.scroll_to_bottom();
                return true;
            },
            _ => {
                return false;
            },
        }
    }

    fn report(&mut self, report: Option<String>, times: u32)
        requires
            old(self).wf(),
        ensures
            final(self).wf(),
            final(self).terminal == old(self).terminal,
            final(self).id == old(self).id,
            final(self).cwd_cache == old(self).cwd_cache,
            final(self).fg_proc_cache == old(self).fg_proc_cache,
            final(self).clipboard_read_in_flight == old(self).clipboard_read_in_flight,
            final(self).queue@ == (match report {
                Some(report) => typed_times(
                    old(self).queue@,
                    encode_utf8(report@),
                    times as nat,
                ),
                None => old(self).queue@,
            }),
    {
        if let Some(report) = report {
            let bytes = report.as_str().as_bytes();
            let mut i: u32 = 0;
            while i < times
                invariant
                    i <= times,
                    self.wf(),
                    self.terminal == old(self).terminal,
                    self.id == old(self).id,
                    self.cwd_cache == old(self).cwd_cache,
                    self.fg_proc_cache == old(self).fg_proc_cache,
                    self.clipboard_read_in_flight == old(self).clipboard_read_in_flight,
                    bytes@ == encode_utf8(report@),
                    self.queue@ == typed_times(old(self).queue@, bytes@, i as nat),
                decreases times - i,
            {
                self.queue.queue_user_bytes(bytes);
                i = i + 1;
            }
        }
    }

    /// Whether what the pointer is to do is at a position that can be told and selected.
    pub fn can_point(&self, action: PointerAction) -> (v: bool)
        requires
            self.wf(),
        ensures
            v == can_point(self.terminal@, action),
    {
        let most: usize = u32::MAX as usize;
        let above: usize = self.terminal.scrollback.len() - self.terminal.scroll_offset;
        match action {
            PointerAction::Report { code, col, row, .. } => code <= 223 && col < most && row < most,
            PointerAction::ReportRelease { col, row, .. } => col < most && row < most,
            PointerAction::StartSelection { row, .. } => row <= usize::MAX - above,
            PointerAction::StartBlockSelection { row, .. } => row <= usize::MAX - above,
            PointerAction::SelectWord { row, .. } => row <= usize::MAX - above,
            PointerAction::SelectLine { row } => row <= usize::MAX - above,
            PointerAction::ExtendSelection { row, .. } => row <= usize::MAX - above,
            PointerAction::ExtendWord { row, .. } => row <= usize::MAX - above,
            PointerAction::ExtendLine { row } => row <= usize::MAX - above,
            _ => true,
        }
    }

    /// Does what the pointer is to do in the session: it tells the program, selects, or
    /// scrolls. The text of a selection that has ended is given back.
    pub fn point(&mut self, action: PointerAction) -> (copied: Option<String>)
        requires
            old(self).wf(),
            can_point(old(self).terminal@, action),
        ensures
            final(self).wf(),
            final(self).id == old(self).id,
            final(self).cwd_cache == old(self).cwd_cache,
            final(self).fg_proc_cache == old(self).fg_proc_cache,
            final(self).clipboard_read_in_flight == old(self).clipboard_read_in_flight,
            final(self).terminal@ == pointed(old(self).terminal@, action),
            final(self).terminal.kitty_graphics == old(self).terminal.kitty_graphics,
            final(self).terminal.sync_output_start == old(self).terminal.sync_output_start,
            final(self).queue@ == (match told_of(old(self).terminal@, action) {
                (Some(report), times) => typed_times(
                    old(self).queue@,
                    encode_utf8(report),
                    times,
                ),
                (None, _) => old(self).queue@,
            }),
            owned_view(copied) == (match (action, old(self).terminal@.selection) {
                (PointerAction::CopyPrimary, Some(sel)) => if old(self).terminal@.copied(sel).len()
                    > 0 {
                    Some(old(self).terminal@.copied(sel))
                } else {
                    None
                },
                _ => None,
            }),
    {
        let last: usize = self.terminal.get_dimensions().0 - 1;
        match action {
            PointerAction::Report { code, col, row, times } => {
                let report = self.terminal.get_mouse_report(code, col, row);
                self.report(report, times);
            },
            PointerAction::ReportRelease { code, col, row } => {
                let report = self.terminal.get_mouse_release_report(code, col, row);
                self.report(report, 1);
            },
            PointerAction::StartSelection { row, col } => self.terminal.start_selection((row, col)),
            PointerAction::StartBlockSelection { row, col } => self.terminal.start_block_selection(
                (row, col),
            ),
            PointerAction::SelectWord { row, col } => self.terminal.select_word_at(row, col),
            PointerAction::SelectLine { row } => {
                self.terminal.start_selection((row, 0));
                self.terminal.update_selection((row, last));
            },
            PointerAction::ExtendSelection { row, col } => self.terminal.update_selection(
                (row, col),
            ),
            PointerAction::ExtendWord { row, col } => self.terminal.update_selection((row, col)),
            PointerAction::ExtendLine { row } => self.terminal.update_selection((row, last)),
            PointerAction::CopyPrimary => {
                if let Some(text) = self.terminal.copy_selection() {
                    if text.as_str().unicode_len() > 0 {
                        return Some(text);
                    }
                }
            },
            PointerAction::Scroll(lines) => self.terminal.scroll(lines),
            PointerAction::ScrollTo(offset) => self.terminal.set_scroll_offset(offset),
            _ => {},
        }
        None
    }

    /// Gives the terminal another size. Whether that changed anything, and whether its
    /// width did.
    pub fn resize(&mut self, cols: usize, rows: usize) -> (changed: (bool, bool))
        requires
            old(self).wf(),
        ensures
            final(self).wf(),
            same_but_terminal(*old(self), *final(self)),
            ({
                let m = old(self).terminal@;
                &&& changed.0 == (m.cols() != cols || m.rows() != rows)
                &&& changed.1 == (m.cols() != cols)
                &&& final(self).terminal@ == (if changed.0 {
                    m.resized(cols as int, rows as int)
                } else {
                    m
                })
            }),
            final(self).terminal.kitty_graphics == old(self).terminal.kitty_graphics,
            final(self).terminal.sync_output_start == old(self).terminal.sync_output_start,
    {
        let (old_cols, old_rows) = self.terminal.get_dimensions();
        if old_cols != cols || old_rows != rows {
            self.terminal.on_resize(cols, rows);
            (true, old_cols != cols)
        } else {
            (false, false)
        }
    }

    /// Tells the program of the window's focus, where it wants to be told.
    pub fn focus_changed(&mut self, focused: bool)
        requires
            old(self).wf(),
        ensures
            final(self).wf(),
            same_but_terminal(*old(self), *final(self)),
            final(self).terminal@ == (if old(self).terminal@.has(1004) {
                old(self).terminal@.replied(
                    if focused {
                        encode_utf8("\x1b[I"@)
                    } else {
                        encode_utf8("\x1b[O"@)
                    },
                )
            } else {
                old(self).terminal@
            }),
            final(self).terminal.kitty_graphics == old(self).terminal.kitty_graphics,
            final(self).terminal.sync_output_start == old(self).terminal.sync_output_start,
    {
        if self.terminal.is_focus_event_mode() {
            if focused {
                self.terminal.emit_focus_in();
            } else {
                self.terminal.emit_focus_out();
            }
        }
    }
}

/// Without permission nothing of the clipboard is told: the answers are the same
/// whatever it holds.
pub proof fn refused_reads_tell_nothing(mime: Seq<char>, a: Seq<char>, b: Seq<char>)
    ensures
        query_answer(told(Some(a), false)) == query_answer(told(Some(b), false)),
        query_answer(told(Some(a), false)) == query_answer(Seq::empty()),
        read_answer(mime, encode_utf8(a), false) == read_answer(mime, encode_utf8(b), false),
        read_answer(mime, encode_utf8(a), false) == clipboard_packet(
            "type=read:status=EPERM"@,
            None,
        ),
{
}

/// Whether the user may be told of something, so long after the last time.
pub fn notification_allowed(since_last_nanos: Option<u128>) -> (v: bool)
    ensures
        v == (match since_last_nanos {
            Some(nanos) => nanos >= NOTIFICATION_PAUSE_NANOS,
            None => true,
        }),
{
    match since_last_nanos {
        Some(nanos) => nanos >= NOTIFICATION_PAUSE_NANOS,
        None => true,
    }
}

/// A selection starts at the cell under the pointer, and a drag takes its other end to the
/// cell under the pointer then: lines are counted from the oldest one that is kept, so that
/// the selection stays on its text. A line is selected from its first to its last column.
pub proof fn the_pointer_selects_cells(m: TerminalModel, row: usize, col: usize, sel: Selection)
    requires
        m.wf(),
        m.scrollback.len() - m.scroll_offset + row <= usize::MAX,
    ensures
        ({
            let line = (m.scrollback.len() - m.scroll_offset + row) as usize;
            let start = pointed(m, PointerAction::StartSelection { row, col });
            let block = pointed(m, PointerAction::StartBlockSelection { row, col });
            let whole = pointed(m, PointerAction::SelectLine { row });
            let dragged = pointed(
                TerminalModel { selection: Some(sel), ..m },
                PointerAction::ExtendSelection { row, col },
            );
            &&& start.selection == Some(
                Selection { anchor: (line, col), active: (line, col), mode: SelectionMode::Normal },
            )
            &&& block.selection == Some(
                Selection { anchor: (line, col), active: (line, col), mode: SelectionMode::Block },
            )
            &&& whole.selection == Some(
                Selection {
                    anchor: (line, 0),
                    active: (line, (m.cols() - 1) as usize),
                    mode: SelectionMode::Normal,
                },
            )
            &&& dragged.selection == Some(
                Selection { anchor: sel.anchor, active: (line, col), mode: sel.mode },
            )
            &&& start.grid == m.grid && start.scroll_offset == m.scroll_offset
        }),
{
}

/// With Shift, the page keys scroll the view by a page less one line, up and down, Home goes
/// to the oldest line and End to the live screen; without Shift they are keys of the program.
pub proof fn page_keys_scroll_the_view(m: TerminalModel, key: Key, mods: Modifiers)
    requires
        m.wf(),
        !m.use_alt_buffer,
        m.rows() > 2,
    ensures
        !mods.shift ==> scroll_key(m, key, mods) is None,
        mods.shift ==> ({
            let up = scroll_key(m, Key::Named(Named::PageUp), mods);
            let down = scroll_key(m, Key::Named(Named::PageDown), mods);
            let first = scroll_key(m, Key::Named(Named::Home), mods);
            let last = scroll_key(m, Key::Named(Named::End), mods);
            &&& up matches Some(r) && (m.scroll_offset + m.rows() - 1 <= m.scrollback.len()
                ==> r.scroll_offset == m.scroll_offset + m.rows() - 1)
            &&& down matches Some(r) && (m.scroll_offset >= m.rows() - 1 ==> r.scroll_offset
                == m.scroll_offset - (m.rows() - 1))
            &&& first matches Some(r) && r.scroll_offset == m.scrollback.len()
            &&& last matches Some(r) && r.scroll_offset == 0
        }),
        mods.shift && key == Key::Named(Named::ArrowUp) ==> scroll_key(m, key, mods) is None,
{
}

/// A program that asked for the clipboard is told its text in base64 where that is allowed
/// and the text is not too long, and otherwise an empty one.
pub proof fn the_clipboard_is_told_if_allowed(content: Seq<char>, allowed: bool)
    ensures
        allowed && encode_utf8(content).len() <= 1_048_576 ==> told(Some(content), allowed)
            == content,
        !allowed ==> told(Some(content), allowed).len() == 0,
        encode_utf8(content).len() > 1_048_576 ==> told(Some(content), allowed).len() == 0,
        told(None, allowed).len() == 0,
        query_answer(content) == seq![0x1bu8, 0x5d, 0x35, 0x32, 0x3b, 0x63, 0x3b] + encode_utf8(
            base64_of(encode_utf8(content)),
        ) + seq![0x1bu8, 0x5c],
{
    reveal_strlit("\x1b]52;c;");
    reveal_strlit("\x1b\\");
    crate::terminal::moves::lemma_ascii(
        "\x1b]52;c;"@,
        seq![0x1bu8, 0x5d, 0x35, 0x32, 0x3b, 0x63, 0x3b],
    );
    crate::terminal::moves::lemma_ascii("\x1b\\"@, seq![0x1bu8, 0x5c]);
}

} // verus!
