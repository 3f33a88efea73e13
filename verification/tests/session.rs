use jterm3::input::{
    clipboard_read_answer, osc_5522_packet, paste_bytes, paste_size, shell_quote,
    MAX_CLIPBOARD_RESPONSE_BYTES,
};
use jterm3::keyboard::{
    encode_key, keyboard_modifier_value, Key, KeyboardEnhancements, Location, Modifiers, Named,
};
use jterm3::pointer::PointerAction;
use jterm3::pty::{
    choose_shell, is_readable, is_writable, read_outcome, reader_poll, shell_arguments,
    shell_environment, window_extent, write_outcome, ChildState, PollEvents, ReadOutcome,
    ReaderPoll, ShellChoice, ShellError, WaitStatus,
};
use jterm3::session::{notification_allowed, Session};
use jterm3::session_persistence::{SessionSnapshot, SessionsSnapshot};
use jterm3::terminal::{ClipboardReadKind, ClipboardReadRequest};
use jterm3::write_queue::{FlushStep, PtyQueue, WriteResult, MAX_PTY_WRITE_QUEUE_BYTES};

const NONE: Modifiers = Modifiers { shift: false, control: false, alt: false, logo: false };

fn drained(queue: &mut PtyQueue) -> Vec<u8> {
    let mut sent = Vec::new();
    while let Some(bytes) = queue.next_write(5) {
        let n = bytes.len();
        sent.extend_from_slice(bytes);
        queue.note_write(5, WriteResult::Written(n));
    }
    sent
}

#[test]
fn what_waits_is_written_in_order() {
    let mut queue = PtyQueue::new();
    assert!(!queue.has_pending_write());
    assert!(queue.queue_user_bytes(b"typed "));
    assert!(queue.queue_response(b"answer ".to_vec()));
    assert!(queue.queue_user_bytes(b"more"));
    assert!(queue.has_pending_write());
    assert_eq!(drained(&mut queue), b"typed answer more");
    assert!(!queue.has_pending_write());
}

#[test]
fn a_full_queue_takes_no_more() {
    let mut queue = PtyQueue::new();
    assert!(queue.queue_user_bytes(&vec![b'x'; MAX_PTY_WRITE_QUEUE_BYTES]));
    assert!(!queue.can_queue_user_bytes(1));
    assert!(!queue.queue_user_bytes(b"y"));
    assert!(queue.queue_response(b"still room for answers".to_vec()));
}

#[test]
fn a_failed_write_drops_what_waits() {
    let mut queue = PtyQueue::new();
    queue.queue_user_bytes(b"abc");
    assert_eq!(queue.note_write(10, WriteResult::Written(0)), FlushStep::Done);
    assert!(queue.has_pending_write());
    assert_eq!(queue.note_write(10, WriteResult::Failed), FlushStep::Failed);
    assert!(!queue.has_pending_write());
}

#[test]
fn a_session_takes_in_output_and_keys() {
    let mut session = Session::new(0, 20, 4, 500);
    let got = session.ingest(b"hi\x1b]52;c;aGVsbG8=\x07\x1b[6n");
    assert_eq!(got.clip_set.as_deref(), Some("hello"));
    assert!(!got.clip_query);
    assert_eq!(session.take_responses(), b"\x1b[1;3R");
    let sent = session.press_key(&Key::Named(Named::ArrowUp), Location::Standard, NONE, None, false);
    assert_eq!(sent, Some(true));
    assert!(session.type_bytes(b"ls\r"));
    assert_eq!(drained(&mut session.queue), b"\x1b[Als\r");
    session.ingest(b"\x1b[?1h");
    session.press_key(&Key::Named(Named::ArrowUp), Location::Standard, NONE, None, false);
    assert_eq!(drained(&mut session.queue), b"\x1bOA");
}

#[test]
fn pastes_are_framed_when_asked_for() {
    let mut session = Session::new(0, 20, 4, 500);
    assert!(session.paste("a b"));
    session.ingest(b"\x1b[?2004h");
    assert!(session.paste("c"));
    assert_eq!(drained(&mut session.queue), b"a b\x1b[200~c\x1b[201~");
    assert_eq!(paste_size("c", true), paste_bytes("c", true).len());
}

#[test]
fn sizes_focus_and_labels_of_a_session() {
    let mut session = Session::new(2, 20, 4, 500);
    assert_eq!(session.resize(20, 4), (false, false));
    assert_eq!(session.resize(30, 4), (true, true));
    assert_eq!(session.resize(30, 9), (true, false));
    session.focus_changed(true);
    assert_eq!(session.take_responses(), b"");
    session.ingest(b"\x1b[?1004h");
    session.focus_changed(true);
    session.focus_changed(false);
    assert_eq!(session.take_responses(), b"\x1b[I\x1b[O");
    session.cwd_cache = Some("/home/u/src".to_string());
    assert_eq!(session.label(Some("/home/u")), "src");
}

#[test]
fn scroll_keys_move_the_view() {
    let mut session = Session::new(0, 10, 3, 500);
    session.ingest(b"1\r\n2\r\n3\r\n4\r\n5\r\n6");
    let shift = Modifiers { shift: true, ..NONE };
    assert!(!session.handle_scroll_shortcut(&Key::Named(Named::PageUp), NONE));
    assert!(session.handle_scroll_shortcut(&Key::Named(Named::PageUp), shift));
    assert_eq!(session.terminal.scroll_offset, 2);
    assert!(session.handle_scroll_shortcut(&Key::Named(Named::Home), shift));
    assert_eq!(session.terminal.scroll_offset, 3);
    assert!(session.handle_scroll_shortcut(&Key::Named(Named::End), shift));
    assert_eq!(session.terminal.scroll_offset, 0);
}

#[test]
fn the_clipboard_is_told_only_with_permission() {
    let mut session = Session::new(0, 10, 3, 500);
    assert!(!session.start_clipboard_query(false));
    let refused = session.take_responses();
    assert!(session.start_clipboard_query(true));
    assert!(!session.start_clipboard_query(true));
    session.take_responses();
    session.answer_clipboard_query(Some("secret"), false);
    assert_eq!(session.take_responses(), refused);
    assert!(!session.clipboard_read_in_flight);
    session.answer_clipboard_query(Some("text"), true);
    assert_ne!(session.take_responses(), refused);
}

#[test]
fn requests_for_forms_of_the_clipboard() {
    let request = |mime: &str| ClipboardReadRequest {
        kind: ClipboardReadKind::MimeData(mime.to_string()),
    };
    let mut session = Session::new(0, 10, 3, 500);
    assert_eq!(session.start_clipboard_read(request("text/plain"), false), None);
    assert_eq!(
        session.take_responses(),
        osc_5522_packet("type=read:status=EPERM", None)
    );
    assert_eq!(session.start_clipboard_read(request("image/png"), true), None);
    assert_eq!(
        session.take_responses(),
        osc_5522_packet("type=read:status=ENOSYS", None)
    );
    assert_eq!(
        session.start_clipboard_read(request("text/plain"), true).as_deref(),
        Some("text/plain")
    );
    assert_eq!(session.start_clipboard_read(request("text/plain"), true), None);
    assert_eq!(
        session.take_responses(),
        osc_5522_packet("type=read:status=EBUSY", None)
    );
    session.answer_clipboard_read("text/plain", Some("x"), true);
    assert_eq!(session.take_responses(), clipboard_read_answer("text/plain", "x", true));
    let list = ClipboardReadRequest { kind: ClipboardReadKind::MimeList };
    assert_eq!(session.start_clipboard_read(list, true), None);
    assert!(!session.take_responses().is_empty());
}

#[test]
fn clipboard_answers_are_encoded_and_bounded() {
    let answer = String::from_utf8(clipboard_read_answer("text/plain", "hi", true)).unwrap();
    assert!(answer.contains("aGk="));
    assert!(answer.contains("status=DONE"));
    let large = "x".repeat(MAX_CLIPBOARD_RESPONSE_BYTES + 1);
    assert!(clipboard_read_answer("text/plain", &large, true).len() < 100);
}

#[test]
fn names_are_quoted_for_the_shell() {
    assert_eq!(shell_quote(""), "''");
    assert_eq!(shell_quote("plain-name.txt"), "plain-name.txt ");
    assert_eq!(shell_quote("two words"), "'two words' ");
    assert_eq!(shell_quote("it's"), "'it'\\''s' ");
}

#[test]
fn notifications_come_with_pauses() {
    assert!(notification_allowed(None));
    assert!(!notification_allowed(Some(0)));
    assert!(notification_allowed(Some(u128::MAX)));
}

#[test]
fn letters_with_control_and_alt() {
    let key = |s: &str, mods: Modifiers, text: Option<&str>| {
        encode_key(
            &Key::Character(s.to_string()),
            Location::Standard,
            mods,
            text,
            false,
            KeyboardEnhancements::default(),
        )
    };
    assert_eq!(key("c", Modifiers { control: true, ..NONE }, None).as_deref(), Some(&b"\x03"[..]));
    assert_eq!(key("x", Modifiers { alt: true, ..NONE }, Some("x")).as_deref(), Some(&b"\x1bx"[..]));
    assert_eq!(key("\u{e9}", NONE, Some("\u{e9}")).as_deref(), Some("\u{e9}".as_bytes()));
    assert_eq!(keyboard_modifier_value(NONE), 1);
    assert_eq!(
        keyboard_modifier_value(Modifiers { shift: true, control: true, alt: true, logo: true }),
        16
    );
}

#[test]
fn shifted_letters_are_reported_by_their_small_form() {
    let report = encode_key(
        &Key::Character("\u{c9}".to_string()),
        Location::Standard,
        Modifiers { control: true, shift: true, ..NONE },
        None,
        false,
        KeyboardEnhancements { kitty_flags: 1, ..Default::default() },
    );
    assert_eq!(report.as_deref(), Some(&b"\x1b[233;6u"[..]));
}

const QUIET: PollEvents =
    PollEvents { readable: false, writable: false, hangup: false, error: false, invalid: false };

#[test]
fn what_waiting_for_the_shell_gives() {
    let readable = PollEvents { readable: true, ..QUIET };
    assert_eq!(reader_poll(-1, readable, QUIET), None);
    assert_eq!(reader_poll(0, readable, QUIET), Some(ReaderPoll::Timeout));
    assert_eq!(reader_poll(1, readable, QUIET), Some(ReaderPoll::Data));
    assert_eq!(reader_poll(2, readable, readable), Some(ReaderPoll::Shutdown));
    assert_eq!(is_readable(1, PollEvents { invalid: true, ..QUIET }), None);
    assert_eq!(is_readable(1, readable), Some(true));
    assert_eq!(is_writable(1, PollEvents { writable: true, ..QUIET }), Some(true));
    assert_eq!(is_writable(0, QUIET), Some(false));
    assert_eq!(write_outcome(-1, true), Some(0));
    assert_eq!(write_outcome(-1, false), None);
    assert_eq!(read_outcome(0, false), ReadOutcome::End);
    assert_eq!(read_outcome(7, false), ReadOutcome::Bytes(7));
    assert_eq!(window_extent(80), 80);
}

#[test]
fn how_the_shell_ended_is_remembered() {
    let mut child = ChildState::new();
    assert!(child.note_poll(0, WaitStatus::Other));
    assert!(!child.note_poll(5, WaitStatus::Signaled(9)));
    assert_eq!(child.exit_code_cached, Some(-9));
    assert_eq!(child.note_wait(5, false, WaitStatus::Exited(3)), Some(-9));
    let mut child = ChildState::new();
    assert_eq!(child.note_wait(-1, false, WaitStatus::Other), None);
    assert_eq!(child.note_wait(5, false, WaitStatus::Exited(3)), Some(3));
    let mut child = ChildState::new();
    child.note_terminated();
    assert_eq!(child.exit_code_cached, Some(-15));
}

#[test]
fn the_first_usable_shell_is_started() {
    let shell = |path: &str, executable: bool| {
        Some(ShellChoice { path: path.to_string(), executable })
    };
    assert_eq!(
        choose_shell(shell("/no", false), None, shell("/bin/zsh", true), None, None),
        "/bin/zsh"
    );
    assert_eq!(choose_shell(None, None, None, None, None), "sh");
    assert!(matches!(
        shell_arguments("/bin/\0sh", None, None),
        Err(ShellError::ShellPathHoldsNul)
    ));
    assert!(matches!(
        shell_arguments("/bin/sh", None, Some("/\0")),
        Err(ShellError::WorkingDirectoryHoldsNul)
    ));
    assert!(!shell_arguments("/bin/sh", None, Some("/")).unwrap().is_empty());
}

#[test]
fn the_shell_is_told_of_the_terminal() {
    let current = vec![b"HOME=/home/u".to_vec(), b"TERM=dumb".to_vec()];
    let environment = shell_environment(&current, "0.1.0");
    assert!(environment.contains(&b"HOME=/home/u".to_vec()));
    assert!(!environment.contains(&b"TERM=dumb".to_vec()));
    assert!(environment.contains(&b"TERM=xterm-256color".to_vec()));
}

#[test]
fn snapshots_keep_the_active_tab() {
    let snapshot = SessionsSnapshot::new(Vec::<SessionSnapshot>::new(), Some(2));
    assert_eq!(snapshot.active_index, Some(2));
    assert!(snapshot.sessions.is_empty());
}

#[test]
fn the_pointer_selects_tells_and_scrolls() {
    let mut session = Session::new(1, 10, 3, 100);
    session.ingest(b"one two\r\nsecond\r\nthird\r\nfourth");
    assert!(session.can_point(PointerAction::SelectWord { row: 0, col: 2 }));
    assert!(!session.can_point(PointerAction::SelectWord { row: usize::MAX, col: 2 }));
    assert!(!session.can_point(PointerAction::Report { code: 0, col: usize::MAX, row: 0, times: 1 }));
    assert_eq!(session.point(PointerAction::SelectWord { row: 0, col: 2 }), None);
    let copied = session.point(PointerAction::CopyPrimary);
    assert_eq!(copied.as_deref(), Some("second"));
    session.point(PointerAction::StartSelection { row: 1, col: 1 });
    session.point(PointerAction::ExtendSelection { row: 1, col: 3 });
    assert_eq!(session.point(PointerAction::CopyPrimary).as_deref(), Some("hir"));
    session.point(PointerAction::SelectLine { row: 2 });
    assert_eq!(session.terminal.copy_selection().as_deref(), Some("fourth    "));
    session.point(PointerAction::Scroll(1));
    assert_eq!(session.terminal.scroll_offset, 1);
    session.point(PointerAction::ScrollTo(0));
    assert_eq!(session.terminal.scroll_offset, 0);
    assert!(!session.queue.has_pending_write());

    session.ingest(b"\x1b[?1000h\x1b[?1006h");
    session.point(PointerAction::Report { code: 64, col: 2, row: 1, times: 2 });
    session.point(PointerAction::ReportRelease { code: 0, col: 0, row: 0 });
    assert_eq!(drained(&mut session.queue), b"\x1b[<64;3;2M\x1b[<64;3;2M\x1b[<0;1;1m");
    assert_eq!(session.point(PointerAction::Nothing), None);
}

#[test]
fn what_was_seen_of_a_shell_is_kept() {
    let mut session = Session::new(1, 10, 3, usize::MAX);
    session.cwd_cache = Some("/tmp".to_string());
    session.fg_proc_cache = Some("vi".to_string());
    session.type_bytes(b"x");
    session.paste("y");
    session.start_clipboard_query(true);
    session.answer_clipboard_query(Some("z"), true);
    session.flush_responses();
    session.press_key(&Key::Named(Named::Enter), Location::Standard, NONE, None, false);
    assert_eq!(session.cwd_cache.as_deref(), Some("/tmp"));
    assert_eq!(session.fg_proc_cache.as_deref(), Some("vi"));
}
