use jterm3::chrome::{search_key_of, Field, SearchKey};
use jterm3::commands::{dispatch_command, Command, FontStep, SearchStep, Step};
use jterm3::config::{Config, ScrollbarVisibility};
use jterm3::desk::fields::{DialogEvent, FieldEvent};
use jterm3::desk::{Desk, Request};
use jterm3::input::clipboard_5522_response_for_mime;
use jterm3::keyboard::{
    kitty_encode_key, kitty_text_key_code, legacy_function_key_sequence, text_key_code,
    xterm_modify_other_keys_encode, Key, Location, Modifiers, Named,
};
use jterm3::panes::{PaneDirection, SplitMode, MAX_PANES};
use jterm3::pointer::{handle_mouse, PointerAction, PointerContext};
use jterm3::pty::{read_outcome, ReadOutcome};
use jterm3::session::Session;
use jterm3::terminal_view::{MouseButton, MouseInput};
use jterm3::toasts::ToastKind;
use jterm3::window::events::{PaneEvent, TabEvent, TickEvent};
use jterm3::window::keys::{Event, MenuOutcome, TabMenuAction};
use jterm3::window::settings::{theme_verdict, Setting, ThemeVerdict};
use jterm3::window::{Action, Window};
use jterm3::workspace::{Closing, Effects, Shares, Workspace};
use jterm3::write_queue::{FlushStep, PtyQueue, WriteResult};

const PLAIN: Modifiers = Modifiers { shift: false, control: false, alt: false, logo: false };
const CTRL: Modifiers = Modifiers { control: true, ..PLAIN };
const SHIFT: Modifiers = Modifiers { shift: true, ..PLAIN };

fn character(s: &str) -> Key {
    Key::Character(s.to_string())
}

fn desk(tabs: usize) -> Desk {
    Desk::new(Workspace::new(tabs, 0), false)
}

fn split_in_three() -> Workspace {
    let mut w = Workspace::new(1, 0);
    for _ in 0..2 {
        w.request_split(SplitMode::Vertical);
        w.split_added(SplitMode::Vertical);
    }
    w
}

fn open_window(tabs: usize) -> Window {
    Window::new(Workspace::new(tabs, 0), Config::default(), 80, 24, true)
}

#[test]
fn keys_in_the_search_bar() {
    let named = |named, mods| search_key_of(&Key::Named(named), mods, None);
    assert_eq!(named(Named::Escape, PLAIN), SearchKey::Close);
    assert_eq!(named(Named::Enter, PLAIN), SearchKey::Next);
    assert_eq!(named(Named::Enter, SHIFT), SearchKey::Previous);
    assert_eq!(named(Named::Backspace, PLAIN), SearchKey::Shorten);
    assert_eq!(named(Named::ArrowUp, PLAIN), SearchKey::HistoryPrevious);
    assert_eq!(named(Named::ArrowDown, PLAIN), SearchKey::HistoryNext);
    assert_eq!(named(Named::F5, PLAIN), SearchKey::Swallow);
    let typed = |s: &str, mods| search_key_of(&character(s), mods, Some(s));
    assert_eq!(typed("r", CTRL), SearchKey::ToggleRegex);
    assert_eq!(typed("I", CTRL), SearchKey::ToggleCase);
    assert_eq!(typed("x", CTRL), SearchKey::Swallow);
    assert_eq!(typed("f", Modifiers { shift: true, ..CTRL }), SearchKey::Close);
    assert_eq!(typed("x", PLAIN), SearchKey::Type);
    assert_eq!(search_key_of(&Key::Unidentified, PLAIN, None), SearchKey::Swallow);
}

#[test]
fn a_key_for_the_search_reaches_it() {
    let mut w = open_window(1);
    w.desk.chrome.search_open = true;
    let action = w.press(&character("q"), PLAIN, Some("q"), None, &Vec::new());
    assert_eq!(action, Action::Search(SearchKey::Type));
    let action = w.press(&Key::Named(Named::Escape), PLAIN, None, None, &Vec::new());
    assert_eq!(action, Action::Search(SearchKey::Close));
    assert!(!w.desk.chrome.search_open);
}

#[test]
fn commands_of_an_open_search() {
    let steps = [
        (Command::SearchClose, SearchStep::Close),
        (Command::SearchNext, SearchStep::Next),
        (Command::SearchPrev, SearchStep::Previous),
        (Command::SearchHistoryPrev, SearchStep::HistoryPrevious),
        (Command::SearchHistoryNext, SearchStep::HistoryNext),
    ];
    for (command, step) in steps {
        assert_eq!(dispatch_command(command, true, 1), Some(Step::Search(step)));
        assert_eq!(dispatch_command(command, false, 1), None);
    }
}

#[test]
fn what_steps_ask_for() {
    let mut d = desk(2);
    let asked = [
        (Step::Nothing, Request::Nothing),
        (Step::CloseWindow, Request::CloseWindow),
        (Step::Copy, Request::Copy),
        (Step::Paste, Request::Paste(0)),
        (Step::Send(3), Request::Send(3)),
        (Step::ScrollLines { up: true }, Request::ScrollLines { up: true }),
        (Step::ScrollToTop, Request::ScrollToTop),
        (Step::ScrollToBottom, Request::ScrollToBottom),
        (Step::ClearScreen, Request::ClearScreen),
        (Step::Font(FontStep::Smaller), Request::Font(FontStep::Smaller)),
        (Step::Font(FontStep::Standard), Request::Font(FontStep::Standard)),
        (Step::QuickTabSwitch, Request::Focus(Field::TabSwitcher)),
        (Step::ToggleSearch { reveal: true }, Request::SearchToggled { open: true, reveal: true }),
        (Step::Search(SearchStep::Next), Request::Search(SearchStep::Next)),
        (Step::Search(SearchStep::Close), Request::Search(SearchStep::Close)),
        (Step::ResizePane(PaneDirection::Left), Request::Nothing),
    ];
    for (step, request) in asked {
        assert_eq!(d.perform(step), request, "{step:?}");
    }
    assert!(!d.chrome.search_open);
    d.workspace = split_in_three();
    assert_eq!(
        d.perform(Step::ResizePane(PaneDirection::Right)),
        Request::MoveDivider(1, true)
    );
    assert_eq!(
        d.perform(Step::ResizePane(PaneDirection::Left)),
        Request::MoveDivider(1, false)
    );
}

#[test]
fn no_pane_beyond_the_limit() {
    let mut d = desk(1);
    for _ in 1..MAX_PANES {
        assert_eq!(
            d.perform(Step::Split(SplitMode::Horizontal)),
            Request::SpawnPane(SplitMode::Horizontal)
        );
        d.workspace.split_added(SplitMode::Horizontal);
    }
    assert_eq!(d.perform(Step::Split(SplitMode::Horizontal)), Request::SplitLimit);
}

#[test]
fn panes_are_moved_about() {
    let mut w = split_in_three();
    assert_eq!((w.panes.as_slice(), w.focused_pane, w.active), (&[0, 1, 2][..], 2, 2));
    w.focus_prev_pane();
    assert_eq!((w.focused_pane, w.active), (1, 1));
    w.swap_panes();
    assert_eq!((w.panes.as_slice(), w.focused_pane, w.active), (&[0, 2, 1][..], 2, 1));
    w.show_session_in_focused_pane(0);
    assert_eq!((w.panes.as_slice(), w.focused_pane, w.active), (&[0, 2, 1][..], 0, 0));
    assert_eq!((w.position(2), w.position(9), w.pane_of(1)), (Some(2), None, Some(2)));
    assert!(w.activate(Some(2)).refresh);
    assert_eq!((w.focused_pane, w.active), (1, 2));
    let effects = w.unsplit();
    assert_eq!(
        effects,
        Effects { relayout: true, refresh: false, save: false, shares: Shares::Single }
    );
    assert_eq!((w.panes.as_slice(), w.active), (&[2][..], 2));
    assert_eq!(w.activate(None).shares, Shares::Keep);
}

#[test]
fn the_pointer_selects_scrolls_and_reports() {
    let quiet = PointerContext {
        shift: false,
        control: false,
        link: None,
        mouse_enabled: false,
        motion_enabled: false,
        drag_count: 1,
        lines: 1,
        scroll_speed: 3,
    };
    let press = |button, alt, count| MouseInput::Press {
        col: 4,
        row: 2,
        button,
        shift: false,
        alt,
        count,
    };
    let release = |button| MouseInput::Release { col: 4, row: 2, button };
    let drag = MouseInput::Drag { col: 4, row: 2 };
    let wheel = MouseInput::Wheel { col: 4, row: 2, up: false };
    let here = [
        (press(MouseButton::Left, true, 1), PointerAction::StartBlockSelection { row: 2, col: 4 }),
        (press(MouseButton::Left, false, 3), PointerAction::SelectLine { row: 2 }),
        (press(MouseButton::Middle, false, 1), PointerAction::PastePrimary),
        (press(MouseButton::Right, false, 1), PointerAction::Nothing),
        (drag, PointerAction::ExtendSelection { row: 2, col: 4 }),
        (release(MouseButton::Left), PointerAction::CopyPrimary),
        (release(MouseButton::Middle), PointerAction::Nothing),
        (wheel, PointerAction::Scroll(-3)),
        (MouseInput::ScrollTo { offset: 7 }, PointerAction::ScrollTo(7)),
    ];
    for (input, action) in here {
        assert_eq!(handle_mouse(input, quiet), action, "{input:?}");
    }
    let twice = PointerContext { drag_count: 2, ..quiet };
    assert_eq!(handle_mouse(drag, twice), PointerAction::ExtendWord { row: 2, col: 4 });
    let thrice = PointerContext { drag_count: 3, ..quiet };
    assert_eq!(handle_mouse(drag, thrice), PointerAction::ExtendLine { row: 2 });
    let zoom = PointerContext { control: true, lines: 2, ..quiet };
    assert_eq!(
        handle_mouse(wheel, zoom),
        PointerAction::ZoomFont { larger: false, points: 2 }
    );
    let told = PointerContext { mouse_enabled: true, ..quiet };
    assert_eq!(
        handle_mouse(release(MouseButton::Right), told),
        PointerAction::ReportRelease { code: 2, col: 4, row: 2 }
    );
    assert_eq!(handle_mouse(drag, told), PointerAction::Nothing);
    let moved = PointerContext { motion_enabled: true, ..told };
    assert_eq!(
        handle_mouse(drag, moved),
        PointerAction::Report { code: 32, col: 4, row: 2, times: 1 }
    );
}

#[test]
fn settings_take_effect_where_they_show() {
    let mut w = open_window(1);
    assert_eq!(w.change_setting(Setting::Theme("nord".to_string())), Action::Apply);
    assert_eq!(w.change_setting(Setting::FontFamily("Hack".to_string())), Action::Apply);
    assert_eq!(w.change_setting(Setting::DisableAltScreen(true)), Action::Apply);
    assert_eq!(w.change_setting(Setting::ScrollbarAlways(false)), Action::Nothing);
    assert_eq!(w.change_setting(Setting::AllowClipboardRead(true)), Action::Nothing);
    assert_eq!((w.config.theme.as_str(), w.config.font_family.as_str()), ("nord", "Hack"));
    assert_eq!(w.config.scrollbar_visibility, ScrollbarVisibility::Auto);
    assert!(w.config.disable_alt_screen && w.config.allow_clipboard_read && w.config_dirty);
    assert_eq!(w.reload_settings(Config::default()), Action::Apply);
    assert!(!w.config_dirty && !w.config.allow_clipboard_read);
    assert_eq!(w.measure_set(), Action::Apply);
    assert!(w.config_dirty);
}

#[test]
fn a_theme_with_a_bad_name_is_not_saved() {
    let mut w = open_window(1);
    w.open_theme("dark".to_string(), true, vec!["#000000".to_string()]);
    assert_eq!(w.theme_name().as_deref(), Some("dark-custom"));
    assert_eq!(w.judge_theme(ThemeVerdict::Builtin), Action::Nothing);
    let error = |w: &Window| w.theme_editor.as_ref().and_then(|e| e.error.clone());
    assert_eq!(error(&w).as_deref(), Some("Name collides with a builtin theme"));
    w.judge_theme(ThemeVerdict::InvalidName("no".to_string()));
    assert_eq!(error(&w).as_deref(), Some("no"));
    w.close_theme();
    assert!(w.theme_editor.is_none());
    assert_eq!(w.judge_theme(ThemeVerdict::Fine), Action::Nothing);
}

#[test]
fn dragging_a_tab_moves_or_picks_it() {
    let mut w = open_window(3);
    assert_eq!(w.update(Event::Tab(TabEvent::New)), Action::Do(Request::SpawnSession));
    w.update(Event::Tab(TabEvent::Hover(Some(2))));
    assert_eq!(w.desk.workspace.hovered_tab, Some(2));
    w.update(Event::Tab(TabEvent::DragStart(0)));
    assert_eq!(w.desk.workspace.dragging_tab, Some(0));
    w.update(Event::Tab(TabEvent::DragEnd(2)));
    assert_eq!(w.desk.workspace.ids, [1, 2, 0]);
    assert_eq!((w.desk.workspace.active, w.desk.workspace.dragging_tab), (2, None));
    w.update(Event::Tab(TabEvent::DragStart(1)));
    w.update(Event::Tab(TabEvent::DragEnd(1)));
    assert_eq!(w.desk.workspace.active, 0);
    w.update(Event::Tab(TabEvent::DragStart(2)));
    w.update(Event::Tab(TabEvent::DragCancel));
    assert_eq!(w.desk.workspace.dragging_tab, None);
    w.update(Event::Pane(PaneEvent::DividerHover(Some(0))));
    assert_eq!(w.desk.workspace.hovered_divider, Some(0));
}

#[test]
fn the_user_is_told_what_went_wrong() {
    let mut w = open_window(1);
    w.update(Event::Tick(TickEvent::Written { failed: false }));
    assert!(w.toasts.toasts.is_empty());
    w.update(Event::Tick(TickEvent::Written { failed: true }));
    assert_eq!(w.toasts.toasts[0].text, "Terminal input write failed");
    w.tell("done".to_string(), ToastKind::Success);
    assert_eq!(w.toasts.toasts[1].kind, ToastKind::Success);
}

#[test]
fn a_busy_tab_is_asked_about_first() {
    let mut w = open_window(2);
    let outcome = w.execute_tab_menu_action(
        TabMenuAction::Close(1),
        Some("vim".to_string()),
        &vec![None, Some("vim".to_string())],
    );
    assert!(matches!(outcome, MenuOutcome::Act(Action::Nothing)));
    assert_eq!(w.desk.workspace.ids, [0, 1]);
    let confirm = w.desk.chrome.tab_close_confirm.as_ref().expect("a question");
    assert_eq!((confirm.id, confirm.process.as_str()), (1, "vim"));
    let mut w = open_window(2);
    let outcome = w.execute_tab_menu_action(TabMenuAction::Close(9), None, &vec![None, None]);
    assert!(matches!(outcome, MenuOutcome::Nothing));
    assert_eq!(w.request_close(0, None, Some("top".to_string())), Action::Nothing);
    assert!(w.desk.chrome.tab_close_confirm.is_some());
}

#[test]
fn fields_are_typed_into() {
    let mut w = open_window(2);
    w.desk.chrome.palette.open();
    w.update(Event::Field(FieldEvent::PaletteInput("split".to_string())));
    assert_eq!(w.desk.chrome.palette.query, "split");
    w.desk.chrome.palette.close();
    w.desk.perform(Step::QuickTabSwitch);
    w.update(Event::Field(FieldEvent::SwitcherInput("x".to_string())));
    assert_eq!(w.desk.chrome.tab_switcher.as_ref().map(|s| s.query.as_str()), Some("x"));
    w.update(Event::Field(FieldEvent::SwitcherClose));
    assert!(w.desk.chrome.tab_switcher.is_none());
}

#[test]
fn single_encodings_of_keys() {
    assert_eq!(
        legacy_function_key_sequence(&Named::ArrowUp, PLAIN, true, false).as_deref(),
        Some(&b"\x1bOA"[..])
    );
    assert_eq!(
        legacy_function_key_sequence(&Named::F5, SHIFT, false, false).as_deref(),
        Some(&b"\x1b[15;2~"[..])
    );
    assert_eq!(kitty_text_key_code(&character("a")), Some(97));
    assert_eq!(text_key_code(&character("a"), SHIFT, Some("A")), Some(65));
    assert_eq!(
        kitty_encode_key(&character("a"), CTRL, 1).as_deref(),
        Some(&b"\x1b[97;5u"[..])
    );
    assert_eq!(
        xterm_modify_other_keys_encode(&character("a"), CTRL, Some("a"), 2, 0, false).as_deref(),
        Some(&b"\x1b[27;5;97~"[..])
    );
    let mut session = Session::new(0, 80, 24, 1000);
    assert_eq!(
        session.press_key(&character("a"), Location::Left, PLAIN, Some("a"), false),
        Some(true)
    );
    assert_eq!(session.queue.next_write(10), Some(&b"a"[..]));
    assert_eq!(session.press_key(&Key::Unidentified, Location::Right, PLAIN, None, false), None);
    assert!(session.keyboard_enhancements(true).application_keypad);
}

#[test]
fn a_queue_goes_on_after_part_of_it_is_written() {
    let mut queue = PtyQueue::new();
    assert!(queue.queue_user_bytes(b"abc"));
    assert_eq!(queue.note_write(10, WriteResult::Written(1)), FlushStep::Continue(9));
    assert_eq!(queue.next_write(9), Some(&b"bc"[..]));
    assert_eq!(read_outcome(-1, true), ReadOutcome::Empty);
    assert_eq!(read_outcome(-1, false), ReadOutcome::Failed);
}

#[test]
fn clipboard_data_is_sent_in_packets() {
    let answer = clipboard_5522_response_for_mime("text/plain", b"hi");
    let text = String::from_utf8(answer).expect("text");
    assert!(text.starts_with("\x1b]5522;type=read:status=OK"));
    assert!(text.contains("aGk="));
    assert!(text.ends_with("\x1b]5522;type=read:status=DONE\x1b\\"));
}

#[test]
fn another_instance_saves_no_sessions() {
    for (first, saves) in [(true, true), (false, false)] {
        let mut w = Window::new(Workspace::new(1, 0), Config::default(), 80, 24, first);
        w.update(Event::Tab(TabEvent::Output(0)));
        assert_eq!(
            w.update(Event::Tick(TickEvent::Settings { changed: true })),
            Action::ReloadSettings
        );
        assert_eq!(
            w.update(Event::Tick(TickEvent::Sessions)),
            if saves { Action::SaveSessions } else { Action::Nothing }
        );
        assert!(!w.desk.workspace.session_dirty);
        assert_eq!(w.saves_sessions(), saves);
    }
}

#[test]
fn settings_that_are_shown_are_not_read_again() {
    let mut w = open_window(1);
    w.desk.chrome.config_panel_open = true;
    assert_eq!(w.update(Event::Setting(Setting::ScrollSpeed(5))), Action::Nothing);
    assert_eq!(w.update(Event::Tick(TickEvent::Settings { changed: true })), Action::Nothing);
    assert_eq!((w.config.scroll_speed, w.persist_live_config()), (5, Action::SaveSettings));
    w.note_persisted(true);
    assert_eq!(w.persist_live_config(), Action::Nothing);
}

#[test]
fn only_three_events_close_a_tab() {
    let mut w = open_window(3);
    w.update(Event::Tab(TabEvent::Close(1, Some("vim".to_string()))));
    assert_eq!(w.desk.workspace.ids, [0, 1, 2]);
    w.update(Event::Dialog(DialogEvent::ConfirmNo));
    assert_eq!(w.desk.workspace.ids, [0, 1, 2]);
    w.update(Event::Tab(TabEvent::Close(1, Some("vim".to_string()))));
    w.update(Event::Dialog(DialogEvent::ConfirmYes));
    assert_eq!(w.desk.workspace.ids, [0, 2]);
    w.update(Event::Tab(TabEvent::Close(0, None)));
    assert_eq!(w.desk.workspace.ids, [2]);
    assert!(matches!(w.update(Event::Tab(TabEvent::Exited(2))), Action::Closed(Closing::Quit, _)));
}

#[test]
fn a_theme_is_refused_for_its_name_and_its_colors() {
    let labels = vec!["Background".to_string(), "Foreground".to_string(), "Cursor".to_string()];
    let readable = vec![true, false, false];
    let named = theme_verdict(Some("empty".to_string()), true, &readable, &labels);
    assert!(matches!(named, ThemeVerdict::InvalidName(message) if message == "empty"));
    assert!(matches!(theme_verdict(None, true, &readable, &labels), ThemeVerdict::Builtin));
    let colored = theme_verdict(None, false, &readable, &labels);
    assert!(matches!(colored, ThemeVerdict::InvalidColor(label) if label == "Foreground"));
    let fine = theme_verdict(None, false, &vec![true, true], &labels);
    assert!(matches!(fine, ThemeVerdict::Fine));
}
