use jterm3::commands::Command;
use jterm3::config::{Config, TabPosition};
use jterm3::desk::fields::{DialogEvent, FieldEvent};
use jterm3::desk::{Request, SidebarPanel};
use jterm3::keyboard::{Key, Modifiers, Named};
use jterm3::panes::SplitMode;
use jterm3::pty::{Reader, ReaderPoll, ReaderStep};
use jterm3::session::{Composition, Session};
use jterm3::status::{
    directory_text, has_blink, match_text, position_text, scroll_text, size_text, split_text,
};
use jterm3::terminal::TerminalState;
use jterm3::toasts::ToastKind;
use jterm3::window::events::{PaneEvent, TabEvent, TickEvent};
use jterm3::window::keys::{Event, MenuOutcome, TabMenuAction};
use jterm3::window::settings::{Setting, ThemeVerdict};
use jterm3::window::{Action, Window};
use jterm3::workspace::{Closing, Workspace};

const NONE: Modifiers = Modifiers { shift: false, control: false, alt: false, logo: false };
const CTRL_SHIFT: Modifiers = Modifiers { shift: true, control: true, ..NONE };

fn window(tabs: usize) -> Window {
    Window::new(Workspace::new(tabs, 0), Config::default(), 80, 24, true)
}

fn press(window: &mut Window, key: &str, mods: Modifiers, command: Option<Command>) -> Action {
    window.press(&Key::Character(key.to_string()), mods, Some(key), command, &Vec::new())
}

fn escape(window: &mut Window) -> Action {
    window.press(&Key::Named(Named::Escape), NONE, None, None, &Vec::new())
}

#[test]
fn keys_reach_the_program_when_nothing_else_wants_them() {
    let mut w = window(2);
    assert_eq!(press(&mut w, "a", NONE, None), Action::Type(0));
    assert_eq!(
        press(&mut w, "t", CTRL_SHIFT, Some(Command::SessionNew)),
        Action::Do(Request::SpawnSession)
    );
    press(&mut w, "p", CTRL_SHIFT, None);
    assert!(w.desk.chrome.palette.is_open);
    assert_eq!(press(&mut w, "z", NONE, None), Action::Nothing);
    assert_eq!(w.desk.chrome.palette.query, "z");
    escape(&mut w);
    assert_eq!(press(&mut w, "a", NONE, None), Action::Type(0));
}

#[test]
fn output_makes_the_search_look_again() {
    let mut w = window(2);
    w.update(Event::Tab(TabEvent::Output(0)));
    assert!(w.desk.workspace.session_dirty && !w.search_dirty);
    w.desk.chrome.search_open = true;
    w.update(Event::Tab(TabEvent::Output(1)));
    assert!(!w.search_dirty);
    w.update(Event::Tab(TabEvent::Output(0)));
    assert!(w.search_dirty);
    w.width_changed(0);
    assert_eq!(w.update(Event::Tick(TickEvent::SearchRefresh)), Action::Nothing);
    assert_eq!(w.take_reflow(), (vec![0], true));
    w.search_dirty = true;
    assert_eq!(
        w.update(Event::Tick(TickEvent::SearchRefresh)),
        Action::FindAgain { reveal: false }
    );
}

#[test]
fn a_shell_that_ends_takes_its_tab_along() {
    let mut w = window(2);
    assert!(matches!(
        w.update(Event::Tab(TabEvent::Exited(1))),
        Action::Closed(Closing::Removed(1), _)
    ));
    assert_eq!(w.update(Event::Tab(TabEvent::Exited(1))), Action::Nothing);
    assert!(matches!(
        w.update(Event::Tab(TabEvent::Exited(0))),
        Action::Closed(Closing::Quit, _)
    ));
}

#[test]
fn closing_a_busy_tab_is_confirmed() {
    let mut w = window(2);
    let busy = Some("vim".to_string());
    assert_eq!(w.update(Event::Tab(TabEvent::Close(1, busy))), Action::Nothing);
    assert!(w.desk.chrome.tab_close_confirm.is_some());
    assert_eq!(w.update(Event::Dialog(DialogEvent::ConfirmNo)), Action::Nothing);
    assert_eq!(w.update(Event::Dialog(DialogEvent::ConfirmYes)), Action::Nothing);
    w.update(Event::Tab(TabEvent::Close(1, Some("vim".to_string()))));
    assert!(matches!(
        w.update(Event::Dialog(DialogEvent::ConfirmYes)),
        Action::Closed(Closing::Removed(1), _)
    ));
}

#[test]
fn dividers_are_pressed_twice_to_make_panes_equal() {
    let mut w = window(1);
    let once = PaneEvent::DividerPressed { divider: 0, last: None };
    assert_eq!(w.update(Event::Pane(once)), Action::Nothing);
    assert_eq!(w.desk.workspace.dragging_divider, Some(0));
    let twice = PaneEvent::DividerPressed { divider: 0, last: Some((0, 399_999_999)) };
    assert_eq!(w.update(Event::Pane(twice)), Action::EqualizePanes);
    let late = PaneEvent::DividerPressed { divider: 0, last: Some((0, 400_000_000)) };
    assert_eq!(w.update(Event::Pane(late)), Action::Nothing);
    w.update(Event::Pane(PaneEvent::DividerReleased));
    assert_eq!(w.desk.workspace.dragging_divider, None);
}

#[test]
fn sizes_focus_and_blinking() {
    let mut w = window(1);
    assert_eq!(
        w.update(Event::Pane(PaneEvent::Resized { cols: 80, rows: 24 })),
        Action::Nothing
    );
    assert!(matches!(
        w.update(Event::Pane(PaneEvent::Resized { cols: 90, rows: 24 })),
        Action::Do(Request::Follow(_))
    ));
    w.update(Event::Tick(TickEvent::Blink));
    assert!(!w.blink_on);
    assert!(w.ticks(true, false).blink);
    assert_eq!(
        w.update(Event::Pane(PaneEvent::Focus(false))),
        Action::TellFocus(0, false)
    );
    assert!(w.blink_on);
    assert!(!w.ticks(true, false).blink);
}

#[test]
fn the_pointer_is_kept_away_by_a_menu() {
    let mut w = window(2);
    let pointer = PaneEvent::Pointer { pane: 0, press: true };
    assert_eq!(w.update(Event::Pane(pointer)), Action::Point { id: 0, refresh: true });
    w.update(Event::Tab(TabEvent::MenuOpen(1)));
    assert_eq!(w.update(Event::Pane(pointer)), Action::Nothing);
    w.update(Event::Tab(TabEvent::MenuClose));
    assert_eq!(w.update(Event::Pane(pointer)), Action::Point { id: 0, refresh: true });
}

#[test]
fn the_menu_of_a_tab() {
    let mut w = window(3);
    let idle = vec![None, None, None];
    assert!(matches!(
        w.execute_tab_menu_action(TabMenuAction::Duplicate(1), None, &idle),
        MenuOutcome::Duplicate(1)
    ));
    w.session_duplicated(1);
    assert_eq!(w.desk.workspace.ids, [0, 1, 3, 2]);
    let busy = vec![None, None, Some("make".to_string()), None];
    assert!(matches!(
        w.execute_tab_menu_action(TabMenuAction::CloseToRight(0), None, &busy),
        MenuOutcome::Shown(_)
    ));
    assert_eq!(w.desk.workspace.active, 2);
    assert_eq!(
        w.toasts.toasts.last().unwrap().text,
        "make is still running — close that tab explicitly"
    );
    let idle = vec![None, None, None, None];
    assert!(matches!(
        w.execute_tab_menu_action(TabMenuAction::CloseOthers(3), None, &idle),
        MenuOutcome::Closed(log) if log.len() == 3
    ));
    assert_eq!(w.desk.workspace.ids, [3]);
    assert_eq!(w.toasts.toasts.last().unwrap().text, "Closed other tabs");
}

#[test]
fn a_window_with_a_running_program_stays() {
    let mut w = window(2);
    assert!(w.request_window_close(&vec![None, Some("vim".to_string())]).is_some());
    assert_eq!(w.toasts.toasts[0].text, "vim is still running — close its tab first");
    assert_eq!(w.toasts.toasts[0].kind, ToastKind::Warning);
    assert!(w.request_window_close(&vec![None, None]).is_none());
}

#[test]
fn settings_take_effect_and_are_written() {
    let mut w = window(1);
    assert_eq!(w.persist_live_config(), Action::Nothing);
    assert_eq!(w.update(Event::Setting(Setting::ScrollSpeed(99))), Action::Nothing);
    assert_eq!(w.config.scroll_speed, 10);
    assert_eq!(w.update(Event::Setting(Setting::Scrollback(1))), Action::Apply);
    assert_eq!(w.config.scrollback_lines, 100);
    assert_eq!(w.persist_live_config(), Action::SaveSettings);
    w.note_persisted(false);
    assert!(w.config_dirty);
    w.note_persisted(true);
    assert!(!w.config_dirty);
    assert_eq!(w.place_tabs(TabPosition::Side), Action::Apply);
    assert_eq!(w.desk.sidebar_panel, SidebarPanel::Tabs);
    assert_eq!(w.place_tabs(TabPosition::Side), Action::Nothing);
    w.note_saved(Err("disk full".to_string()));
    assert_eq!(w.toasts.toasts.last().unwrap().text, "Save failed: disk full");
    w.reset_settings();
    w.note_reset_saved(Ok(()));
    assert_eq!(w.config.tab_position, TabPosition::Top);
    assert!(!w.config_dirty && !w.desk.sidebar_open);
}

#[test]
fn themes_are_edited_judged_and_saved() {
    let mut w = window(1);
    w.open_theme("dark".to_string(), true, vec!["#000000".to_string()]);
    assert_eq!(w.theme_name().as_deref(), Some("dark-custom"));
    w.color_theme(0, "#zz".to_string());
    w.color_theme(9, "#fff".to_string());
    assert_eq!(
        w.judge_theme(ThemeVerdict::InvalidColor("Background".to_string())),
        Action::Nothing
    );
    assert_eq!(
        w.theme_editor.as_ref().unwrap().error.as_deref(),
        Some("Invalid hex for Background")
    );
    w.name_theme(" mine ".to_string());
    assert_eq!(w.judge_theme(ThemeVerdict::Fine), Action::SaveTheme);
    w.note_theme_saved(Err("no space".to_string()));
    assert_eq!(w.toasts.toasts.last().unwrap().text, "Theme Save failed: no space");
    assert_eq!(w.note_theme_saved(Ok(())), Action::Apply);
    assert_eq!(w.config.theme, "mine");
    assert_eq!(w.toasts.toasts.last().unwrap().text, "Saved theme \"mine\"");
    assert!(w.theme_editor.is_none());
    assert_eq!(w.note_theme_deleted("mine", Ok(())), Action::Apply);
    assert_eq!(w.config.theme, "dark");
    assert_eq!(w.note_theme_deleted("other", Err("gone".to_string())), Action::Nothing);
}

#[test]
fn escape_leaves_the_theme_before_the_settings() {
    let mut w = window(1);
    w.update(Event::Dialog(DialogEvent::ToggleSettings));
    w.open_theme("x".to_string(), false, Vec::new());
    escape(&mut w);
    assert!(w.theme_editor.is_none() && w.desk.chrome.config_panel_open);
    escape(&mut w);
    assert!(!w.desk.chrome.config_panel_open);
}

#[test]
fn the_dock_and_the_fields() {
    let mut w = window(3);
    assert_eq!(
        w.update(Event::Dialog(DialogEvent::ToggleSidebar)),
        Action::Do(Request::SidebarToggled { open: true })
    );
    assert_eq!(
        w.update(Event::Dialog(DialogEvent::ShowPanel(SidebarPanel::Files))),
        Action::ShowDirectory
    );
    assert_eq!(w.update(Event::Field(FieldEvent::PaletteExecute(0))), Action::Do(Request::SpawnSession));
    assert!(matches!(
        w.update(Event::Field(FieldEvent::SwitcherJump(2))),
        Action::Do(Request::Follow(_))
    ));
    assert_eq!(w.desk.workspace.active, 2);
    w.update(Event::PasteRejected);
    w.update(Event::ToastDismiss(0));
    assert!(w.toasts.toasts.is_empty());
    w.update(Event::SidebarDrag(true));
    assert!(w.dragging_sidebar);
}

#[test]
fn sessions_are_saved_once_per_change() {
    let mut w = window(1);
    w.update(Event::Tab(TabEvent::Output(0)));
    assert_eq!(
        w.update(Event::Tick(TickEvent::Settings { changed: true })),
        Action::ReloadSettings
    );
    assert_eq!(w.update(Event::Tick(TickEvent::Sessions)), Action::SaveSessions);
    assert_eq!(w.update(Event::Tick(TickEvent::Settings { changed: false })), Action::Nothing);
    assert_eq!(w.update(Event::Tick(TickEvent::Sessions)), Action::Nothing);
    assert!(w.saves_sessions());
}

#[test]
fn settings_that_were_read_again_decide_whether_sessions_are_saved() {
    for (before, after) in [(false, true), (true, false)] {
        let mut old_settings = Config::default();
        old_settings.restore_session = before;
        let mut w = Window::new(Workspace::new(1, 0), old_settings, 80, 24, true);
        w.update(Event::Tab(TabEvent::Output(0)));
        assert_eq!(
            w.update(Event::Tick(TickEvent::Settings { changed: true })),
            Action::ReloadSettings
        );
        assert!(w.desk.workspace.session_dirty);
        let mut new_settings = Config::default();
        new_settings.restore_session = after;
        w.reload_settings(new_settings);
        assert_eq!(
            w.update(Event::Tick(TickEvent::Sessions)),
            if after { Action::SaveSessions } else { Action::Nothing }
        );
        assert!(!w.desk.workspace.session_dirty);
    }
}

#[test]
fn of_a_closed_session_no_history_is_laid_out() {
    let mut w = window(4);
    w.reflow = vec![3, 1, 0, 2];
    w.update(Event::Tab(TabEvent::Exited(1)));
    assert_eq!(w.reflow, vec![3, 0, 2]);
    w.request_close(0, None, None);
    assert_eq!(w.reflow, vec![3, 2]);
    w.execute_tab_menu_action(TabMenuAction::CloseOthers(3), None, &vec![None, None]);
    assert_eq!(w.reflow, vec![3]);
}

#[test]
fn a_window_opens_on_the_panel_of_its_tabs() {
    let mut side = Config::default();
    side.tab_position = TabPosition::Side;
    let w = Window::new(Workspace::new(1, 0), side, 80, 24, true);
    assert!(w.desk.sidebar_open);
    assert_eq!(w.desk.sidebar_panel, SidebarPanel::Tabs);
    let mut top = Config::default();
    top.tab_position = TabPosition::Top;
    let w = Window::new(Workspace::new(1, 0), top, 80, 24, true);
    assert!(!w.desk.sidebar_open);
    assert_eq!(w.desk.sidebar_panel, SidebarPanel::Files);
}

#[test]
fn a_reader_puts_together_what_is_there() {
    let mut reader = Reader::new();
    assert_eq!(reader.note_wait(Some(ReaderPoll::Timeout)), ReaderStep::Wait);
    assert_eq!(reader.note_wait(Some(ReaderPoll::Data)), ReaderStep::Read);
    assert_eq!(reader.note_read(2, b"ab", false, false), ReaderStep::Read);
    assert_eq!(reader.note_read(-1, b"", false, true), ReaderStep::Read);
    assert_eq!(reader.note_read(1, b"c", false, false), ReaderStep::Read);
    assert_eq!(reader.note_read(-1, b"", true, false), ReaderStep::Deliver);
    assert_eq!(reader.take(), b"abc");
    assert_eq!(reader.note_read(0, b"", false, false), ReaderStep::Finish(0));
    assert_eq!(reader.note_read(-1, b"", false, false), ReaderStep::Finish(-1));
    let much = vec![0u8; 1 << 20];
    assert_eq!(reader.note_read(1 << 20, &much, false, false), ReaderStep::Deliver);
    assert_eq!(reader.note_wait(Some(ReaderPoll::Shutdown)), ReaderStep::Stop);
    assert_eq!(reader.note_wait(None), ReaderStep::Finish(-1));
}

#[test]
fn composed_text_is_typed_when_complete() {
    let mut session = Session::new(0, 10, 3, 500);
    assert!(session.compose(Composition::Opened));
    assert!(session.terminal.ime_enabled);
    session.compose(Composition::Preedit("ni".to_string(), Some(0..2)));
    assert_eq!(session.terminal.preedit_text, "ni");
    assert!(session.compose(Composition::Commit("\u{4f60}".to_string())));
    assert_eq!(session.terminal.preedit_text, "");
    assert_eq!(session.queue.next_write(10), Some("\u{4f60}".as_bytes()));
    session.compose(Composition::Closed);
    assert!(!session.terminal.ime_enabled);
    session.ingest(b"\x1b[6n");
    assert!(session.flush_responses());
    assert_eq!(session.terminal.get_output(), b"");
}

#[test]
fn texts_of_the_status_line() {
    assert_eq!(directory_text("/home/u/src", Some("/home/u")), "~/src");
    assert_eq!(directory_text("/srv", Some("/home/u")), "/srv");
    assert_eq!(directory_text("/srv", None), "/srv");
    assert_eq!(size_text(80, 24), "80×24");
    assert_eq!(position_text(0, 9), "1:10");
    assert_eq!(scroll_text(true, 3, 200), "alt 3/200");
    assert_eq!(scroll_text(false, 0, 0), "0/0");
    assert_eq!(split_text(SplitMode::Single, 0, 1, false), None);
    assert_eq!(split_text(SplitMode::Vertical, 1, 3, true).as_deref(), Some("│ 2/3 zoom"));
    assert_eq!(split_text(SplitMode::Horizontal, 0, 2, false).as_deref(), Some("─ 1/2"));
    assert_eq!(match_text(4, 9), "5/9");
}

#[test]
fn blinking_text_is_noticed() {
    let mut terminal = TerminalState::new(10, 3);
    assert!(!has_blink(&terminal.grid));
    terminal.process_input(b"\x1b[5mx");
    assert!(has_blink(&terminal.grid));
}
