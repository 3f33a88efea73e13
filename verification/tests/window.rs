use jterm3::chrome::{Chrome, Field, KeyOutcome, SearchKey};
use jterm3::command_palette::{PaletteAction, PaletteState};
use jterm3::commands::{
    clear_screen_bytes, copied_message, dispatch_command, palette_action_step, Command, FontStep,
    SearchStep, Step,
};
use jterm3::desk::{layout_targets, Desk, Request, SidebarPanel};
use jterm3::keyboard::{ChromeShortcut, Key, Modifiers, Named};
use jterm3::panes::{PaneDirection, SplitMode, MAX_PANES};
use jterm3::pointer::{btn_code, handle_mouse, PointerAction, PointerContext};
use jterm3::tab_switcher::{ranking, tab_switcher_filtered, SwitcherKey, TabSwitcherState};
use jterm3::tabs::{
    cwd_basename, foreground_process, restored_active, sessions_to_restore, shortened_label,
    tab_label, BatchClose, CloseRequest, SavedSplit,
};
use jterm3::terminal_view::{MouseButton, MouseInput, PointerState};
use jterm3::toasts::{ToastKind, Toasts};
use jterm3::workspace::{Closing, Shares, SplitRequest, Workspace};

const NONE: Modifiers = Modifiers { shift: false, control: false, alt: false, logo: false };
const CTRL_SHIFT: Modifiers = Modifiers { shift: true, control: true, ..NONE };

fn letter(s: &str) -> Key {
    Key::Character(s.to_string())
}

#[test]
fn tabs_are_added_behind_the_active_one() {
    let mut w = Workspace::new(3, 1);
    let effects = w.session_added();
    assert!(effects.save && effects.refresh);
    assert_eq!(w.ids, [0, 1, 3, 2]);
    assert_eq!((w.active, w.next_id), (2, 4));
    w.session_duplicated(0);
    assert_eq!(w.ids, [0, 4, 1, 3, 2]);
    assert_eq!(w.active, 1);
}

#[test]
fn closing_tabs_down_to_the_last() {
    let mut w = Workspace::new(3, 2);
    assert_eq!(w.close_session(7).0, Closing::Nothing);
    assert_eq!(w.close_session(2).0, Closing::Removed(2));
    assert_eq!(w.ids, [0, 1]);
    assert_eq!(w.active, 1);
    assert_eq!(w.close_session(0).0, Closing::Removed(0));
    assert_eq!((w.ids.as_slice(), w.active), (&[1][..], 0));
    assert_eq!(w.close_session(0).0, Closing::Quit);
}

#[test]
fn tabs_are_gone_through_in_a_circle() {
    let mut w = Workspace::new(3, 2);
    w.next_session();
    assert_eq!(w.active, 0);
    w.prev_session();
    assert_eq!(w.active, 2);
    w.jump_session(1);
    assert_eq!(w.active, 1);
    w.jump_session(9);
    assert_eq!(w.active, 1);
}

#[test]
fn a_moved_tab_stays_active() {
    let mut w = Workspace::new(4, 0);
    w.reorder_session(0, 2);
    assert_eq!(w.ids, [1, 2, 0, 3]);
    assert_eq!(w.active, 2);
    w.reorder_session(2, 0);
    assert_eq!(w.ids, [0, 1, 2, 3]);
    assert_eq!(w.active, 0);
}

#[test]
fn splitting_up_to_the_limit_and_turning() {
    let mut w = Workspace::new(1, 0);
    for n in 1..MAX_PANES {
        assert!(matches!(w.request_split(SplitMode::Vertical), SplitRequest::Spawn));
        let effects = w.split_added(SplitMode::Vertical);
        assert_eq!(effects.shares, if n == 1 { Shares::Halves } else { Shares::Inserted(n - 1) });
        assert_eq!(w.panes.len(), n + 1);
    }
    assert!(matches!(w.request_split(SplitMode::Vertical), SplitRequest::LimitReached));
    assert!(matches!(w.request_split(SplitMode::Horizontal), SplitRequest::Rotated(_)));
    assert_eq!(w.split_mode, SplitMode::Horizontal);
}

#[test]
fn focus_moves_between_panes() {
    let mut w = Workspace::new(1, 0);
    w.split_added(SplitMode::Vertical);
    assert_eq!((w.focused_pane, w.active), (1, 1));
    w.focus_pane_direction(PaneDirection::Left);
    assert_eq!((w.focused_pane, w.active), (0, 0));
    w.focus_pane_direction(PaneDirection::Left);
    assert_eq!(w.focused_pane, 0);
    w.focus_next_pane();
    w.focus_next_pane();
    assert_eq!(w.focused_pane, 0);
    w.press_pane(1);
    assert_eq!(w.active, 1);
    assert_eq!(w.resize_target(PaneDirection::Left), Some((0, false)));
    assert_eq!(w.resize_target(PaneDirection::Up), None);
    w.toggle_pane_zoom();
    assert!(w.pane_zoomed);
}

#[test]
fn closing_a_pane_folds_the_split() {
    let mut w = Workspace::new(1, 0);
    w.split_added(SplitMode::Vertical);
    w.split_added(SplitMode::Vertical);
    let (victim, keep) = w.focused_pane_to_close();
    let (closing, effects) = w.close_session_then(victim, keep);
    assert_eq!(closing, Closing::Removed(victim));
    assert_eq!(effects.shares, Shares::Removed(2));
    assert_eq!(w.panes.len(), 2);
    let (victim, keep) = w.focused_pane_to_close();
    w.close_session_then(victim, keep);
    assert_eq!(w.split_mode, SplitMode::Single);
    assert_eq!(w.ids.len(), 1);
}

#[test]
fn a_split_is_saved_and_restored() {
    let mut w = Workspace::new(2, 0);
    assert!(w.split_to_save().is_none());
    w.split_added(SplitMode::Horizontal);
    let saved = w.split_to_save().unwrap();
    assert_eq!(saved.mode, "horizontal");
    let mut again = Workspace::new(w.ids.len(), 0);
    assert!(again.restore_split(&saved));
    assert_eq!((again.split_mode, again.focused_pane), (w.split_mode, w.focused_pane));
    assert_eq!((&again.panes, again.active), (&w.panes, w.active));
}

#[test]
fn senseless_splits_are_not_restored() {
    let split = |mode: &str, panes: &[usize], focused: usize| SavedSplit {
        mode: mode.to_string(),
        panes: panes.to_vec(),
        focused,
    };
    let mut w = Workspace::new(3, 0);
    assert!(!w.restore_split(&split("diagonal", &[0, 1], 0)));
    assert!(!w.restore_split(&split("vertical", &[0], 0)));
    assert!(!w.restore_split(&split("vertical", &[0, 0], 0)));
    assert!(!w.restore_split(&split("vertical", &[0, 9], 0)));
    assert!(!w.restore_split(&split("vertical", &[0, 1], 2)));
    assert_eq!(w.split_mode, SplitMode::Single);
    assert_eq!(sessions_to_restore(40), 32);
    assert_eq!(restored_active(Some(9), 3), 2);
    assert_eq!(restored_active(None, 3), 0);
}

#[test]
fn busy_tabs_are_not_closed_unasked() {
    let mut w = Workspace::new(3, 0);
    match w.request_close_session_then(1, Some("vim".to_string()), None) {
        CloseRequest::Confirm(confirm) => {
            assert_eq!((confirm.id, confirm.process.as_str()), (1, "vim"));
            assert_eq!(w.ids.len(), 3);
            assert_eq!(w.close_confirmed(confirm).0, Closing::Removed(1));
        }
        CloseRequest::Done(..) => panic!("closed a busy tab"),
    }
    assert_eq!(w.ids, [0, 2]);
    let busy = vec![None, Some("make".to_string())];
    assert!(matches!(w.close_others(0, &busy), BatchClose::Busy(1, _)));
    assert_eq!(w.active, 1);
    assert_eq!(w.request_window_close(&busy).unwrap().0, 1);
    assert!(matches!(w.close_others(9, &busy), BatchClose::Unknown));
    let idle = vec![None, None];
    assert!(matches!(w.close_others(0, &idle), BatchClose::Closed(log) if log.len() == 1));
    assert_eq!(w.ids, [0]);
    assert!(w.request_window_close(&vec![None]).is_none());
}

#[test]
fn tabs_to_the_right_are_closed() {
    let mut w = Workspace::new(4, 3);
    let idle = vec![None, None, None, None];
    assert!(matches!(w.close_to_right(1, &idle), BatchClose::Closed(log) if log.len() == 2));
    assert_eq!(w.ids, [0, 1]);
}

#[test]
fn a_tab_is_dragged_onto_another() {
    let mut w = Workspace::new(3, 0);
    w.start_tab_drag(0);
    w.end_tab_drag(2);
    assert_eq!(w.ids, [1, 2, 0]);
    assert_eq!((w.active, w.dragging_tab), (2, None));
    w.open_tab_menu(1);
    assert_eq!(w.tab_menu, Some(1));
    w.jump_to(1);
    assert_eq!(w.active, 0);
}

#[test]
fn tabs_are_named_by_title_program_or_directory() {
    assert_eq!(tab_label(" title ", Some("vim"), None, None, 0), "title");
    assert_eq!(tab_label("", Some("vim"), Some("/a/b"), None, 0), "vim · b");
    assert_eq!(tab_label("", None, Some("/a/b"), Some("/home/u"), 0), "b");
    assert_eq!(cwd_basename("/home/u", Some("/home/u")).as_deref(), Some("~"));
    assert_eq!(foreground_process(10, 9, "vim\n").as_deref(), Some("vim"));
    assert_eq!(foreground_process(10, 9, "bash"), None);
    assert_eq!(foreground_process(9, 9, "vim"), None);
}

#[test]
fn the_best_tabs_come_first() {
    assert_eq!(ranking(&vec![Some(1), None, Some(5), Some(5)]), [2, 3, 0]);
    let labels = vec!["editor".to_string(), "logs".to_string(), "build".to_string()];
    assert_eq!(tab_switcher_filtered(&labels, ""), [(0, 0), (1, 1), (2, 2)]);
    let listed = tab_switcher_filtered(&labels, "lg");
    assert_eq!(listed, [(0, 1)]);
    let mut state = TabSwitcherState::default();
    assert_eq!(
        state.handle_key(&Key::Named(Named::Enter), NONE, None, &listed),
        SwitcherKey::Pick(Some(1))
    );
    state.set_query("x".to_string());
    assert_eq!(
        state.handle_key(&Key::Named(Named::Escape), NONE, None, &listed),
        SwitcherKey::Close
    );
}

#[test]
fn commands_name_their_steps() {
    assert_eq!(dispatch_command(Command::SessionLast, false, 0), Some(Step::Nothing));
    assert_eq!(dispatch_command(Command::SessionLast, false, 4), Some(Step::JumpSession(3)));
    assert_eq!(dispatch_command(Command::EditPaste, false, 0), None);
    assert_eq!(dispatch_command(Command::SearchNext, false, 1), None);
    assert_eq!(
        dispatch_command(Command::SearchNext, true, 1),
        Some(Step::Search(SearchStep::Next))
    );
    assert_eq!(palette_action_step(PaletteAction::ZoomIn), Step::Font(FontStep::Larger));
    assert_eq!(clear_screen_bytes(), b"\x1b[3J\x1b[2J\x1b[H");
    assert_eq!(copied_message("x"), "Copied 1 char");
    assert_eq!(copied_message("abc"), "Copied 3 chars");
}

#[test]
fn the_palette_finds_and_remembers() {
    let mut palette = PaletteState::new();
    palette.open();
    let all = palette.filtered().len();
    palette.query = "split".to_string();
    let found: Vec<PaletteAction> = palette.filtered().iter().map(|(_, item)| item.action).collect();
    assert!(found.len() < all);
    assert!(found.contains(&PaletteAction::SplitVertical));
    palette.select_next();
    palette.select_prev();
    assert_eq!(palette.selected, 0);
    assert_eq!(palette.selected_action(), Some(found[0]));
    palette.record_use(PaletteAction::ZoomIn);
    palette.open();
    assert_eq!(palette.selected_action(), Some(PaletteAction::ZoomIn));
    palette.toggle();
    assert!(!palette.is_open);
}

#[test]
fn keys_go_to_what_lies_on_top() {
    let mut chrome = Chrome::new();
    let none = Vec::new();
    assert!(chrome.terminal_input_active(false));
    assert!(!chrome.terminal_input_active(true));
    assert!(matches!(chrome.route_key(false, &letter("a"), NONE, Some("a"), &none), KeyOutcome::Pass));
    assert_eq!(chrome.toggle(ChromeShortcut::CommandPalette), Some(Field::Palette));
    assert!(!chrome.terminal_input_active(false));
    let escape = Key::Named(Named::Escape);
    assert!(!matches!(chrome.route_key(false, &escape, NONE, None, &none), KeyOutcome::Pass));
    assert!(!chrome.palette.is_open);
    chrome.search_open = true;
    assert!(matches!(
        chrome.route_key(false, &Key::Named(Named::Enter), NONE, None, &none),
        KeyOutcome::Search(SearchKey::Next)
    ));
    assert!(matches!(
        chrome.route_key(false, &letter("f"), CTRL_SHIFT, None, &none),
        KeyOutcome::Search(SearchKey::Close)
    ));
    assert!(chrome.terminal_mouse_active(false));
}

#[test]
fn steps_ask_for_what_they_need() {
    let mut desk = Desk::new(Workspace::new(2, 0), false);
    assert_eq!(desk.sidebar_panel, SidebarPanel::Files);
    assert_eq!(desk.perform(Step::NewSession), Request::SpawnSession);
    assert_eq!(desk.perform(Step::CloseActive), Request::Close(0, None));
    assert_eq!(desk.perform(Step::Paste), Request::Paste(0));
    assert_eq!(desk.perform(Step::Split(SplitMode::Vertical)), Request::SpawnPane(SplitMode::Vertical));
    assert_eq!(desk.execute_palette_action(PaletteAction::NewTab), Request::SpawnSession);
    desk.perform(Step::ToggleSidebar);
    assert!(desk.sidebar_open);
    desk.sync_tab_position(true);
    assert_eq!(desk.sidebar_panel, SidebarPanel::Tabs);
}

#[test]
fn sessions_get_the_size_of_their_pane() {
    let mut w = Workspace::new(2, 0);
    w.split_added(SplitMode::Vertical);
    let panes = vec![(40, 24), (39, 24)];
    let sizes = layout_targets(&w, (80, 24), &panes);
    assert_eq!(sizes.len(), 3);
    assert_eq!(sizes[w.panes[0]], (40, 24));
    assert_eq!(sizes[w.panes[1]], (39, 24));
    w.toggle_pane_zoom();
    assert_eq!(layout_targets(&w, (80, 24), &panes), [(80, 24); 3]);
}

#[test]
fn messages_come_and_go() {
    let mut toasts = Toasts::new();
    for n in 0..20 {
        toasts.push_toast(format!("{n}"), ToastKind::Info);
    }
    let count = toasts.toasts.len();
    assert!(count < 20);
    assert_eq!(toasts.toasts[count - 1].text, "19");
    toasts.expire_toasts();
    assert_eq!(toasts.toasts.len(), count);
    let shown_at = toasts.toasts[count - 1].shown_at;
    toasts.dismiss(0);
    toasts.dismiss(99);
    assert_eq!(toasts.toasts[count - 2].shown_at, shown_at);
    assert_eq!(toasts.toasts.len(), count - 1);
    toasts.expire_after(&vec![u128::MAX; count - 1]);
    assert!(toasts.toasts.is_empty());
}

#[test]
fn the_pointer_selects_reports_and_scrolls() {
    let context = PointerContext {
        shift: false,
        control: false,
        link: None,
        mouse_enabled: false,
        motion_enabled: false,
        drag_count: 1,
        lines: 2,
        scroll_speed: 3,
    };
    let mut pointer = PointerState::default();
    let press = pointer.press((4, 5), MouseButton::Left, false, false, None, 1000);
    assert_eq!(handle_mouse(press, context), PointerAction::StartSelection { row: 5, col: 4 });
    let again = pointer.press((4, 5), MouseButton::Left, false, false, None, 100);
    assert_eq!(handle_mouse(again, context), PointerAction::SelectWord { row: 5, col: 4 });
    assert_eq!(
        handle_mouse(press, PointerContext { mouse_enabled: true, ..context }),
        PointerAction::Report { code: 0, col: 4, row: 5, times: 1 }
    );
    assert_eq!(
        handle_mouse(press, PointerContext { mouse_enabled: true, shift: true, ..context }),
        PointerAction::StartSelection { row: 5, col: 4 }
    );
    assert_eq!(
        handle_mouse(press, PointerContext { link: Some(2), control: true, ..context }),
        PointerAction::OpenLink(2)
    );
    assert_eq!(
        handle_mouse(MouseInput::Wheel { col: 0, row: 0, up: true }, context),
        PointerAction::Scroll(6)
    );
    assert_eq!(pointer.moved((6, 6), 0), Some(MouseInput::Drag { col: 6, row: 6 }));
    assert!(pointer.release((6, 6), MouseButton::Left, true).is_some());
    assert_eq!(pointer.moved((6, 6), 0), None);
    assert_eq!(btn_code(MouseButton::Right), 2);
}

#[test]
fn long_labels_end_in_an_ellipsis() {
    assert_eq!(shortened_label("short", 5), "short");
    assert_eq!(shortened_label("longer", 5), "long…");
    assert_eq!(shortened_label("世界世界", 3), "世界…");
}
