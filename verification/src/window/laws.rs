//! What holds of a window whatever happens in it.

use super::events::{PaneEvent, TabEvent, TickEvent};
use super::keys::Event;
use super::settings::Setting;
use super::{without_closed, Action, WindowModel};
use crate::chrome::ChromeModel;
use crate::command_palette::{palette_items, PaletteModel};
use crate::commands::{palette_step, Step};
use crate::config::{ConfigModel, ScrollbarVisibility};
use crate::desk::fields::{DialogEvent, FieldEvent};
use crate::desk::DeskModel;
use crate::workspace::{lemma_place, moved_ids, place_of};
use vstd::prelude::*;

verus! {

impl Event {
    /// Whether a tab may go with it: its shell has ended, no program runs in it, or the
    /// user was asked.
    pub open spec fn may_close(self) -> bool {
        match self {
            Event::Tab(TabEvent::Exited(_)) => true,
            Event::Tab(TabEvent::Close(_, busy)) => busy is None,
            Event::Dialog(DialogEvent::ConfirmYes) => true,
            _ => false,
        }
    }
}

proof fn lemma_moved_ids(ids: Seq<usize>, from: usize, to: usize, id: usize)
    requires
        from < ids.len(),
        to < ids.len(),
        ids.contains(id),
    ensures
        moved_ids(ids, from, to).contains(id),
{
    let rest = ids.remove(from as int);
    let moved = moved_ids(ids, from, to);
    let k = choose|k: int| 0 <= k < ids.len() && ids[k] == id;
    if k == from {
        assert(moved[to as int] == id);
    } else {
        let r = if k < from {
            k
        } else {
            k - 1
        };
        assert(rest[r] == id);
        assert(moved[if r < to {
            r
        } else {
            r + 1
        }] == id);
    }
}

impl WindowModel {
    /// Whether the settings are the same.
    pub open spec fn same_settings(self, other: Self) -> bool {
        self.config == other.config && self.config_dirty == other.config_dirty
    }

    /// Whether every session of another window is there.
    pub open spec fn has_sessions_of(self, other: Self) -> bool {
        forall|id: usize|
            other.desk.workspace.ids.contains(id) ==> #[trigger] self.desk.workspace.ids.contains(
                id,
            )
    }
}

#[verifier::spinoff_prover]
proof fn lemma_step_keeps_ids(desk: DeskModel, step: Step)
    ensures
        desk.step(step).0.workspace.ids == desk.workspace.ids,
{
    reveal(DeskModel::step);
}

proof fn lemma_tab_drag(window: WindowModel, target_id: usize)
    ensures
        ({
            let after = window.on_tab(TabEvent::DragEnd(target_id));
            &&& after.0.has_sessions_of(window)
            &&& after.0.same_settings(window)
            &&& !(after.1 is Closed)
        }),
{
    let w = window.desk.workspace;
    let source = match w.dragging_tab {
        Some(dragged) => place_of(w.ids, dragged, 0),
        None => None,
    };
    let target = place_of(w.ids, target_id, 0);
    if source is Some && target is Some && source != target {
        lemma_place(w.ids, w.dragging_tab->0, 0);
        lemma_place(w.ids, target_id, 0);
        assert forall|id: usize| w.ids.contains(id) implies #[trigger] window.on_tab(
            TabEvent::DragEnd(target_id),
        ).0.desk.workspace.ids.contains(id) by {
            lemma_moved_ids(w.ids, source->0 as usize, target->0 as usize, id);
        }
    }
}

#[verifier::spinoff_prover]
proof fn lemma_tab_event(window: WindowModel, event: TabEvent)
    ensures
        window.on_tab(event).0.same_settings(window),
        !Event::Tab(event).may_close() ==> window.on_tab(event).0.has_sessions_of(window)
            && !(window.on_tab(event).1 is Closed),
{
    if let TabEvent::DragEnd(target_id) = event {
        lemma_tab_drag(window, target_id);
    }
}

#[verifier::spinoff_prover]
proof fn lemma_pane_event(window: WindowModel, event: PaneEvent)
    ensures
        window.on_pane(event).0.same_settings(window),
        window.on_pane(event).0.has_sessions_of(window),
        !(window.on_pane(event).1 is Closed),
{
}

#[verifier::spinoff_prover]
proof fn lemma_field_event(desk: DeskModel, event: FieldEvent)
    ensures
        desk.on_field(event).0.workspace.ids == desk.workspace.ids,
        !(desk.on_field(event).1 is Closed),
{
    reveal(DeskModel::action_done);
    if let FieldEvent::PaletteExecute(index) = event {
        let action = palette_items()[index as int].action;
        let closed = desk.with_chrome(
            ChromeModel {
                palette: PaletteModel { is_open: false, ..desk.chrome.palette },
                ..desk.chrome
            },
        );
        lemma_step_keeps_ids(
            closed.with_chrome(
                ChromeModel { palette: closed.chrome.palette.used(action), ..closed.chrome },
            ),
            palette_step(action),
        );
    }
}

#[verifier::spinoff_prover]
proof fn lemma_dialog_event(desk: DeskModel, event: DialogEvent)
    requires
        event != DialogEvent::ConfirmYes,
    ensures
        desk.on_dialog(event).0.workspace.ids == desk.workspace.ids,
        !(desk.on_dialog(event).1 is Closed),
{
}

#[verifier::spinoff_prover]
proof fn lemma_tick_event(window: WindowModel, event: TickEvent)
    ensures
        window.on_tick(event).0.same_settings(window),
        window.on_tick(event).0.desk.workspace.ids == window.desk.workspace.ids,
        !(window.on_tick(event).1 is Closed),
{
}

/// No tab is closed while a program runs in it unless the user was asked: every session is
/// still there after all events but those that [`Event::may_close`] names, and nothing is
/// to be closed then.
#[verifier::spinoff_prover]
pub proof fn a_busy_tab_is_not_closed_unasked(window: WindowModel, event: Event)
    requires
        !event.may_close(),
    ensures
        window.after(event).0.has_sessions_of(window),
        !(window.after(event).1 is Closed),
{
    match event {
        Event::Tab(e) => lemma_tab_event(window, e),
        Event::Pane(e) => lemma_pane_event(window, e),
        Event::Field(e) => lemma_field_event(window.desk, e),
        Event::Dialog(e) => lemma_dialog_event(window.desk, e),
        Event::Tick(e) => lemma_tick_event(window, e),
        _ => {},
    }
}

/// The user is asked about a tab in which a program runs, by its name; it stays as it is
/// until they answer.
pub proof fn a_busy_tab_is_asked_about(
    window: WindowModel,
    index: usize,
    activate_after: Option<usize>,
    process: String,
)
    requires
        index < window.desk.workspace.ids.len(),
    ensures
        ({
            let (asked, action) = window.close_asked(index, activate_after, Some(process));
            &&& asked.desk.workspace == window.desk.workspace
            &&& action == Action::Nothing
            &&& asked.desk.chrome.confirm is Some
            &&& asked.desk.chrome.confirm->0.id == window.desk.workspace.ids[index as int]
            &&& asked.desk.chrome.confirm->0.process == process
        }),
{
}

/// What instances after the first do to their tabs is not saved, so that they do not write
/// over what the first has saved; and nothing is where the settings do not want it.
pub proof fn only_the_first_instance_saves_sessions(window: WindowModel, event: TickEvent)
    ensures
        window.on_tick(event).1 == Action::SaveSessions ==> window.first_instance
            && window.config.restore_session,
{
}

/// Of a session that is gone no history is laid out anew, and of the others nothing is lost.
pub proof fn a_closed_session_is_not_laid_out(
    some: Seq<usize>,
    before: Seq<usize>,
    after: Seq<usize>,
    id: usize,
)
    ensures
        without_closed(some, before, after).contains(id) == (some.contains(id) && (
        before.contains(id) ==> after.contains(id))),
    decreases some.len(),
{
    if some.len() > 0 {
        let shorter = some.drop_last();
        let rest = without_closed(shorter, before, after);
        a_closed_session_is_not_laid_out(shorter, before, after, id);
        assert(shorter.push(some.last()) =~= some);
        assert(some.contains(id) == (shorter.contains(id) || some.last() == id)) by {
            if shorter.contains(id) {
                let i = choose|i: int| 0 <= i < shorter.len() && shorter[i] == id;
                assert(some[i] == id);
            }
            if some.contains(id) && some.last() != id {
                let i = choose|i: int| 0 <= i < some.len() && some[i] == id;
                assert(shorter[i] == id);
            }
            if some.last() == id {
                assert(some[some.len() - 1] == id);
            }
        }
        let kept = rest.push(some.last());
        assert(kept.contains(id) == (rest.contains(id) || some.last() == id)) by {
            if rest.contains(id) {
                let i = choose|i: int| 0 <= i < rest.len() && rest[i] == id;
                assert(kept[i] == id);
            }
            if kept.contains(id) && some.last() != id {
                let i = choose|i: int| 0 <= i < kept.len() && kept[i] == id;
                assert(rest[i] == id);
            }
            if some.last() == id {
                assert(kept[kept.len() - 1] == id);
            }
        }
    }
}

/// While the settings are shown, what the user changes is not taken back by what stands in
/// the file.
pub proof fn edited_settings_are_not_taken_back(window: WindowModel, event: TickEvent)
    requires
        window.desk.chrome.config_panel_open,
    ensures
        window.on_tick(event).1 != Action::ReloadSettings,
{
}

/// A changed setting waits to be written until it is.
#[verifier::spinoff_prover]
pub proof fn a_changed_setting_is_to_be_written(window: WindowModel, setting: Setting, event: Event)
    requires
        !(event is Setting),
    ensures
        window.setting_changed(setting).0.config_dirty,
        window.setting_changed(setting).0.config == window.config.with(setting),
        window.after(event).0.same_settings(window),
{
    match event {
        Event::Tab(e) => lemma_tab_event(window, e),
        Event::Pane(e) => lemma_pane_event(window, e),
        Event::Tick(e) => lemma_tick_event(window, e),
        _ => {},
    }
}

/// A tab that is dropped on another takes that one's place, and the others keep their order.
#[verifier::spinoff_prover]
pub proof fn a_dropped_tab_takes_the_place(window: WindowModel, id: usize, target: usize)
    requires
        window.desk.workspace.wf(),
        window.desk.workspace.ids.len() <= usize::MAX,
        window.desk.workspace.dragging_tab == Some(id),
        window.desk.workspace.ids.contains(id),
        window.desk.workspace.ids.contains(target),
        id != target,
    ensures
        ({
            let w = window.desk.workspace;
            let from = place_of(w.ids, id, 0)->0;
            let to = place_of(w.ids, target, 0)->0;
            let after = window.on_tab(TabEvent::DragEnd(target)).0.desk.workspace;
            &&& 0 <= from < w.ids.len() && w.ids[from] == id
            &&& 0 <= to < w.ids.len() && w.ids[to] == target
            &&& after.ids.len() == w.ids.len()
            &&& after.ids[to] == id
            &&& after.ids.remove(to) == w.ids.remove(from)
            &&& after.dragging_tab is None
        }),
{
    let w = window.desk.workspace;
    lemma_place(w.ids, id, 0);
    lemma_place(w.ids, target, 0);
    let a = choose|k: int| 0 <= k < w.ids.len() && w.ids[k] == id;
    let b = choose|k: int| 0 <= k < w.ids.len() && w.ids[k] == target;
    assert(w.ids[a] == id && w.ids[b] == target);
    let from = place_of(w.ids, id, 0)->0;
    let to = place_of(w.ids, target, 0)->0;
    let after = window.on_tab(TabEvent::DragEnd(target)).0.desk.workspace;
    assert(after.ids == moved_ids(w.ids, from as usize, to as usize));
    assert(after.ids.remove(to) =~= w.ids.remove(from));
}

/// The session of a program that ends is closed, if there is one, and no other.
pub proof fn a_session_goes_with_its_program(window: WindowModel, id: usize)
    requires
        window.desk.workspace.wf(),
        window.desk.workspace.ids.len() > 1,
        window.desk.workspace.ids.len() <= usize::MAX,
    ensures
        ({
            let w = window.desk.workspace;
            let after = window.on_tab(TabEvent::Exited(id)).0.desk.workspace;
            &&& !w.ids.contains(id) ==> after == w
            &&& w.ids.contains(id) ==> !after.ids.contains(id) && after.ids.len() == w.ids.len() - 1
        }),
{
    let w = window.desk.workspace;
    lemma_place(w.ids, id, 0);
    if w.ids.contains(id) {
        let a = choose|k: int| 0 <= k < w.ids.len() && w.ids[k] == id;
        assert(w.ids[a] == id);
        crate::workspace::laws::the_other_tabs_stay(w, place_of(w.ids, id, 0)->0 as usize);
    }
}

/// A press on a pane gives it the focus, and the session that it shows is told of the
/// pointer; what else the pointer does concerns the active session. While something lies
/// over the terminals, none is.
pub proof fn a_press_focuses_the_pane(window: WindowModel, pane: usize)
    requires
        window.desk.workspace.wf(),
        pane < window.desk.workspace.panes.len(),
    ensures
        ({
            let w = window.desk.workspace;
            let open = window.desk.chrome.pointer_active(w.tab_menu is Some);
            let (pressed, told) = window.on_pane(PaneEvent::Pointer { pane, press: true });
            let (moved, also) = window.on_pane(PaneEvent::Pointer { pane, press: false });
            let id = w.ids[w.panes[pane as int] as int];
            &&& open ==> pressed.desk.workspace.focused == pane && told == (Action::Point {
                id,
                refresh: true,
            })
            &&& open ==> pressed.desk.workspace.ids[pressed.desk.workspace.active as int] == id
            &&& open ==> moved == window && also == (Action::Point {
                id: w.ids[w.active as int],
                refresh: false,
            })
            &&& !open ==> pressed == window && told == Action::Nothing && moved == window && also
                == Action::Nothing
        }),
{
}

/// Two presses on the same divider shortly after each other make the panes equal; other
/// presses take hold of the divider alone.
pub proof fn a_double_press_makes_panes_equal(window: WindowModel, divider: usize, before: usize, nanos: u128)
    ensures
        ({
            let (after, action) = window.on_pane(
                PaneEvent::DividerPressed { divider, last: Some((before, nanos)) },
            );
            &&& after.desk.workspace.dragging_divider == Some(divider)
            &&& action == Action::EqualizePanes <==> before == divider && nanos < 400_000_000
            &&& window.on_pane(PaneEvent::DividerPressed { divider, last: None }).1
                == Action::Nothing
            &&& window.on_pane(PaneEvent::DividerReleased).0.desk.workspace.dragging_divider is None
        }),
{
}

/// What came of a program's output and of the user's changes is saved once: where settings
/// and instance allow it, and then not again until something changes.
pub proof fn changes_are_saved_once(window: WindowModel, id: usize)
    ensures
        ({
            let (after, action) = window.on_tick(TickEvent::Sessions);
            &&& action == Action::SaveSessions <==> window.desk.workspace.dirty
                && window.config.restore_session && window.first_instance
            &&& !after.desk.workspace.dirty
            &&& after.on_tick(TickEvent::Sessions).1 == Action::Nothing
            &&& window.on_tab(TabEvent::Output(id)).0.desk.workspace.dirty
        }),
        window.on_tick(TickEvent::Settings { changed: true }).1 == Action::ReloadSettings
            <==> !window.desk.chrome.config_panel_open,
        window.on_tick(TickEvent::Settings { changed: false }).1 == Action::Nothing,
{
}

/// Output of the active session makes a search that is open look again, once; output of
/// another one does not.
pub proof fn a_search_keeps_up_with_output(window: WindowModel, id: usize)
    requires
        !window.search_dirty,
    ensures
        ({
            let after = window.on_tab(TabEvent::Output(id)).0;
            let active = window.desk.workspace.ids[window.desk.workspace.active as int];
            &&& after.search_dirty <==> id == active && window.desk.chrome.search_open
            &&& window.on_tick(TickEvent::SearchRefresh) == (window, Action::Nothing)
        }),
        ({
            let due = WindowModel { search_dirty: true, ..window };
            let (after, action) = due.on_tick(TickEvent::SearchRefresh);
            !due.reflow.contains(due.active_id()) ==> action == (Action::FindAgain {
                reveal: false,
            }) && !after.search_dirty
        }),
{
}

/// A setting that is changed has the new value, and no other setting changes with it.
pub proof fn a_setting_changes_alone(config: ConfigModel, name: String, n: u32, on: bool, lines: u32)
    ensures
        config.with(Setting::Theme(name)) == (ConfigModel { theme: name@, ..config }),
        config.with(Setting::FontFamily(name)) == (ConfigModel { font_family: name@, ..config }),
        1 <= n <= 10 ==> config.with(Setting::ScrollSpeed(n)) == (ConfigModel {
            scroll_speed: n as int,
            ..config
        }),
        100 <= lines <= 100_000 ==> config.with(Setting::Scrollback(lines)) == (ConfigModel {
            scrollback_lines: lines as int,
            ..config
        }),
        config.with(Setting::DisableAltScreen(on)) == (ConfigModel {
            disable_alt_screen: on,
            ..config
        }),
        config.with(Setting::AllowClipboardRead(on)) == (ConfigModel {
            allow_clipboard_read: on,
            ..config
        }),
        config.with(Setting::ScrollbarAlways(true)).scrollbar_visibility
            == ScrollbarVisibility::Always,
        config.with(Setting::ScrollbarAlways(false)).scrollbar_visibility
            == ScrollbarVisibility::Auto,
{
}

} // verus!
