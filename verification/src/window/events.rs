//! Events of the tabs, the panes and what lies over them.

use super::{copy_ids, Action, Window, WindowModel};
use crate::desk::{followed, Request};
use crate::text::owned;
use crate::toasts::ToastKind;
use crate::workspace::{place_of, Effects, Shares, WorkspaceModel};
use vstd::prelude::*;

verus! {

/// The longest time between two presses on a divider that make up a double click, in
/// nanoseconds.
pub const DIVIDER_DOUBLE_CLICK_NANOS: u128 = 400_000_000;

/// Something about the tabs. They are named by the identity of their session.
#[derive(Debug)]
pub enum TabEvent {
    New,
    /// The program of a session sent something.
    Output(usize),
    /// The shell of a session ended.
    Exited(usize),
    /// A tab is to be closed, in which a program may run.
    Close(usize, Option<String>),
    Hover(Option<usize>),
    DragStart(usize),
    DragEnd(usize),
    DragCancel,
    MenuOpen(usize),
    MenuClose,
}

/// Something about the panes.
#[derive(Debug, Clone, Copy, PartialEq, Eq)]
pub enum PaneEvent {
    /// The pointer does something over a pane.
    Pointer { pane: usize, press: bool },
    /// A divider is pressed. The last one that was pressed is known, and how long ago.
    DividerPressed { divider: usize, last: Option<(usize, u128)> },
    DividerReleased,
    DividerHover(Option<usize>),
    /// The terminal area has room for so many cells now.
    Resized { cols: usize, rows: usize },
    Focus(bool),
}

/// Time has passed.
#[derive(Debug, Clone, Copy, PartialEq, Eq)]
pub enum TickEvent {
    Blink,
    /// What waits for the shells was written as far as it could be.
    Written { failed: bool },
    SearchRefresh,
    /// The settings are looked at, which may have been changed by another.
    Settings { changed: bool },
    /// The settings were looked at, and read again where that was asked for: the sessions
    /// are saved where that is due.
    Sessions,
}

impl WindowModel {
    /// What follows from a change of the tabs or panes.
    pub open spec fn following(self, workspace: WorkspaceModel, effects: Effects) -> (Self, Action) {
        (self.with_workspace(workspace), Action::Do(followed(effects)))
    }

    pub open spec fn on_tab(self, event: TabEvent) -> (Self, Action) {
        let w = self.desk.workspace;
        match event {
            TabEvent::New => (self, Action::Do(Request::SpawnSession)),
            TabEvent::Output(id) => (
                WindowModel {
                    search_dirty: self.search_dirty || (id == self.active_id()
                        && self.desk.chrome.search_open),
                    ..self.with_workspace(WorkspaceModel { dirty: true, ..w })
                },
                Action::Nothing,
            ),
            TabEvent::Exited(id) => match place_of(w.ids, id, 0) {
                Some(index) => (
                    self.closing_to(w.closed(index as usize)),
                    Action::Closed(
                        w.closing(index as usize),
                        w.closed_effects(index as usize),
                    ),
                ),
                None => (self, Action::Nothing),
            },
            TabEvent::Close(id, busy) => match place_of(w.ids, id, 0) {
                Some(index) => self.close_asked(index as usize, None, busy),
                None => (self, Action::Nothing),
            },
            TabEvent::Hover(id) => (
                self.with_workspace(WorkspaceModel { hovered_tab: id, ..w }),
                Action::Nothing,
            ),
            TabEvent::DragStart(id) => (
                self.with_workspace(
                    WorkspaceModel {
                        dragging_tab: if place_of(w.ids, id, 0) is Some {
                            Some(id)
                        } else {
                            w.dragging_tab
                        },
                        ..w
                    },
                ),
                Action::Nothing,
            ),
            TabEvent::DragEnd(target_id) => {
                let m = WorkspaceModel { dragging_tab: None, ..w };
                let source = match w.dragging_tab {
                    Some(id) => place_of(w.ids, id, 0),
                    None => None,
                };
                let target = place_of(w.ids, target_id, 0);
                if source is None || target is None {
                    self.following(m, Effects::none())
                } else if source == target {
                    self.following(
                        WorkspaceModel { dirty: true, ..m.shown(target->0 as usize) },
                        Effects { refresh: true, ..m.unsplit_effects() },
                    )
                } else {
                    self.following(
                        m.reordered(source->0 as usize, target->0 as usize),
                        Effects { refresh: true, save: true, ..Effects::none() },
                    )
                }
            },
            TabEvent::DragCancel => (
                self.with_workspace(WorkspaceModel { dragging_tab: None, ..w }),
                Action::Nothing,
            ),
            TabEvent::MenuOpen(id) => (
                self.with_workspace(
                    WorkspaceModel {
                        tab_menu: if place_of(w.ids, id, 0) is Some {
                            Some(id)
                        } else {
                            w.tab_menu
                        },
                        ..w
                    },
                ),
                Action::Nothing,
            ),
            TabEvent::MenuClose => (
                self.with_workspace(WorkspaceModel { tab_menu: None, ..w }),
                Action::Nothing,
            ),
        }
    }

    pub open spec fn on_pane(self, event: PaneEvent) -> (Self, Action) {
        let w = self.desk.workspace;
        match event {
            PaneEvent::Pointer { pane, press } => if !self.desk.chrome.pointer_active(
                w.tab_menu is Some,
            ) {
                (self, Action::Nothing)
            } else if press && pane < w.panes.len() {
                (
                    self.with_workspace(WorkspaceModel { dirty: true, ..w.focused_on(pane) }),
                    Action::Point { id: w.ids[w.panes[pane as int] as int], refresh: true },
                )
            } else {
                (self, Action::Point { id: self.active_id(), refresh: false })
            },
            PaneEvent::DividerPressed { divider, last } => (
                self.with_workspace(WorkspaceModel { dragging_divider: Some(divider), ..w }),
                match last {
                    Some((before, nanos)) => if before == divider && nanos
                        < DIVIDER_DOUBLE_CLICK_NANOS {
                        Action::EqualizePanes
                    } else {
                        Action::Nothing
                    },
                    None => Action::Nothing,
                },
            ),
            PaneEvent::DividerReleased => (
                self.with_workspace(WorkspaceModel { dragging_divider: None, ..w }),
                Action::Nothing,
            ),
            PaneEvent::DividerHover(divider) => (
                self.with_workspace(WorkspaceModel { hovered_divider: divider, ..w }),
                Action::Nothing,
            ),
            PaneEvent::Resized { cols, rows } => if cols != self.cols || rows != self.rows {
                (
                    WindowModel { cols, rows, ..self },
                    Action::Do(
                        Request::Follow(
                            Effects {
                                relayout: true,
                                refresh: true,
                                save: false,
                                shares: Shares::Keep,
                            },
                        ),
                    ),
                )
            } else {
                (self, Action::Nothing)
            },
            PaneEvent::Focus(focused) => (
                WindowModel { focused, blink_on: self.blink_on || !focused, ..self },
                Action::TellFocus(self.active_id(), focused),
            ),
        }
    }

    pub open spec fn on_tick(self, event: TickEvent) -> (Self, Action) {
        let w = self.desk.workspace;
        match event {
            TickEvent::Blink => (
                WindowModel { blink_on: !self.blink_on, ..self },
                Action::Nothing,
            ),
            TickEvent::Written { failed } => (
                if failed {
                    self.told("Terminal input write failed"@, ToastKind::Warning)
                } else {
                    self
                },
                Action::Nothing,
            ),
            TickEvent::SearchRefresh => if self.search_dirty && !self.reflow.contains(
                self.active_id(),
            ) {
                (
                    WindowModel { search_dirty: false, ..self },
                    Action::FindAgain { reveal: false },
                )
            } else {
                (self, Action::Nothing)
            },
            TickEvent::Settings { changed } => (
                self,
                if changed && !self.desk.chrome.config_panel_open {
                    Action::ReloadSettings
                } else {
                    Action::Nothing
                },
            ),
            TickEvent::Sessions => (
                self.with_workspace(WorkspaceModel { dirty: false, ..w }),
                if w.dirty && self.config.restore_session && self.first_instance {
                    Action::SaveSessions
                } else {
                    Action::Nothing
                },
            ),
        }
    }
}

fn follow(effects: Effects) -> (action: Action)
    ensures
        action == Action::Do(followed(effects)),
{
    if effects.relayout || effects.refresh || effects.save || effects.shares != Shares::Keep {
        Action::Do(Request::Follow(effects))
    } else {
        Action::Do(Request::Nothing)
    }
}

impl Window {
    #[verifier::spinoff_prover]
    fn session_exited(&mut self, id: usize) -> (action: Action)
        requires
            old(self).wf(),
        ensures
            final(self).wf(),
            (final(self)@, action) == old(self)@.on_tab(TabEvent::Exited(id)),
    {
        match self.desk.workspace.position(id) {
            Some(index) => {
                let before = copy_ids(&self.desk.workspace.ids);
                let (closing, effects) = self.desk.workspace.close_session(index);
                self.forget_closed(&before);
                return Action::Closed(closing, effects);
            },
            None => {
                return Action::Nothing;
            },
        }
    }

    #[verifier::spinoff_prover]
    fn tab_dropped(&mut self, id: usize) -> (action: Action)
        requires
            old(self).wf(),
        ensures
            final(self).wf(),
            (final(self)@, action) == old(self)@.on_tab(TabEvent::DragEnd(id)),
    {
        let effects = self.desk.workspace.end_tab_drag(id);
        return follow(effects);
    }

    /// An event that only concerns what a tab shows.
    #[verifier::spinoff_prover]
    fn tab_marked(&mut self, event: TabEvent) -> (action: Action)
        requires
            old(self).wf(),
            event is Hover || event is DragCancel || event is MenuClose,
        ensures
            final(self).wf(),
            (final(self)@, action) == old(self)@.on_tab(event),
    {
        match event {
            TabEvent::Hover(id) => {
                self.desk.workspace.hovered_tab = id;
            },
            TabEvent::DragCancel => {
                self.desk.workspace.dragging_tab = None;
            },
            _ => {
                self.desk.workspace.tab_menu = None;
            },
        }
        Action::Nothing
    }

    #[verifier::spinoff_prover]
    fn tab_taken(&mut self, event: TabEvent) -> (action: Action)
        requires
            old(self).wf(),
            event is DragStart || event is MenuOpen,
        ensures
            final(self).wf(),
            (final(self)@, action) == old(self)@.on_tab(event),
    {
        match event {
            TabEvent::DragStart(id) => {
                self.desk.workspace.start_tab_drag(id);
            },
            TabEvent::MenuOpen(id) => {
                self.desk.workspace.open_tab_menu(id);
            },
            _ => {},
        }
        Action::Nothing
    }

    #[verifier::spinoff_prover]
    fn session_sent(&mut self, id: usize) -> (action: Action)
        requires
            old(self).wf(),
        ensures
            final(self).wf(),
            (final(self)@, action) == old(self)@.on_tab(TabEvent::Output(id)),
    {
        let active: usize = self.desk.workspace.ids[self.desk.workspace.active];
        self.desk.workspace.session_dirty = true;
        if id == active && self.desk.chrome.search_open {
            self.search_dirty = true;
        }
        Action::Nothing
    }

    #[verifier::spinoff_prover]
    fn close_clicked(&mut self, id: usize, busy: Option<String>) -> (action: Action)
        requires
            old(self).wf(),
        ensures
            final(self).wf(),
            (final(self)@, action) == old(self)@.on_tab(TabEvent::Close(id, busy)),
    {
        match self.desk.workspace.position(id) {
            Some(index) => self.request_close(index, None, busy),
            None => Action::Nothing,
        }
    }

    /// Takes in an event of the tabs.
    pub fn handle_tab(&mut self, event: TabEvent) -> (action: Action)
        requires
            old(self).wf(),
        ensures
            final(self).wf(),
            (final(self)@, action) == old(self)@.on_tab(event),
    {
        match event {
            TabEvent::New => Action::Do(Request::SpawnSession),
            TabEvent::Output(id) => self.session_sent(id),
            TabEvent::Exited(id) => self.session_exited(id),
            TabEvent::Close(id, busy) => self.close_clicked(id, busy),
            TabEvent::DragEnd(id) => self.tab_dropped(id),
            TabEvent::DragStart(_) | TabEvent::MenuOpen(_) => self.tab_taken(event),
            _ => self.tab_marked(event),
        }
    }

    #[verifier::spinoff_prover]
    fn pointer_over(&mut self, pane: usize, press: bool) -> (action: Action)
        requires
            old(self).wf(),
        ensures
            final(self).wf(),
            (final(self)@, action) == old(self)@.on_pane(PaneEvent::Pointer { pane, press }),
    {
        let menu = self.desk.workspace.tab_menu.is_some();
        if !self.desk.chrome.terminal_mouse_active(menu) {
            return Action::Nothing;
        }
        let refresh = press && pane < self.desk.workspace.panes.len();
        if refresh {
            let _ = self.desk.workspace.press_pane(pane);
        }
        let id: usize = self.desk.workspace.ids[self.desk.workspace.active];
        Action::Point { id, refresh }
    }

    #[verifier::spinoff_prover]
    fn divider_used(&mut self, event: PaneEvent) -> (action: Action)
        requires
            old(self).wf(),
            event is DividerPressed || event is DividerReleased || event is DividerHover,
        ensures
            final(self).wf(),
            (final(self)@, action) == old(self)@.on_pane(event),
    {
        match event {
            PaneEvent::DividerPressed { divider, last } => {
                self.desk.workspace.dragging_divider = Some(divider);
                let double = match last {
                    Some((before, nanos)) => before == divider && nanos
                        < DIVIDER_DOUBLE_CLICK_NANOS,
                    None => false,
                };
                if double {
                    return Action::EqualizePanes;
                }
            },
            PaneEvent::DividerHover(divider) => {
                self.desk.workspace.hovered_divider = divider;
            },
            _ => {
                self.desk.workspace.dragging_divider = None;
            },
        }
        Action::Nothing
    }

    #[verifier::spinoff_prover]
    fn area_resized(&mut self, cols: usize, rows: usize) -> (action: Action)
        requires
            old(self).wf(),
        ensures
            final(self).wf(),
            (final(self)@, action) == old(self)@.on_pane(PaneEvent::Resized { cols, rows }),
    {
        if cols == self.cols && rows == self.rows {
            return Action::Nothing;
        }
        self.cols = cols;
        self.rows = rows;
        Action::Do(
            Request::Follow(
                Effects { relayout: true, refresh: true, save: false, shares: Shares::Keep },
            ),
        )
    }

    #[verifier::spinoff_prover]
    fn focus_changed(&mut self, focused: bool) -> (action: Action)
        requires
            old(self).wf(),
        ensures
            final(self).wf(),
            (final(self)@, action) == old(self)@.on_pane(PaneEvent::Focus(focused)),
    {
        self.focused = focused;
        if !focused {
            self.blink_on = true;
        }
        let id: usize = self.desk.workspace.ids[self.desk.workspace.active];
        Action::TellFocus(id, focused)
    }

    /// Takes in an event of the panes.
    pub fn handle_pane(&mut self, event: PaneEvent) -> (action: Action)
        requires
            old(self).wf(),
        ensures
            final(self).wf(),
            (final(self)@, action) == old(self)@.on_pane(event),
    {
        match event {
            PaneEvent::Pointer { pane, press } => self.pointer_over(pane, press),
            PaneEvent::Resized { cols, rows } => self.area_resized(cols, rows),
            PaneEvent::Focus(focused) => self.focus_changed(focused),
            _ => self.divider_used(event),
        }
    }

    /// Takes in that time has passed.
    #[verifier::spinoff_prover]
    pub fn handle_tick(&mut self, event: TickEvent) -> (action: Action)
        requires
            old(self).wf(),
        ensures
            final(self).wf(),
            (final(self)@, action) == old(self)@.on_tick(event),
    {
        match event {
            TickEvent::Blink => {
                self.blink_on = !self.blink_on;
                return Action::Nothing;
            },
            TickEvent::Written { failed } => {
                if failed {
                    self.tell(owned("Terminal input write failed"), ToastKind::Warning);
                }
                return Action::Nothing;
            },
            TickEvent::SearchRefresh => {
                let id: usize = self.desk.workspace.ids[self.desk.workspace.active];
                if self.search_dirty && !super::holds_id(&self.reflow, id) {
                    self.search_dirty = false;
                    return Action::FindAgain { reveal: false };
                } else {
                    return Action::Nothing;
                }
            },
            TickEvent::Settings { changed } => {
                if changed && !self.desk.chrome.config_panel_open {
                    return Action::ReloadSettings;
                } else {
                    return Action::Nothing;
                }
            },
            TickEvent::Sessions => {
                let dirty = self.desk.workspace.session_dirty;
                self.desk.workspace.session_dirty = false;
                if dirty && self.saves_sessions() {
                    return Action::SaveSessions;
                } else {
                    return Action::Nothing;
                }
            },
        }
    }
}

} // verus!
