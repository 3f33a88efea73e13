//! Events of the dock, of the fields that are typed into, and of the dialogs.

use super::{followed, Desk, DeskModel, Request, SidebarPanel};
use crate::chrome::ChromeModel;
use crate::command_palette::{palette_items, PaletteModel};
use crate::commands::palette_step;
use crate::tab_switcher::{SwitcherModel, TabSwitcherState};
use crate::window::Action;
use crate::workspace::{place_of, Effects, Shares, WorkspaceModel};
use vstd::prelude::*;

verus! {

/// Something about the fields of the palette and of the tab switcher.
#[derive(Debug)]
pub enum FieldEvent {
    PaletteInput(String),
    /// An item of the palette is clicked.
    PaletteExecute(usize),
    SwitcherInput(String),
    SwitcherClose,
    /// A session is picked, by its identity.
    SwitcherJump(usize),
}

/// Something about the dock and the dialogs.
#[derive(Debug, Clone, Copy, PartialEq, Eq)]
pub enum DialogEvent {
    ToggleSidebar,
    ShowPanel(SidebarPanel),
    ToggleSettings,
    /// The user wants the tab closed that they were asked about.
    ConfirmYes,
    ConfirmNo,
}

impl DeskModel {
    /// What follows from a change of the tabs or panes.
    pub open spec fn following(self, workspace: WorkspaceModel, effects: Effects) -> (Self, Action) {
        (self.with_workspace(workspace), Action::Do(followed(effects)))
    }

    /// The session at a place shown in the focused pane, where it is not active already.
    pub open spec fn jumped(self, place: Option<int>) -> (Self, Action) {
        let w = self.workspace;
        if place is Some && place != Some(w.active as int) {
            self.following(
                w.shown_in_pane(place->0 as usize),
                Effects { relayout: true, refresh: true, save: false, shares: Shares::Keep },
            )
        } else {
            (self, Action::Nothing)
        }
    }

    /// An action of the palette done, which remembers it.
    #[verifier::opaque]
    pub open spec fn action_done(self, action: crate::command_palette::PaletteAction) -> (
        Self,
        Action,
    ) {
        let (desk, request) = self.with_chrome(
            ChromeModel { palette: self.chrome.palette.used(action), ..self.chrome },
        ).step(palette_step(action));
        (desk, Action::Do(request))
    }

    /// The tab closed that the user was asked about.
    pub open spec fn confirmed(self) -> (Self, Action) {
        match self.chrome.confirm {
            Some(confirm) => self.with_chrome(
                ChromeModel { confirm: None, ..self.chrome },
            ).closed_as_confirmed(confirm),
            None => (self, Action::Nothing),
        }
    }

    pub open spec fn on_field(self, event: FieldEvent) -> (Self, Action) {
        let chrome = self.chrome;
        match event {
            FieldEvent::PaletteInput(query) => (
                self.with_chrome(
                    ChromeModel {
                        palette: PaletteModel { query: query@, selected: 0, ..chrome.palette },
                        ..chrome
                    },
                ),
                Action::Nothing,
            ),
            FieldEvent::PaletteExecute(index) => {
                let closed = self.with_chrome(
                    ChromeModel {
                        palette: PaletteModel { is_open: false, ..chrome.palette },
                        ..chrome
                    },
                );
                if index < palette_items().len() {
                    closed.action_done(palette_items()[index as int].action)
                } else {
                    (closed, Action::Nothing)
                }
            },
            FieldEvent::SwitcherInput(query) => (
                self.with_chrome(
                    ChromeModel {
                        switcher: if chrome.switcher is Some {
                            Some(SwitcherModel { query: query@, selected: 0 })
                        } else {
                            None
                        },
                        ..chrome
                    },
                ),
                Action::Nothing,
            ),
            FieldEvent::SwitcherClose => (
                self.with_chrome(ChromeModel { switcher: None, ..chrome }),
                Action::Nothing,
            ),
            FieldEvent::SwitcherJump(id) => self.with_chrome(
                ChromeModel { switcher: None, ..chrome },
            ).jumped(place_of(self.workspace.ids, id, 0)),
        }
    }

    pub open spec fn on_dialog(self, event: DialogEvent) -> (Self, Action) {
        let chrome = self.chrome;
        match event {
            DialogEvent::ToggleSidebar => (
                DeskModel { sidebar_open: !self.sidebar_open, ..self },
                Action::Do(Request::SidebarToggled { open: !self.sidebar_open }),
            ),
            DialogEvent::ShowPanel(panel) => (
                DeskModel { sidebar_panel: panel, ..self },
                if panel == SidebarPanel::Files {
                    Action::ShowDirectory
                } else {
                    Action::Nothing
                },
            ),
            DialogEvent::ToggleSettings => (
                self.with_chrome(
                    ChromeModel { config_panel_open: !chrome.config_panel_open, ..chrome },
                ),
                Action::Nothing,
            ),
            DialogEvent::ConfirmYes => self.confirmed(),
            DialogEvent::ConfirmNo => (
                self.with_chrome(ChromeModel { confirm: None, ..chrome }),
                Action::Nothing,
            ),
        }
    }
}

fn follow(effects: Effects) -> (action: Action)
    ensures
        action == Action::Do(followed(effects)),
{
    if effects.relayout || effects.refresh || effects.save || effects.shares != Shares::Keep {
        Action::Do(Request::Follow(effects))
    } else {
        Action::Do(Request::Nothing)
    }
}

impl Desk {
    /// Shows the session at a place in the focused pane.
    pub fn jump_to_place(&mut self, place: Option<usize>) -> (action: Action)
        requires
            old(self).wf(),
            place matches Some(i) ==> i < old(self)@.workspace.ids.len(),
        ensures
            final(self).wf(),
            final(self).chrome == old(self).chrome,
            (final(self)@, action) == old(self)@.jumped(
                match place {
                    Some(i) => Some(i as int),
                    None => None,
                },
            ),
    {
        match place {
            Some(i) => {
                if i != self.workspace.active {
                    let effects = self.workspace.show_session_in_focused_pane(i);
                    follow(effects)
                } else {
                    Action::Nothing
                }
            },
            None => Action::Nothing,
        }
    }

    /// Does what an action of the palette does.
    pub fn do_action(&mut self, action: crate::command_palette::PaletteAction) -> (done: Action)
        requires
            old(self).wf(),
        ensures
            final(self).wf(),
            (final(self)@, done) == old(self)@.action_done(action),
            final(self)@.chrome.theme_editor_open == old(self)@.chrome.theme_editor_open,
            final(self)@.chrome.switcher == old(self)@.chrome.switcher
                || final(self)@.chrome.switcher == Some(
                SwitcherModel { query: Seq::empty(), selected: 0 },
            ),
    {
        proof {
            reveal(DeskModel::action_done);
        }
        let request = self.execute_palette_action(action);
        Action::Do(request)
    }

    #[verifier::spinoff_prover]
    fn execute_item(&mut self, index: usize) -> (done: Action)
        requires
            old(self).wf(),
        ensures
            final(self).wf(),
            (final(self)@, done) == old(self)@.on_field(FieldEvent::PaletteExecute(index)),
            final(self)@.chrome.theme_editor_open == old(self)@.chrome.theme_editor_open,
            final(self)@.chrome.switcher == old(self)@.chrome.switcher
                || final(self)@.chrome.switcher == Some(
                SwitcherModel { query: Seq::empty(), selected: 0 },
            ),
    {
        let chosen = self.chrome.palette.action_at(index);
        self.chrome.palette.close();
        match chosen {
            Some(action) => self.do_action(action),
            None => Action::Nothing,
        }
    }

    #[verifier::spinoff_prover]
    fn switcher_changed(&mut self, event: FieldEvent) -> (done: Action)
        requires
            old(self).wf(),
            event is SwitcherInput || event is SwitcherClose || event is SwitcherJump,
        ensures
            final(self).wf(),
            (final(self)@, done) == old(self)@.on_field(event),
    {
        match event {
            FieldEvent::SwitcherInput(query) => {
                if self.chrome.tab_switcher.is_some() {
                    let mut state = TabSwitcherState::default();
                    state.set_query(query);
                    self.chrome.tab_switcher = Some(state);
                }
                return Action::Nothing;
            },
            FieldEvent::SwitcherJump(id) => {
                self.chrome.tab_switcher = None;
                let place = self.workspace.position(id);
                return self.jump_to_place(place);
            },
            _ => {
                self.chrome.tab_switcher = None;
                return Action::Nothing;
            },
        }
    }

    /// Takes in an event of the fields.
    pub fn handle_field(&mut self, event: FieldEvent) -> (done: Action)
        requires
            old(self).wf(),
        ensures
            final(self).wf(),
            (final(self)@, done) == old(self)@.on_field(event),
            final(self)@.chrome.theme_editor_open == old(self)@.chrome.theme_editor_open,
            final(self)@.chrome.switcher matches Some(s) ==> old(self)@.chrome.switcher == Some(s)
                || s.selected == 0,
    {
        match event {
            FieldEvent::PaletteInput(query) => {
                self.chrome.palette.query = query;
                self.chrome.palette.selected = 0;
                return Action::Nothing;
            },
            FieldEvent::PaletteExecute(index) => {
                return self.execute_item(index);
            },
            _ => {
                return self.switcher_changed(event);
            },
        }
    }

    #[verifier::spinoff_prover]
    fn close_was_confirmed(&mut self) -> (done: Action)
        requires
            old(self).wf(),
        ensures
            final(self).wf(),
            (final(self)@, done) == old(self)@.confirmed(),
    {
        match self.chrome.tab_close_confirm.take() {
            Some(confirm) => self.close_as_confirmed(confirm),
            None => Action::Nothing,
        }
    }

    /// Takes in an event of the dock and the dialogs.
    #[verifier::spinoff_prover]
    pub fn handle_dialog(&mut self, event: DialogEvent) -> (done: Action)
        requires
            old(self).wf(),
        ensures
            final(self).wf(),
            (final(self)@, done) == old(self)@.on_dialog(event),
            final(self)@.chrome.theme_editor_open == old(self)@.chrome.theme_editor_open,
            final(self)@.chrome.switcher == old(self)@.chrome.switcher,
    {
        match event {
            DialogEvent::ToggleSidebar => {
                self.sidebar_open = !self.sidebar_open;
                return Action::Do(Request::SidebarToggled { open: self.sidebar_open });
            },
            DialogEvent::ShowPanel(panel) => {
                self.sidebar_panel = panel;
                if panel == SidebarPanel::Files {
                    return Action::ShowDirectory;
                }
                return Action::Nothing;
            },
            DialogEvent::ToggleSettings => {
                self.chrome.config_panel_open = !self.chrome.config_panel_open;
                return Action::Nothing;
            },
            DialogEvent::ConfirmYes => {
                return self.close_was_confirmed();
            },
            DialogEvent::ConfirmNo => {
                self.chrome.tab_close_confirm = None;
                return Action::Nothing;
            },
        }
    }
}

} // verus!
