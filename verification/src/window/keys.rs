//! Key presses, the menu of a tab, and all events in one.

use super::events::{PaneEvent, TabEvent, TickEvent};
use super::settings::Setting;
use super::{copy_ids, lemma_none_closed, running, running_text, Action, Window, WindowModel};
use crate::chrome::{keys_pass_only_to_an_uncovered_terminal, places_in};
use crate::commands::Command;
use crate::desk::DeskModel;
use crate::desk::fields::{DialogEvent, FieldEvent};
use crate::keyboard::{opt_chars, Key, Modifiers};
use crate::tabs::{close_each, close_log, first_busy, lemma_busy, places_down, BatchClose};
use crate::text::owned;
use crate::toasts::ToastKind;
use crate::workspace::{place_of, Closing, Effects, WorkspaceModel};
use vstd::prelude::*;

verus! {

/// An event of the window.
#[derive(Debug)]
pub enum Event {
    Tab(TabEvent),
    Pane(PaneEvent),
    Field(FieldEvent),
    Dialog(DialogEvent),
    Tick(TickEvent),
    Setting(Setting),
    /// The edge of the dock is taken or let go.
    SidebarDrag(bool),
    ToastDismiss(usize),
    /// There was no room for what was pasted.
    PasteRejected,
}

/// What the menu of a tab offers. The tab is named by the identity of its session.
#[derive(Debug, Clone, Copy, PartialEq, Eq)]
pub enum TabMenuAction {
    Close(usize),
    CloseOthers(usize),
    CloseToRight(usize),
    Duplicate(usize),
}

/// What comes of it.
#[derive(Debug)]
pub enum MenuOutcome {
    Nothing,
    Act(Action),
    /// A program runs in one of the tabs: it is shown, and nothing closed.
    Shown(Effects),
    /// Tabs are closed, one after another.
    Closed(Vec<(Closing, Effects)>),
    /// A session is to be started like the one at this place; see
    /// [`Window::session_duplicated`].
    Duplicate(usize),
}

impl WindowModel {
    /// What a key press changes. The editor of themes goes with its panel.
    pub open spec fn on_key(
        self,
        key: Key,
        mods: Modifiers,
        text: Option<Seq<char>>,
        command: Option<Command>,
        listed: Seq<usize>,
    ) -> (Self, Action) {
        let (desk, action) = self.desk.on_key(key, mods, text, command, listed);
        (
            WindowModel {
                editor: if desk.chrome.theme_editor_open {
                    self.editor
                } else {
                    None
                },
                ..self.closing_to_desk(desk)
            },
            action,
        )
    }

    /// What an event changes, and what is then to be done.
    pub open spec fn after(self, event: Event) -> (Self, Action) {
        match event {
            Event::Tab(event) => self.on_tab(event),
            Event::Pane(event) => self.on_pane(event),
            Event::Field(event) => (
                self.with_desk(self.desk.on_field(event).0),
                self.desk.on_field(event).1,
            ),
            Event::Dialog(event) => (
                self.closing_to_desk(self.desk.on_dialog(event).0),
                self.desk.on_dialog(event).1,
            ),
            Event::Tick(event) => self.on_tick(event),
            Event::Setting(setting) => self.setting_changed(setting),
            Event::SidebarDrag(dragging) => (
                WindowModel { dragging_sidebar: dragging, ..self },
                Action::Nothing,
            ),
            Event::ToastDismiss(index) => (
                WindowModel {
                    toasts: if index < self.toasts.len() {
                        self.toasts.remove(index as int)
                    } else {
                        self.toasts
                    },
                    ..self
                },
                Action::Nothing,
            ),
            Event::PasteRejected => (
                self.told(
                    "Paste rejected: terminal input queue is full"@,
                    ToastKind::Warning,
                ),
                Action::Nothing,
            ),
        }
    }

    /// A tab in which a program runs is shown, and the user is told why.
    pub open spec fn busy_shown(self, index: int, process: Seq<char>, advice: Seq<char>) -> Self {
        self.with_workspace(self.desk.workspace.shown(index as usize)).told(
            running_text(process, advice),
            ToastKind::Warning,
        )
    }

    /// What follows from that.
    pub open spec fn busy_effects(self) -> Effects {
        Effects { refresh: true, ..self.desk.workspace.unsplit_effects() }
    }

    /// Several tabs closed, from the last on: those from `from` on but for one.
    pub open spec fn several_closed(
        self,
        busy: Seq<Option<String>>,
        from: int,
        keep: int,
        done: Seq<char>,
    ) -> Self {
        let w = self.desk.workspace;
        match first_busy(busy, from, keep) {
            Some(index) => self.busy_shown(
                index,
                busy[index]->0@,
                "close that tab explicitly"@,
            ),
            None => self.closing_to(
                close_each(w, places_down(w.ids.len() as int, from, keep)),
            ).told(done, ToastKind::Info),
        }
    }

    /// What is to be done about that.
    pub open spec fn closes_several(
        self,
        busy: Seq<Option<String>>,
        from: int,
        keep: int,
        outcome: MenuOutcome,
    ) -> bool {
        let w = self.desk.workspace;
        match first_busy(busy, from, keep) {
            Some(index) => outcome == MenuOutcome::Shown(self.busy_effects()),
            None => outcome is Closed && outcome->Closed_0@ == close_log(
                w,
                places_down(w.ids.len() as int, from, keep),
            ),
        }
    }
}

fn name_of(busy: &Vec<Option<String>>, index: usize) -> (name: String)
    requires
        index < busy@.len(),
        busy@[index as int] is Some,
    ensures
        name@ == busy@[index as int]->0@,
{
    match &busy[index] {
        Some(name) => owned(name.as_str()),
        None => String::new(),
    }
}

impl Window {
    /// Takes in a key press. `command` is what the key is bound to, `listed` the tabs in
    /// the list of the tab switcher.
    #[verifier::spinoff_prover]
    pub fn press(
        &mut self,
        key: &Key,
        mods: Modifiers,
        text: Option<&str>,
        command: Option<Command>,
        listed: &Vec<(usize, usize)>,
    ) -> (action: Action)
        requires
            old(self).wf(),
        ensures
            final(self).wf(),
            (final(self)@, action) == old(self)@.on_key(
                *key,
                mods,
                opt_chars(text),
                command,
                places_in(listed@),
            ),
    {
        let before = copy_ids(&self.desk.workspace.ids);
        let action = self.desk.handle_key(key, mods, text, command, listed);
        self.forget_closed(&before);
        if !self.desk.chrome.theme_editor_open {
            self.theme_editor = None;
        }
        action
    }

    #[verifier::spinoff_prover]
    fn field_event(&mut self, event: FieldEvent) -> (action: Action)
        requires
            old(self).wf(),
        ensures
            final(self).wf(),
            (final(self)@, action) == old(self)@.after(Event::Field(event)),
    {
        self.desk.handle_field(event)
    }

    #[verifier::spinoff_prover]
    fn dialog_event(&mut self, event: DialogEvent) -> (action: Action)
        requires
            old(self).wf(),
        ensures
            final(self).wf(),
            (final(self)@, action) == old(self)@.after(Event::Dialog(event)),
    {
        let before = copy_ids(&self.desk.workspace.ids);
        let action = self.desk.handle_dialog(event);
        self.forget_closed(&before);
        action
    }

    #[verifier::spinoff_prover]
    fn small_event(&mut self, event: Event) -> (action: Action)
        requires
            old(self).wf(),
            event is SidebarDrag || event is ToastDismiss || event is PasteRejected,
        ensures
            final(self).wf(),
            (final(self)@, action) == old(self)@.after(event),
    {
        match event {
            Event::SidebarDrag(dragging) => {
                self.dragging_sidebar = dragging;
                return Action::Nothing;
            },
            Event::ToastDismiss(index) => {
                self.toasts.dismiss(index);
                return Action::Nothing;
            },
            _ => {
                self.tell(
                    owned("Paste rejected: terminal input queue is full"),
                    ToastKind::Warning,
                );
                return Action::Nothing;
            },
        }
    }

    /// Takes in an event, and says what is then to be done.
    pub fn update(&mut self, event: Event) -> (action: Action)
        requires
            old(self).wf(),
        ensures
            final(self).wf(),
            (final(self)@, action) == old(self)@.after(event),
    {
        match event {
            Event::Tab(event) => self.handle_tab(event),
            Event::Pane(event) => self.handle_pane(event),
            Event::Field(event) => self.field_event(event),
            Event::Dialog(event) => self.dialog_event(event),
            Event::Tick(event) => self.handle_tick(event),
            Event::Setting(setting) => self.change_setting(setting),
            _ => self.small_event(event),
        }
    }

    #[verifier::spinoff_prover]
    fn tell_running(&mut self, process: String, advice: &str)
        requires
            old(self).wf(),
        ensures
            final(self).wf(),
            final(self)@ == old(self)@.told(
                running_text(process@, advice@),
                ToastKind::Warning,
            ),
    {
        let text = running(process.as_str(), advice);
        self.tell(text, ToastKind::Warning);
    }

    /// Closes the window, unless a program runs in one of the tabs: it is shown then.
    #[verifier::spinoff_prover]
    pub fn request_window_close(&mut self, busy: &Vec<Option<String>>) -> (kept: Option<Effects>)
        requires
            old(self).wf(),
            busy@.len() == old(self)@.desk.workspace.ids.len(),
        ensures
            final(self).wf(),
            match first_busy(busy@, 0, -1) {
                Some(index) => {
                    &&& final(self)@ == old(self)@.busy_shown(
                        index,
                        busy@[index]->0@,
                        "close its tab first"@,
                    )
                    &&& kept == Some(old(self)@.busy_effects())
                },
                None => {
                    &&& final(self)@ == old(self)@.with_workspace(
                        WorkspaceModel { dirty: false, ..old(self)@.desk.workspace },
                    )
                    &&& kept is None
                },
            },
    {
        let count: usize = busy.len();
        proof {
            lemma_busy(busy@, 0, -1);
            assert(count == busy@.len());
        }
        match self.desk.workspace.request_window_close(busy) {
            Some((index, effects)) => {
                let name = name_of(busy, index);
                self.tell_running(name, "close its tab first");
                Some(effects)
            },
            None => None,
        }
    }

    #[verifier::spinoff_prover]
    fn after_batch(
        &mut self,
        batch: BatchClose,
        busy: &Vec<Option<String>>,
        done: &str,
    ) -> (outcome: MenuOutcome)
        requires
            old(self).wf(),
            batch matches BatchClose::Busy(index, _) ==> index < busy@.len()
                && busy@[index as int] is Some,
        ensures
            final(self).wf(),
            match batch {
                BatchClose::Unknown => final(self)@ == old(self)@ && outcome is Nothing,
                BatchClose::Busy(index, effects) => {
                    &&& final(self)@ == old(self)@.told(
                        running_text(busy@[index as int]->0@, "close that tab explicitly"@),
                        ToastKind::Warning,
                    )
                    &&& outcome == MenuOutcome::Shown(effects)
                },
                BatchClose::Closed(log) => {
                    &&& final(self)@ == old(self)@.told(done@, ToastKind::Info)
                    &&& outcome == MenuOutcome::Closed(log)
                },
            },
    {
        match batch {
            BatchClose::Unknown => MenuOutcome::Nothing,
            BatchClose::Busy(index, effects) => {
                let name = name_of(busy, index);
                self.tell_running(name, "close that tab explicitly");
                MenuOutcome::Shown(effects)
            },
            BatchClose::Closed(log) => {
                self.tell(owned(done), ToastKind::Info);
                MenuOutcome::Closed(log)
            },
        }
    }

    #[verifier::spinoff_prover]
    fn close_menu(&mut self)
        requires
            old(self).wf(),
        ensures
            final(self).wf(),
            final(self)@ == old(self)@.with_workspace(
                WorkspaceModel { tab_menu: None, ..old(self)@.desk.workspace },
            ),
    {
        self.desk.workspace.tab_menu = None;
    }

    #[verifier::spinoff_prover]
    fn close_chosen(&mut self, id: usize, named: Option<String>) -> (outcome: MenuOutcome)
        requires
            old(self).wf(),
        ensures
            final(self).wf(),
            match place_of(old(self)@.desk.workspace.ids, id, 0) {
                None => final(self)@ == old(self)@ && outcome is Nothing,
                Some(place) => {
                    &&& outcome is Act
                    &&& (final(self)@, outcome->Act_0) == old(self)@.close_asked(
                        place as usize,
                        None,
                        named,
                    )
                },
            },
    {
        match self.desk.workspace.position(id) {
            Some(place) => MenuOutcome::Act(self.request_close(place, None, named)),
            None => MenuOutcome::Nothing,
        }
    }

    #[verifier::spinoff_prover]
    fn close_others(&mut self, id: usize, busy: &Vec<Option<String>>) -> (outcome: MenuOutcome)
        requires
            old(self).wf(),
            busy@.len() == old(self)@.desk.workspace.ids.len(),
        ensures
            final(self).wf(),
            match place_of(old(self)@.desk.workspace.ids, id, 0) {
                None => final(self)@ == old(self)@ && outcome is Nothing,
                Some(keep) => {
                    &&& final(self)@ == old(self)@.several_closed(
                        busy@,
                        0,
                        keep,
                        "Closed other tabs"@,
                    )
                    &&& old(self)@.closes_several(busy@, 0, keep, outcome)
                },
            },
    {
        let count: usize = busy.len();
        let ghost ids = self@.desk.workspace.ids;
        proof {
            assert(count == busy@.len());
            if let Some(keep) = place_of(ids, id, 0) {
                lemma_busy(busy@, 0, keep);
            }
        }
        let before = copy_ids(&self.desk.workspace.ids);
        let batch = self.desk.workspace.close_others(id, busy);
        self.forget_closed(&before);
        proof {
            lemma_none_closed(old(self)@.reflow, before@);
        }
        self.after_batch(batch, busy, "Closed other tabs")
    }

    #[verifier::spinoff_prover]
    fn close_to_right(&mut self, id: usize, busy: &Vec<Option<String>>) -> (outcome: MenuOutcome)
        requires
            old(self).wf(),
            busy@.len() == old(self)@.desk.workspace.ids.len(),
        ensures
            final(self).wf(),
            match place_of(old(self)@.desk.workspace.ids, id, 0) {
                None => final(self)@ == old(self)@ && outcome is Nothing,
                Some(anchor) => {
                    &&& final(self)@ == old(self)@.several_closed(
                        busy@,
                        anchor + 1,
                        -1,
                        "Closed tabs to the right"@,
                    )
                    &&& old(self)@.closes_several(busy@, anchor + 1, -1, outcome)
                },
            },
    {
        let count: usize = busy.len();
        let place = self.desk.workspace.position(id);
        proof {
            assert(count == busy@.len());
            if let Some(anchor) = place {
                lemma_busy(busy@, anchor + 1, -1);
            }
        }
        let before = copy_ids(&self.desk.workspace.ids);
        let batch = self.desk.workspace.close_to_right(id, busy);
        self.forget_closed(&before);
        proof {
            lemma_none_closed(old(self)@.reflow, before@);
        }
        self.after_batch(batch, busy, "Closed tabs to the right")
    }

    /// Does what the menu of a tab offers. `named` is the program that runs in that tab,
    /// `busy` are those in all tabs.
    #[verifier::spinoff_prover]
    pub fn execute_tab_menu_action(
        &mut self,
        action: TabMenuAction,
        named: Option<String>,
        busy: &Vec<Option<String>>,
    ) -> (outcome: MenuOutcome)
        requires
            old(self).wf(),
            busy@.len() == old(self)@.desk.workspace.ids.len(),
        ensures
            final(self).wf(),
            ({
                let m = old(self)@.with_workspace(
                    WorkspaceModel { tab_menu: None, ..old(self)@.desk.workspace },
                );
                let ids = m.desk.workspace.ids;
                match action {
                    TabMenuAction::Close(id) => match place_of(ids, id, 0) {
                        None => final(self)@ == m && outcome is Nothing,
                        Some(place) => {
                            &&& outcome is Act
                            &&& (final(self)@, outcome->Act_0) == m.close_asked(
                                place as usize,
                                None,
                                named,
                            )
                        },
                    },
                    TabMenuAction::CloseOthers(id) => match place_of(ids, id, 0) {
                        None => final(self)@ == m && outcome is Nothing,
                        Some(keep) => {
                            &&& final(self)@ == m.several_closed(
                                busy@,
                                0,
                                keep,
                                "Closed other tabs"@,
                            )
                            &&& m.closes_several(busy@, 0, keep, outcome)
                        },
                    },
                    TabMenuAction::CloseToRight(id) => match place_of(ids, id, 0) {
                        None => final(self)@ == m && outcome is Nothing,
                        Some(anchor) => {
                            &&& final(self)@ == m.several_closed(
                                busy@,
                                anchor + 1,
                                -1,
                                "Closed tabs to the right"@,
                            )
                            &&& m.closes_several(busy@, anchor + 1, -1, outcome)
                        },
                    },
                    TabMenuAction::Duplicate(id) => {
                        &&& final(self)@ == m
                        &&& match place_of(ids, id, 0) {
                            None => outcome is Nothing,
                            Some(place) => outcome == MenuOutcome::Duplicate(place as usize),
                        }
                    },
                }
            }),
    {
        self.close_menu();
        match action {
            TabMenuAction::Close(id) => {
                return self.close_chosen(id, named);
            },
            TabMenuAction::CloseOthers(id) => {
                return self.close_others(id, busy);
            },
            TabMenuAction::CloseToRight(id) => {
                return self.close_to_right(id, busy);
            },
            TabMenuAction::Duplicate(id) => {
                return match self.desk.workspace.position(id) {
                    Some(place) => MenuOutcome::Duplicate(place),
                    None => MenuOutcome::Nothing,
                };
            },
        }
    }

    /// A session was started like the one at a place: it gets the tab behind it.
    #[verifier::spinoff_prover]
    pub fn session_duplicated(&mut self, of: usize) -> (effects: Effects)
        requires
            old(self).wf(),
            old(self)@.desk.workspace.next_id < usize::MAX,
            of < old(self)@.desk.workspace.ids.len(),
        ensures
            final(self).wf(),
            final(self)@ == old(self)@.with_workspace(
                old(self)@.desk.workspace.added((of + 1) as usize),
            ).told("Duplicated tab"@, ToastKind::Success),
            effects == (Effects {
                refresh: true,
                save: true,
                ..old(self)@.desk.workspace.unsplit_effects()
            }),
    {
        let effects = self.desk.workspace.session_duplicated(of);
        self.tell(owned("Duplicated tab"), ToastKind::Success);
        effects
    }
}

/// Only a terminal over which nothing lies gets what is typed.
pub proof fn only_an_uncovered_terminal_is_typed_into(
    window: WindowModel,
    key: Key,
    mods: Modifiers,
    text: Option<Seq<char>>,
    command: Option<Command>,
    listed: Seq<usize>,
)
    ensures
        window.on_key(key, mods, text, command, listed).1 is Type
            ==> window.desk.chrome.input_active(window.desk.workspace.tab_menu is Some),
{
    reveal(DeskModel::action_done);
    keys_pass_only_to_an_uncovered_terminal(
        window.desk.chrome,
        window.desk.workspace.tab_menu is Some,
        key,
        mods,
        text,
        listed,
    );
}

} // verus!
