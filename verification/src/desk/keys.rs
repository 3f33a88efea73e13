//! Key presses: who gets them, and what shortcuts do.

use super::{Desk, DeskModel, Request};
use crate::chrome::{places_in, ChromeModel, Field, KeyOutcome};
use crate::commands::{command_step, dispatch_command, Command};
use crate::keyboard::{
    chrome_shortcut, chrome_shortcut_of, opt_chars, ChromeShortcut, Key, Modifiers,
};
use crate::tabs::CloseConfirm;
use crate::window::Action;
use crate::workspace::{place_of, WorkspaceModel};
use vstd::prelude::*;

verus! {

impl ChromeModel {
    /// The field that is typed into once a shortcut of the window is done.
    pub open spec fn field_opened(self, shortcut: ChromeShortcut) -> Option<Field> {
        if shortcut == ChromeShortcut::CommandPalette && !self.palette.is_open {
            Some(Field::Palette)
        } else if shortcut == ChromeShortcut::TabSwitcher && self.switcher is None {
            Some(Field::TabSwitcher)
        } else {
            None
        }
    }
}

impl DeskModel {
    /// A tab closed as the user confirmed. Nothing happens where it is gone.
    pub open spec fn closed_as_confirmed(self, confirm: CloseConfirm) -> (Self, Action) {
        let w = self.workspace;
        match place_of(w.ids, confirm.id, 0) {
            Some(place) => {
                let index = place as usize;
                (
                    self.with_workspace(w.closed(index).activated(confirm.activate_after)),
                    Action::Closed(
                        w.closing(index),
                        w.closed_effects(index).followed_by(
                            w.closed(index).activated_effects(confirm.activate_after),
                        ),
                    ),
                )
            },
            None => (self, Action::Nothing),
        }
    }

    /// What a key does that nothing keeps from the terminal: what its binding says, then
    /// what the window does with it; otherwise the program gets it.
    pub open spec fn passed(self, key: Key, mods: Modifiers, command: Option<Command>) -> (
        Self,
        Action,
    ) {
        let w = self.workspace;
        let step = match command {
            Some(command) => command_step(command, self.chrome.search_open, w.ids.len() as int),
            None => None,
        };
        match step {
            Some(step) => (self.step(step).0, Action::Do(self.step(step).1)),
            None => match chrome_shortcut_of(key, mods) {
                Some(shortcut) => (
                    self.with_chrome(self.chrome.toggled(shortcut)),
                    match self.chrome.field_opened(shortcut) {
                        Some(field) => Action::Do(Request::Focus(field)),
                        None => Action::Nothing,
                    },
                ),
                None => (self, Action::Type(w.ids[w.active as int])),
            },
        }
    }

    /// What comes of a key press, once it is known who gets it.
    pub open spec fn on_outcome(
        self,
        outcome: KeyOutcome,
        key: Key,
        mods: Modifiers,
        command: Option<Command>,
    ) -> (Self, Action) {
        match outcome {
            KeyOutcome::Swallowed => (self, Action::Nothing),
            KeyOutcome::CloseTabMenu => (
                self.with_workspace(WorkspaceModel { tab_menu: None, ..self.workspace }),
                Action::Nothing,
            ),
            KeyOutcome::ConfirmClose(confirm) => self.closed_as_confirmed(confirm),
            KeyOutcome::Pick(place) => match place {
                Some(i) => if i < self.workspace.ids.len() {
                    self.jumped(Some(i as int))
                } else {
                    (self, Action::Nothing)
                },
                None => (self, Action::Nothing),
            },
            KeyOutcome::Palette(action) => self.action_done(action),
            KeyOutcome::Search(k) => (self, Action::Search(k)),
            KeyOutcome::Pass => self.passed(key, mods, command),
        }
    }

    /// What a key press changes, and what is then to be done.
    pub open spec fn on_key(
        self,
        key: Key,
        mods: Modifiers,
        text: Option<Seq<char>>,
        command: Option<Command>,
        listed: Seq<usize>,
    ) -> (Self, Action) {
        let (chrome, outcome) = self.chrome.key(
            self.workspace.tab_menu is Some,
            key,
            mods,
            text,
            listed,
        );
        self.with_chrome(chrome).on_outcome(outcome, key, mods, command)
    }

    /// What lies over the terminals stays in order.
    pub open spec fn chrome_in_order(self, before: ChromeModel) -> bool {
        &&& self.chrome.theme_editor_open ==> before.theme_editor_open
        &&& self.chrome.switcher matches Some(s) ==> s.selected < usize::MAX
    }
}

impl Desk {
    #[verifier::spinoff_prover]
    pub(crate) fn close_as_confirmed(&mut self, confirm: CloseConfirm) -> (done: Action)
        requires
            old(self).wf(),
        ensures
            final(self).wf(),
            final(self).chrome == old(self).chrome,
            (final(self)@, done) == old(self)@.closed_as_confirmed(confirm),
    {
        match self.workspace.position(confirm.id) {
            Some(index) => {
                let (closing, effects) = self.workspace.close_session_then(
                    index,
                    confirm.activate_after,
                );
                Action::Closed(closing, effects)
            },
            None => Action::Nothing,
        }
    }

    #[verifier::spinoff_prover]
    fn use_shortcut(&mut self, shortcut: ChromeShortcut) -> (done: Action)
        requires
            old(self).wf(),
            old(self)@.chrome.switcher matches Some(s) ==> s.selected < usize::MAX,
        ensures
            final(self).wf(),
            final(self)@ == old(self)@.with_chrome(old(self)@.chrome.toggled(shortcut)),
            done == (match old(self)@.chrome.field_opened(shortcut) {
                Some(field) => Action::Do(Request::Focus(field)),
                None => Action::Nothing,
            }),
            final(self)@.chrome_in_order(old(self)@.chrome),
    {
        match self.chrome.toggle(shortcut) {
            Some(field) => Action::Do(Request::Focus(field)),
            None => Action::Nothing,
        }
    }

    #[verifier::spinoff_prover]
    fn pass_key(&mut self, key: &Key, mods: Modifiers, command: Option<Command>) -> (done: Action)
        requires
            old(self).wf(),
            old(self)@.chrome.switcher matches Some(s) ==> s.selected < usize::MAX,
        ensures
            final(self).wf(),
            (final(self)@, done) == old(self)@.passed(*key, mods, command),
            final(self)@.chrome_in_order(old(self)@.chrome),
    {
        if let Some(command) = command {
            let count: usize = self.workspace.ids.len();
            if let Some(step) = dispatch_command(command, self.chrome.search_open, count) {
                let request = self.perform(step);
                return Action::Do(request);
            }
        }
        if let Some(shortcut) = chrome_shortcut(key, mods) {
            return self.use_shortcut(shortcut);
        }
        Action::Type(self.workspace.ids[self.workspace.active])
    }

    #[verifier::spinoff_prover]
    fn follow_outcome(
        &mut self,
        outcome: KeyOutcome,
        key: &Key,
        mods: Modifiers,
        command: Option<Command>,
    ) -> (done: Action)
        requires
            old(self).wf(),
            old(self)@.chrome.switcher matches Some(s) ==> s.selected < usize::MAX,
        ensures
            final(self).wf(),
            (final(self)@, done) == old(self)@.on_outcome(outcome, *key, mods, command),
            final(self)@.chrome_in_order(old(self)@.chrome),
    {
        match outcome {
            KeyOutcome::Swallowed => {
                return Action::Nothing;
            },
            KeyOutcome::CloseTabMenu => {
                self.workspace.tab_menu = None;
                return Action::Nothing;
            },
            KeyOutcome::ConfirmClose(confirm) => {
                return self.close_as_confirmed(confirm);
            },
            KeyOutcome::Pick(place) => {
                if let Some(i) = place {
                    if i < self.workspace.ids.len() {
                        return self.jump_to_place(Some(i));
                    }
                }
                return Action::Nothing;
            },
            KeyOutcome::Palette(action) => {
                return self.do_action(action);
            },
            KeyOutcome::Search(k) => {
                return Action::Search(k);
            },
            KeyOutcome::Pass => {
                return self.pass_key(key, mods, command);
            },
        }
    }

    /// Takes in a key press. `command` is what the key is bound to, `listed` the tabs in
    /// the list of the tab switcher.
    pub fn handle_key(
        &mut self,
        key: &Key,
        mods: Modifiers,
        text: Option<&str>,
        command: Option<Command>,
        listed: &Vec<(usize, usize)>,
    ) -> (done: Action)
        requires
            old(self).wf(),
            old(self)@.chrome.switcher matches Some(s) ==> s.selected < usize::MAX,
        ensures
            final(self).wf(),
            (final(self)@, done) == old(self)@.on_key(
                *key,
                mods,
                opt_chars(text),
                command,
                places_in(listed@),
            ),
            final(self)@.chrome_in_order(old(self)@.chrome),
    {
        let menu = self.workspace.tab_menu.is_some();
        let outcome = self.chrome.route_key(menu, key, mods, text, listed);
        self.follow_outcome(outcome, key, mods, command)
    }
}

} // verus!
