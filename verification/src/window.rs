//! The window as a whole: what each event changes, and what is then to be done outside.

pub mod events;
pub mod keys;
pub mod laws;
pub mod settings;

use crate::chrome::ChromeModel;
use crate::chrome::SearchKey;
use crate::config::{Config, ConfigModel, TabPosition};
use crate::desk::{Desk, DeskModel, Request, SidebarPanel};
use crate::tabs::CloseConfirm;
use crate::text::{append_text, owned, texts};
use crate::toasts::{newest, ToastKind, Toasts};
use crate::workspace::{Closing, Effects, Workspace, WorkspaceModel};
use vstd::prelude::*;

verus! {

/// A theme that the user is editing.
#[derive(Debug)]
pub struct ThemeEdit {
    pub name: String,
    /// The colours, as they were typed.
    pub hexes: Vec<String>,
    pub error: Option<String>,
}

/// A theme that the user is editing.
pub struct ThemeEditModel {
    pub name: Seq<char>,
    pub hexes: Seq<Seq<char>>,
    pub error: Option<Seq<char>>,
}

impl View for ThemeEdit {
    type V = ThemeEditModel;

    open spec fn view(&self) -> ThemeEditModel {
        ThemeEditModel {
            name: self.name@,
            hexes: texts(self.hexes@),
            error: crate::config::opt_text(self.error),
        }
    }
}

/// The window.
#[derive(Debug)]
pub struct Window {
    pub desk: Desk,
    pub config: Config,
    /// Whether settings changed since they were written.
    pub config_dirty: bool,
    pub toasts: Toasts,
    pub focused: bool,
    /// Whether the cursor is in the visible half of its blinking.
    pub blink_on: bool,
    /// The size of the terminal area in cells.
    pub cols: usize,
    pub rows: usize,
    pub dragging_sidebar: bool,
    /// Whether the matches of the search may be out of date.
    pub search_dirty: bool,
    /// The sessions whose width changed a moment ago, by identity.
    pub reflow: Vec<usize>,
    /// Whether no other window keeps the sessions.
    pub first_instance: bool,
    pub theme_editor: Option<ThemeEdit>,
}

/// The window.
pub struct WindowModel {
    pub desk: DeskModel,
    pub config: ConfigModel,
    pub config_dirty: bool,
    pub toasts: Seq<(Seq<char>, ToastKind)>,
    pub focused: bool,
    pub blink_on: bool,
    pub cols: usize,
    pub rows: usize,
    pub dragging_sidebar: bool,
    pub search_dirty: bool,
    pub reflow: Seq<usize>,
    pub first_instance: bool,
    pub editor: Option<ThemeEditModel>,
}

pub open spec fn editor_view(editor: Option<ThemeEdit>) -> Option<ThemeEditModel> {
    match editor {
        Some(editor) => Some(editor@),
        None => None,
    }
}

impl View for Window {
    type V = WindowModel;

    open spec fn view(&self) -> WindowModel {
        WindowModel {
            desk: self.desk@,
            config: self.config@,
            config_dirty: self.config_dirty,
            toasts: self.toasts.texts(),
            focused: self.focused,
            blink_on: self.blink_on,
            cols: self.cols,
            rows: self.rows,
            dragging_sidebar: self.dragging_sidebar,
            search_dirty: self.search_dirty,
            reflow: self.reflow@,
            first_instance: self.first_instance,
            editor: editor_view(self.theme_editor),
        }
    }
}

/// What is to be done outside after an event.
#[derive(Debug, Clone, Copy, PartialEq, Eq, Structural)]
pub enum Action {
    Nothing,
    /// What a step asks for.
    Do(Request),
    /// What follows from closing a tab.
    Closed(Closing, Effects),
    /// A key goes to the session of an identity.
    Type(usize),
    /// A key goes to the search.
    Search(SearchKey),
    /// What the pointer does goes to the session of an identity; what is kept of the
    /// active session is renewed first where `refresh` says so.
    Point { id: usize, refresh: bool },
    /// The session of an identity is told of the focus.
    TellFocus(usize, bool),
    /// The settings take effect.
    Apply,
    /// The settings are written.
    SaveSettings,
    /// The theme that is edited is written.
    SaveTheme,
    /// All panes get the same share.
    EqualizePanes,
    /// The matches of the search are found again, and one shown where `reveal` says so.
    FindAgain { reveal: bool },
    /// The dock shows the directory of the active session.
    ShowDirectory,
    /// The settings are read again.
    ReloadSettings,
    /// The sessions are saved.
    SaveSessions,
}

impl WindowModel {
    /// The window keeps its parts in order. The editor of themes is shown where there is
    /// one.
    pub open spec fn wf(self) -> bool {
        &&& self.desk.workspace.wf()
        &&& self.desk.chrome.theme_editor_open == (self.editor is Some)
        &&& self.desk.chrome.switcher matches Some(s) ==> s.selected < usize::MAX
    }

    pub open spec fn with_desk(self, desk: DeskModel) -> Self {
        WindowModel { desk, ..self }
    }

    pub open spec fn with_workspace(self, workspace: WorkspaceModel) -> Self {
        self.with_desk(self.desk.with_workspace(workspace))
    }

    /// Tabs closed: of the sessions that are gone, no history is laid out anew.
    pub open spec fn closing_to_desk(self, desk: DeskModel) -> Self {
        WindowModel {
            desk,
            reflow: without_closed(
                self.reflow,
                self.desk.workspace.ids,
                desk.workspace.ids,
            ),
            ..self
        }
    }

    pub open spec fn closing_to(self, workspace: WorkspaceModel) -> Self {
        self.closing_to_desk(self.desk.with_workspace(workspace))
    }

    pub open spec fn with_chrome(self, chrome: ChromeModel) -> Self {
        self.with_desk(self.desk.with_chrome(chrome))
    }

    pub open spec fn with_editor(self, editor: Option<ThemeEditModel>) -> Self {
        WindowModel { editor, ..self }.with_chrome(
            ChromeModel { theme_editor_open: editor is Some, ..self.desk.chrome },
        )
    }

    /// The user is told something.
    pub open spec fn told(self, text: Seq<char>, kind: ToastKind) -> Self {
        WindowModel { toasts: newest(self.toasts.push((text, kind))), ..self }
    }

    /// The identity of the active session.
    pub open spec fn active_id(self) -> usize {
        self.desk.workspace.ids[self.desk.workspace.active as int]
    }

    /// The dock as the place of the tabs wants it.
    pub open spec fn docked(self, position: TabPosition) -> Self {
        self.with_desk(
            DeskModel {
                sidebar_open: position == TabPosition::Side,
                sidebar_panel: if position == TabPosition::Side {
                    SidebarPanel::Tabs
                } else {
                    SidebarPanel::Files
                },
                ..self.desk
            },
        )
    }

    /// The tab at a place closed, unless a program runs in it: the user is asked then.
    pub open spec fn close_asked(
        self,
        index: usize,
        activate_after: Option<usize>,
        busy: Option<String>,
    ) -> (Self, Action) {
        let w = self.desk.workspace;
        match busy {
            Some(process) => if index < w.ids.len() {
                (
                    self.with_chrome(
                        ChromeModel {
                            confirm: Some(
                                CloseConfirm { id: w.ids[index as int], process, activate_after },
                            ),
                            ..self.desk.chrome
                        },
                    ),
                    Action::Nothing,
                )
            } else {
                (self, Action::Nothing)
            },
            None => (
                self.closing_to(w.closed(index).activated(activate_after)),
                Action::Closed(
                    w.closing(index),
                    w.closed_effects(index).followed_by(
                        w.closed(index).activated_effects(activate_after),
                    ),
                ),
            ),
        }
    }

    /// What is kept of the active session is renewed: the search finds its matches again,
    /// once the width of the session has settled.
    pub open spec fn refreshed(self) -> (Self, Action) {
        if !self.desk.chrome.search_open {
            (self, Action::Nothing)
        } else if self.reflow.contains(self.active_id()) {
            (WindowModel { search_dirty: true, ..self }, Action::Nothing)
        } else {
            (WindowModel { search_dirty: false, ..self }, Action::FindAgain { reveal: true })
        }
    }
}

/// A text that says that a program still runs.
pub open spec fn running_text(process: Seq<char>, advice: Seq<char>) -> Seq<char> {
    process + " is still running — "@ + advice
}

pub(crate) fn running(process: &str, advice: &str) -> (text: String)
    ensures
        text@ == running_text(process@, advice@),
{
    let mut text = owned(process);
    append_text(&mut text, " is still running — ");
    append_text(&mut text, advice);
    text
}

/// Some sessions but for those that were there before and are not any more.
pub open spec fn without_closed(some: Seq<usize>, before: Seq<usize>, after: Seq<usize>) -> Seq<
    usize,
>
    decreases some.len(),
{
    if some.len() == 0 {
        some
    } else {
        let rest = without_closed(some.drop_last(), before, after);
        if before.contains(some.last()) && !after.contains(some.last()) {
            rest
        } else {
            rest.push(some.last())
        }
    }
}

/// Where no session has gone, all stay.
pub(crate) proof fn lemma_none_closed(some: Seq<usize>, ids: Seq<usize>)
    ensures
        without_closed(some, ids, ids) == some,
    decreases some.len(),
{
    if some.len() > 0 {
        lemma_none_closed(some.drop_last(), ids);
        assert(some.drop_last().push(some.last()) =~= some);
    }
}

pub(crate) fn copy_ids(ids: &Vec<usize>) -> (copy: Vec<usize>)
    ensures
        copy@ == ids@,
{
    let mut copy: Vec<usize> = Vec::new();
    let mut i: usize = 0;
    while i < ids.len()
        invariant
            i <= ids@.len(),
            copy@ == ids@.subrange(0, i as int),
        decreases ids@.len() - i,
    {
        copy.push(ids[i]);
        i = i + 1;
    }
    proof {
        assert(ids@.subrange(0, i as int) =~= ids@);
    }
    copy
}

fn drop_closed(some: &Vec<usize>, before: &Vec<usize>, after: &Vec<usize>) -> (rest: Vec<usize>)
    ensures
        rest@ == without_closed(some@, before@, after@),
{
    let mut rest: Vec<usize> = Vec::new();
    let mut i: usize = 0;
    proof {
        assert(some@.subrange(0, 0) =~= Seq::empty());
        assert(rest@ =~= without_closed(some@.subrange(0, 0), before@, after@));
    }
    while i < some.len()
        invariant
            i <= some@.len(),
            rest@ == without_closed(some@.subrange(0, i as int), before@, after@),
        decreases some@.len() - i,
    {
        proof {
            assert(some@.subrange(0, i + 1).drop_last() =~= some@.subrange(0, i as int));
            assert(some@.subrange(0, i + 1).last() == some@[i as int]);
        }
        let id: usize = some[i];
        if !holds_id(before, id) || holds_id(after, id) {
            rest.push(id);
        }
        i = i + 1;
    }
    proof {
        assert(some@.subrange(0, i as int) =~= some@);
    }
    rest
}

pub(crate) fn holds_id(ids: &Vec<usize>, id: usize) -> (v: bool)
    ensures
        v == ids@.contains(id),
{
    let mut i: usize = 0;
    while i < ids.len()
        invariant
            i <= ids@.len(),
            forall|k: int| 0 <= k < i ==> ids@[k] != id,
        decreases ids@.len() - i,
    {
        if ids[i] == id {
            return true;
        }
        i = i + 1;
    }
    false
}

impl Window {
    pub open spec fn wf(&self) -> bool {
        self@.wf() && self.desk.wf()
    }

    /// A window with sessions and settings.
    pub fn new(workspace: Workspace, config: Config, cols: usize, rows: usize, first_instance: bool) -> (window:
        Self)
        requires
            workspace@.wf(),
        ensures
            window.wf(),
            window.desk.workspace == workspace,
            window.desk.chrome@ == ChromeModel::bare(),
            window.desk.sidebar_open == (config.tab_position == TabPosition::Side),
            window.desk.sidebar_panel == (if config.tab_position == TabPosition::Side {
                SidebarPanel::Tabs
            } else {
                SidebarPanel::Files
            }),
            window.config == config,
            !window.config_dirty,
            window@.toasts.len() == 0,
            window.focused && window.blink_on,
            window.cols == cols && window.rows == rows,
            !window.dragging_sidebar && !window.search_dirty,
            window@.reflow.len() == 0,
            window.first_instance == first_instance,
            window@.editor is None,
    {
        let at_side = config.tab_position == TabPosition::Side;
        Window {
            desk: Desk::new(workspace, at_side),
            config,
            config_dirty: false,
            toasts: Toasts::new(),
            focused: true,
            blink_on: true,
            cols,
            rows,
            dragging_sidebar: false,
            search_dirty: false,
            reflow: Vec::new(),
            first_instance,
            theme_editor: None,
        }
    }

    /// Whether the sessions are kept for the next start.
    pub fn saves_sessions(&self) -> (v: bool)
        ensures
            v == (self@.config.restore_session && self@.first_instance),
    {
        self.config.restore_session && self.first_instance
    }

    /// Tells the user something.
    pub fn tell(&mut self, text: String, kind: ToastKind)
        requires
            old(self).wf(),
        ensures
            final(self).wf(),
            final(self)@ == old(self)@.told(text@, kind),
    {
        self.toasts.push_toast(text, kind);
    }

    /// Forgets what was to be done for sessions that are gone.
    pub(crate) fn forget_closed(&mut self, before: &Vec<usize>)
        ensures
            final(self)@ == (WindowModel {
                reflow: without_closed(
                    old(self)@.reflow,
                    before@,
                    old(self)@.desk.workspace.ids,
                ),
                ..old(self)@
            }),
            final(self).desk == old(self).desk,
    {
        let rest = drop_closed(&self.reflow, before, &self.desk.workspace.ids);
        self.reflow = rest;
    }

    /// Closes the tab at a place, unless a program runs in it.
    #[verifier::spinoff_prover]
    #[verifier::rlimit(60)]
    pub fn request_close(
        &mut self,
        index: usize,
        activate_after: Option<usize>,
        busy: Option<String>,
    ) -> (action: Action)
        requires
            old(self).wf(),
        ensures
            final(self).wf(),
            (final(self)@, action) == old(self)@.close_asked(index, activate_after, busy),
    {
        if busy.is_some() && index >= self.desk.workspace.ids.len() {
            return Action::Nothing;
        }
        let before = copy_ids(&self.desk.workspace.ids);
        match self.desk.workspace.request_close_session_then(index, busy, activate_after) {
            crate::tabs::CloseRequest::Confirm(confirm) => {
                self.desk.chrome.tab_close_confirm = Some(confirm);
                Action::Nothing
            },
            crate::tabs::CloseRequest::Done(closing, effects) => {
                self.forget_closed(&before);
                Action::Closed(closing, effects)
            },
        }
    }

    /// Renews what is kept of the active session.
    pub fn refresh_active_context(&mut self) -> (action: Action)
        requires
            old(self).wf(),
        ensures
            final(self).wf(),
            (final(self)@, action) == old(self)@.refreshed(),
    {
        if !self.desk.chrome.search_open {
            return Action::Nothing;
        }
        let id: usize = self.desk.workspace.ids[self.desk.workspace.active];
        if holds_id(&self.reflow, id) {
            self.search_dirty = true;
            Action::Nothing
        } else {
            self.search_dirty = false;
            Action::FindAgain { reveal: true }
        }
    }

    /// The width of a session changed: its history is laid out anew once that has settled.
    pub fn width_changed(&mut self, id: usize)
        requires
            old(self).wf(),
        ensures
            final(self).wf(),
            final(self)@ == (WindowModel {
                reflow: if old(self)@.reflow.contains(id) {
                    old(self)@.reflow
                } else {
                    old(self)@.reflow.push(id)
                },
                ..old(self)@
            }),
    {
        if !holds_id(&self.reflow, id) {
            self.reflow.push(id);
        }
    }

    /// The sessions whose history is to be laid out anew now, and whether the search then
    /// finds its matches again.
    pub fn take_reflow(&mut self) -> (taken: (Vec<usize>, bool))
        requires
            old(self).wf(),
        ensures
            final(self).wf(),
            taken.0@ == old(self)@.reflow,
            taken.1 == old(self)@.desk.chrome.search_open,
            final(self)@ == (WindowModel {
                reflow: Seq::empty(),
                search_dirty: old(self)@.search_dirty && !taken.1,
                ..old(self)@
            }),
    {
        let mut taken: Vec<usize> = Vec::new();
        std::mem::swap(&mut taken, &mut self.reflow);
        proof {
            assert(self.reflow@ =~= Seq::empty());
        }
        let open = self.desk.chrome.search_open;
        if open {
            self.search_dirty = false;
        }
        (taken, open)
    }
}

} // verus!
