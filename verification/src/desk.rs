//! The window: tabs, panes and what lies over them, and the steps that can be asked for.

pub mod fields;
pub mod keys;
pub mod laws;

use crate::chrome::{Chrome, ChromeModel, Field};
use crate::command_palette::PaletteAction;
use crate::commands::{palette_action_step, palette_step, FontStep, SearchStep, Step};
use crate::panes::{along_axis, moved_divider, SplitMode, MAX_PANES};
use crate::tab_switcher::{SwitcherModel, TabSwitcherState};
use crate::workspace::{
    place_of, Effects, Shares, SplitRequest, Workspace, WorkspaceModel,
};
use vstd::prelude::*;

verus! {

/// What the dock at the side shows.
#[derive(Debug, Clone, Copy, PartialEq, Eq, Structural)]
pub enum SidebarPanel {
    Files,
    Tabs,
}

/// The window.
#[derive(Debug)]
pub struct Desk {
    pub workspace: Workspace,
    pub chrome: Chrome,
    pub sidebar_open: bool,
    pub sidebar_panel: SidebarPanel,
}

/// The window.
pub struct DeskModel {
    pub workspace: WorkspaceModel,
    pub chrome: ChromeModel,
    pub sidebar_open: bool,
    pub sidebar_panel: SidebarPanel,
}

impl View for Desk {
    type V = DeskModel;

    open spec fn view(&self) -> DeskModel {
        DeskModel {
            workspace: self.workspace@,
            chrome: self.chrome@,
            sidebar_open: self.sidebar_open,
            sidebar_panel: self.sidebar_panel,
        }
    }
}

/// What a step asks of the outside.
#[derive(Debug, Clone, Copy, PartialEq, Eq, Structural)]
pub enum Request {
    Nothing,
    /// What follows from a change of the tabs or panes.
    Follow(Effects),
    /// A session is to be started; see [`Workspace::session_added`].
    SpawnSession,
    /// A session is to be started for a pane; see [`Workspace::split_added`].
    SpawnPane(SplitMode),
    /// There are as many panes as there may be.
    SplitLimit,
    /// The session at a place is to be closed, and another to be the active one then.
    Close(usize, Option<usize>),
    CloseWindow,
    Copy,
    /// The clipboard is pasted into the session of an identity.
    Paste(usize),
    /// The search is opened or closed; then its matches are found anew.
    SearchToggled { open: bool, reveal: bool },
    Search(SearchStep),
    /// A byte for the program of the active session.
    Send(u8),
    ScrollLines { up: bool },
    ScrollToTop,
    ScrollToBottom,
    ClearScreen,
    /// A divider moves one step, towards the panes behind it or before it.
    MoveDivider(usize, bool),
    Font(FontStep),
    /// The dock is opened or closed.
    SidebarToggled { open: bool },
    /// Text is typed into a field.
    Focus(Field),
}

pub open spec fn followed(effects: Effects) -> Request {
    if effects == Effects::none() {
        Request::Nothing
    } else {
        Request::Follow(effects)
    }
}

impl DeskModel {
    pub open spec fn with_workspace(self, workspace: WorkspaceModel) -> Self {
        DeskModel { workspace, ..self }
    }

    pub open spec fn with_chrome(self, chrome: ChromeModel) -> Self {
        DeskModel { chrome, ..self }
    }

    /// A session shown alone, with what follows.
    pub open spec fn showing(self, index: usize) -> (Self, Request) {
        (
            self.with_workspace(WorkspaceModel { dirty: true, ..self.workspace.shown(index) }),
            Request::Follow(Effects { refresh: true, ..self.workspace.unsplit_effects() }),
        )
    }

    /// What a step changes, and what it asks of the outside.
    #[verifier::opaque]
    pub open spec fn step(self, step: Step) -> (Self, Request) {
        let w = self.workspace;
        let n = w.ids.len() as int;
        let p = w.panes.len() as int;
        match step {
            Step::Nothing => (self, Request::Nothing),
            Step::NewSession => (self, Request::SpawnSession),
            Step::CloseActive => (self, Request::Close(w.active, None)),
            Step::CloseWindow => (self, Request::CloseWindow),
            Step::NextSession => self.showing(((w.active + 1) % n) as usize),
            Step::PreviousSession => self.showing(((w.active + n - 1) % n) as usize),
            Step::JumpSession(index) => if index < n {
                self.showing(index)
            } else {
                (self, Request::Nothing)
            },
            Step::Copy => (self, Request::Copy),
            Step::Paste => (self, Request::Paste(w.ids[w.active as int])),
            Step::ToggleSearch { reveal } => (
                self.with_chrome(
                    ChromeModel { search_open: !self.chrome.search_open, ..self.chrome },
                ),
                Request::SearchToggled { open: !self.chrome.search_open, reveal },
            ),
            Step::Search(s) => (
                self.with_chrome(
                    ChromeModel {
                        search_open: self.chrome.search_open && s != SearchStep::Close,
                        ..self.chrome
                    },
                ),
                Request::Search(s),
            ),
            Step::Send(byte) => (self, Request::Send(byte)),
            Step::ScrollLines { up } => (self, Request::ScrollLines { up }),
            Step::ScrollToTop => (self, Request::ScrollToTop),
            Step::ScrollToBottom => (self, Request::ScrollToBottom),
            Step::ClearScreen => (self, Request::ClearScreen),
            Step::Split(mode) => if mode == SplitMode::Single {
                (self, Request::Nothing)
            } else if w.mode != SplitMode::Single && w.mode != mode {
                (
                    self.with_workspace(WorkspaceModel { mode, dirty: false, ..w }),
                    Request::Follow(
                        Effects {
                            relayout: true,
                            refresh: true,
                            save: true,
                            shares: Shares::Keep,
                        },
                    ),
                )
            } else if p >= MAX_PANES {
                (self, Request::SplitLimit)
            } else {
                (self, Request::SpawnPane(mode))
            },
            Step::ClosePane => (
                self,
                Request::Close(
                    w.active,
                    if w.mode == SplitMode::Single {
                        None
                    } else if w.focused > 0 {
                        Some(w.ids[w.panes[w.focused - 1] as int])
                    } else {
                        Some(w.ids[w.panes[1] as int])
                    },
                ),
            ),
            Step::FocusNextPane => if w.mode == SplitMode::Single {
                (self, Request::Nothing)
            } else {
                (
                    self.with_workspace(w.focused_on(((w.focused + 1) % p) as usize)),
                    Request::Follow(Effects { refresh: true, ..Effects::none() }),
                )
            },
            Step::FocusPreviousPane => if w.mode == SplitMode::Single {
                (self, Request::Nothing)
            } else {
                (
                    self.with_workspace(w.focused_on(((w.focused + p - 1) % p) as usize)),
                    Request::Follow(Effects { refresh: true, ..Effects::none() }),
                )
            },
            Step::FocusPane(direction) => match crate::panes::neighbour(
                w.mode,
                w.focused as int,
                p,
                direction,
            ) {
                Some(pane) => (
                    self.with_workspace(w.focused_on(pane as usize)),
                    Request::Follow(Effects { refresh: true, ..Effects::none() }),
                ),
                None => (self, Request::Nothing),
            },
            Step::ResizePane(direction) => match moved_divider(
                w.mode,
                w.focused as int,
                p,
                direction,
            ) {
                Some(divider) => (
                    self,
                    Request::MoveDivider(divider as usize, along_axis(w.mode, direction)->0),
                ),
                None => (self, Request::Nothing),
            },
            Step::ZoomPane => if w.mode == SplitMode::Single {
                (self, Request::Nothing)
            } else {
                (
                    self.with_workspace(WorkspaceModel { zoomed: !w.zoomed, ..w }),
                    Request::Follow(
                        Effects {
                            relayout: true,
                            refresh: true,
                            save: false,
                            shares: Shares::Keep,
                        },
                    ),
                )
            },
            Step::SwapPanes => if w.mode == SplitMode::Single {
                (self, Request::Nothing)
            } else {
                (
                    self.with_workspace(w.swapped()),
                    Request::Follow(
                        Effects {
                            relayout: true,
                            refresh: true,
                            save: true,
                            shares: Shares::Keep,
                        },
                    ),
                )
            },
            Step::OpenSettings => (
                self.with_chrome(ChromeModel { config_panel_open: true, ..self.chrome }),
                Request::Nothing,
            ),
            Step::CloseSettings => (
                self.with_chrome(ChromeModel { config_panel_open: false, ..self.chrome }),
                Request::Nothing,
            ),
            Step::ToggleSettings => (
                self.with_chrome(
                    ChromeModel {
                        config_panel_open: !self.chrome.config_panel_open,
                        ..self.chrome
                    },
                ),
                Request::Nothing,
            ),
            Step::ToggleSidebar => (
                DeskModel { sidebar_open: !self.sidebar_open, ..self },
                Request::SidebarToggled { open: !self.sidebar_open },
            ),
            Step::Font(f) => (self, Request::Font(f)),
            Step::QuickTabSwitch => (
                self.with_chrome(
                    ChromeModel {
                        switcher: Some(SwitcherModel { query: Seq::empty(), selected: 0 }),
                        ..self.chrome
                    },
                ),
                Request::Focus(Field::TabSwitcher),
            ),
            Step::OpenHelp => (
                self.with_chrome(ChromeModel { help_open: true, ..self.chrome }),
                Request::Nothing,
            ),
        }
    }
}

fn follow(effects: Effects) -> (request: Request)
    ensures
        request == followed(effects),
{
    if effects.relayout || effects.refresh || effects.save || effects.shares != Shares::Keep {
        Request::Follow(effects)
    } else {
        Request::Nothing
    }
}

impl Desk {
    pub open spec fn wf(&self) -> bool {
        self.workspace@.wf() && self.chrome.wf()
    }

    /// A window with some sessions. With the tabs at the side the dock starts open.
    pub fn new(workspace: Workspace, tabs_at_side: bool) -> (desk: Self)
        requires
            workspace@.wf(),
        ensures
            desk.wf(),
            desk.workspace == workspace,
            desk.chrome@ == ChromeModel::bare(),
            desk.sidebar_open == tabs_at_side,
            desk.sidebar_panel == (if tabs_at_side {
                SidebarPanel::Tabs
            } else {
                SidebarPanel::Files
            }),
    {
        Desk {
            workspace,
            chrome: Chrome::new(),
            sidebar_open: tabs_at_side,
            sidebar_panel: if tabs_at_side {
                SidebarPanel::Tabs
            } else {
                SidebarPanel::Files
            },
        }
    }

    /// The dock as it is for where the tabs are.
    pub fn sync_tab_position(&mut self, tabs_at_side: bool)
        requires
            old(self).wf(),
        ensures
            final(self).wf(),
            final(self)@ == (DeskModel {
                sidebar_open: tabs_at_side,
                sidebar_panel: if tabs_at_side {
                    SidebarPanel::Tabs
                } else {
                    SidebarPanel::Files
                },
                ..old(self)@
            }),
    {
        self.sidebar_open = tabs_at_side;
        self.sidebar_panel = if tabs_at_side {
            SidebarPanel::Tabs
        } else {
            SidebarPanel::Files
        };
    }

    /// Takes a step that concerns the tabs and panes.
    fn perform_in_workspace(&mut self, step: Step) -> (request: Request)
        requires
            old(self).wf(),
            step is NextSession || step is PreviousSession || step is JumpSession || step is Split
                || step is FocusNextPane || step is FocusPreviousPane || step is FocusPane
                || step is ZoomPane || step is SwapPanes,
        ensures
            final(self).wf(),
            (final(self)@, request) == old(self)@.step(step),
            final(self)@.chrome.theme_editor_open == old(self)@.chrome.theme_editor_open,
            final(self)@.chrome.switcher == old(self)@.chrome.switcher
                || final(self)@.chrome.switcher == Some(
                SwitcherModel { query: Seq::empty(), selected: 0 },
            ),
    {
        proof {
            reveal(DeskModel::step);
        }
        match step {
            Step::NextSession => follow(self.workspace.next_session()),
            Step::PreviousSession => follow(self.workspace.prev_session()),
            Step::JumpSession(index) => follow(self.workspace.jump_session(index)),
            Step::Split(mode) => {
                if mode == SplitMode::Single {
                    return Request::Nothing;
                }
                match self.workspace.request_split(mode) {
                    SplitRequest::Rotated(effects) => Request::Follow(effects),
                    SplitRequest::LimitReached => Request::SplitLimit,
                    SplitRequest::Spawn => Request::SpawnPane(mode),
                }
            },
            Step::FocusNextPane => follow(self.workspace.focus_next_pane()),
            Step::FocusPreviousPane => follow(self.workspace.focus_prev_pane()),
            Step::FocusPane(direction) => follow(self.workspace.focus_pane_direction(direction)),
            Step::ZoomPane => follow(self.workspace.toggle_pane_zoom()),
            _ => follow(self.workspace.swap_panes()),
        }
    }

    /// Takes a step that concerns what lies over the terminals.
    fn perform_in_chrome(&mut self, step: Step) -> (request: Request)
        requires
            old(self).wf(),
            step is ToggleSearch || step is Search || step is OpenSettings || step is CloseSettings
                || step is ToggleSettings || step is QuickTabSwitch || step is OpenHelp,
        ensures
            final(self).wf(),
            (final(self)@, request) == old(self)@.step(step),
            final(self)@.chrome.theme_editor_open == old(self)@.chrome.theme_editor_open,
            final(self)@.chrome.switcher == old(self)@.chrome.switcher
                || final(self)@.chrome.switcher == Some(
                SwitcherModel { query: Seq::empty(), selected: 0 },
            ),
    {
        proof {
            reveal(DeskModel::step);
        }
        match step {
            Step::ToggleSearch { reveal } => {
                self.chrome.search_open = !self.chrome.search_open;
                Request::SearchToggled { open: self.chrome.search_open, reveal }
            },
            Step::Search(s) => {
                if s == SearchStep::Close {
                    self.chrome.search_open = false;
                }
                Request::Search(s)
            },
            Step::OpenSettings => {
                self.chrome.config_panel_open = true;
                Request::Nothing
            },
            Step::CloseSettings => {
                self.chrome.config_panel_open = false;
                Request::Nothing
            },
            Step::ToggleSettings => {
                self.chrome.config_panel_open = !self.chrome.config_panel_open;
                Request::Nothing
            },
            Step::QuickTabSwitch => {
                self.chrome.tab_switcher = Some(TabSwitcherState::default());
                Request::Focus(Field::TabSwitcher)
            },
            _ => {
                self.chrome.help_open = true;
                Request::Nothing
            },
        }
    }

    /// Takes a step, and says what it asks of the outside.
    pub fn perform(&mut self, step: Step) -> (request: Request)
        requires
            old(self).wf(),
        ensures
            final(self).wf(),
            (final(self)@, request) == old(self)@.step(step),
            final(self)@.chrome.theme_editor_open == old(self)@.chrome.theme_editor_open,
            final(self)@.chrome.switcher == old(self)@.chrome.switcher
                || final(self)@.chrome.switcher == Some(
                SwitcherModel { query: Seq::empty(), selected: 0 },
            ),
    {
        proof {
            reveal(DeskModel::step);
        }
        match step {
            Step::Nothing => Request::Nothing,
            Step::NewSession => Request::SpawnSession,
            Step::CloseActive => Request::Close(self.workspace.active, None),
            Step::CloseWindow => Request::CloseWindow,
            Step::Copy => Request::Copy,
            Step::Paste => Request::Paste(self.workspace.ids[self.workspace.active]),
            Step::Send(byte) => Request::Send(byte),
            Step::ScrollLines { up } => Request::ScrollLines { up },
            Step::ScrollToTop => Request::ScrollToTop,
            Step::ScrollToBottom => Request::ScrollToBottom,
            Step::ClearScreen => Request::ClearScreen,
            Step::ClosePane => {
                let (victim, keep) = self.workspace.focused_pane_to_close();
                Request::Close(victim, keep)
            },
            Step::ResizePane(direction) => {
                match self.workspace.resize_target(direction) {
                    Some((divider, forward)) => Request::MoveDivider(divider, forward),
                    None => Request::Nothing,
                }
            },
            Step::ToggleSidebar => {
                self.sidebar_open = !self.sidebar_open;
                Request::SidebarToggled { open: self.sidebar_open }
            },
            Step::Font(f) => Request::Font(f),
            Step::NextSession
            | Step::PreviousSession
            | Step::JumpSession(_)
            | Step::Split(_)
            | Step::FocusNextPane
            | Step::FocusPreviousPane
            | Step::FocusPane(_)
            | Step::ZoomPane
            | Step::SwapPanes => self.perform_in_workspace(step),
            _ => self.perform_in_chrome(step),
        }
    }

    /// Does what an action of the palette does, and remembers it as used.
    pub fn execute_palette_action(&mut self, action: PaletteAction) -> (request: Request)
        requires
            old(self).wf(),
        ensures
            final(self).wf(),
            (final(self)@, request) == old(self)@.with_chrome(
                ChromeModel {
                    palette: old(self)@.chrome.palette.used(action),
                    ..old(self)@.chrome
                },
            ).step(palette_step(action)),
            final(self)@.chrome.theme_editor_open == old(self)@.chrome.theme_editor_open,
            final(self)@.chrome.switcher == old(self)@.chrome.switcher
                || final(self)@.chrome.switcher == Some(
                SwitcherModel { query: Seq::empty(), selected: 0 },
            ),
    {
        self.chrome.palette.record_use(action);
        self.perform(palette_action_step(action))
    }
}

/// The size of each session: that of the pane that shows it, or the whole area's. While
/// a pane fills the area all have the area's.
pub open spec fn session_size(
    w: WorkspaceModel,
    index: int,
    area: (usize, usize),
    pane_sizes: Seq<(usize, usize)>,
) -> (usize, usize) {
    let pane = place_of(w.panes, index as usize, 0);
    if w.mode != SplitMode::Single && !w.zoomed && pane is Some {
        pane_sizes[pane->0]
    } else {
        area
    }
}

/// The size of each session.
pub fn layout_targets(
    workspace: &Workspace,
    area: (usize, usize),
    pane_sizes: &Vec<(usize, usize)>,
) -> (sizes: Vec<(usize, usize)>)
    requires
        workspace@.wf(),
        pane_sizes@.len() == workspace@.panes.len(),
    ensures
        sizes@ == Seq::new(
            workspace@.ids.len(),
            |i: int| session_size(workspace@, i, area, pane_sizes@),
        ),
{
    let split = workspace.split_mode != SplitMode::Single && !workspace.pane_zoomed;
    let mut sizes: Vec<(usize, usize)> = Vec::new();
    let count: usize = workspace.ids.len();
    let mut i: usize = 0;
    while i < count
        invariant
            i <= count == workspace@.ids.len(),
            workspace@.wf(),
            pane_sizes@.len() == workspace@.panes.len(),
            split == (workspace@.mode != SplitMode::Single && !workspace@.zoomed),
            sizes@ =~= Seq::new(
                i as nat,
                |k: int| session_size(workspace@, k, area, pane_sizes@),
            ),
        decreases count - i,
    {
        let size = match workspace.pane_of(i) {
            Some(pane) => {
                if split {
                    pane_sizes[pane]
                } else {
                    area
                }
            },
            None => area,
        };
        sizes.push(size);
        i = i + 1;
    }
    sizes
}

} // verus!
