//! The command palette: a list of actions that can be searched.

use crate::outside::{fuzzy_match, fuzzy_score};
use crate::text::{append_text, chars_of, owned};
use vstd::prelude::*;

verus! {

/// What the palette can do.
#[derive(Clone, Copy, Debug, PartialEq, Eq, Structural)]
pub enum PaletteAction {
    NewTab,
    CloseTab,
    NextTab,
    PrevTab,
    Copy,
    Paste,
    OpenSearch,
    SplitVertical,
    SplitHorizontal,
    FocusNextPane,
    ClosePane,
    ToggleSidebar,
    OpenSettings,
    QuickTabSwitch,
    OpenHelp,
    ZoomIn,
    ZoomOut,
    ZoomReset,
    ScrollToTop,
    ScrollToBottom,
    ClearScreen,
}

/// An entry of the palette.
#[derive(Clone, Copy, Debug)]
pub struct PaletteItem {
    pub name: &'static str,
    pub description: &'static str,
    /// The key that does the same, as it is shown.
    pub shortcut: &'static str,
    pub action: PaletteAction,
}

/// What a [`PaletteItem`] says.
pub struct ItemModel {
    pub name: Seq<char>,
    pub description: Seq<char>,
    pub shortcut: Seq<char>,
    pub action: PaletteAction,
}

impl View for PaletteItem {
    type V = ItemModel;

    open spec fn view(&self) -> ItemModel {
        item(self.name@, self.description@, self.shortcut@, self.action)
    }
}

pub open spec fn item(
    name: Seq<char>,
    description: Seq<char>,
    shortcut: Seq<char>,
    action: PaletteAction,
) -> ItemModel {
    ItemModel { name, description, shortcut, action }
}

pub open spec fn items_view(items: Seq<PaletteItem>) -> Seq<ItemModel> {
    Seq::new(items.len(), |i: int| items[i]@)
}

/// Everything the palette can do, in the order in which it is listed.
#[verifier::opaque]
pub open spec fn palette_items() -> Seq<ItemModel> {
    seq![
        item("New Tab"@, "Open a new terminal tab"@, "Ctrl+Shift+T"@, PaletteAction::NewTab),
        item("Close Tab"@, "Close the current tab"@, "Ctrl+Shift+W"@, PaletteAction::CloseTab),
        item("Next Tab"@, "Switch to the next tab"@, ""@, PaletteAction::NextTab),
        item("Previous Tab"@, "Switch to the previous tab"@, ""@, PaletteAction::PrevTab),
        item("Copy"@, "Copy selected text to the clipboard"@, "Ctrl+Shift+C"@, PaletteAction::Copy),
        item("Paste"@, "Paste from the clipboard"@, "Ctrl+Shift+V"@, PaletteAction::Paste),
        item("Find"@, "Open the search overlay"@, "Ctrl+Shift+F"@, PaletteAction::OpenSearch),
        item("Split Right"@, "Split the terminal into left and right panes"@, "Ctrl+Shift+E"@, PaletteAction::SplitVertical),
        item("Split Down"@, "Split the terminal into top and bottom panes"@, "Ctrl+Shift+D"@, PaletteAction::SplitHorizontal),
        item("Focus Next Pane"@, "Move keyboard focus to the other pane"@, "Ctrl+Alt+Arrow"@, PaletteAction::FocusNextPane),
        item("Close Focused Pane"@, "Close the current pane, or its tab when unsplit"@, "Ctrl+Shift+W"@, PaletteAction::ClosePane),
        item("Toggle Sidebar"@, "Show or hide the tabs and files sidebar"@, "Ctrl+\\"@, PaletteAction::ToggleSidebar),
        item("Settings"@, "Open terminal appearance and behavior settings"@, "Ctrl+Shift+O"@, PaletteAction::OpenSettings),
        item("Switch Tab"@, "Fuzzy-find and switch to an open tab"@, "Ctrl+Shift+L"@, PaletteAction::QuickTabSwitch),
        item("Keyboard Shortcuts"@, "Show the built-in shortcut reference"@, "Ctrl+Shift+/"@, PaletteAction::OpenHelp),
        item("Zoom In"@, "Increase terminal font size"@, "Ctrl+="@, PaletteAction::ZoomIn),
        item("Zoom Out"@, "Decrease terminal font size"@, "Ctrl+-"@, PaletteAction::ZoomOut),
        item("Reset Zoom"@, "Restore the configured terminal font size"@, "Ctrl+0"@, PaletteAction::ZoomReset),
        item("Scroll to Top"@, "Jump to the top of the scrollback"@, "Shift+Home"@, PaletteAction::ScrollToTop),
        item("Scroll to Bottom"@, "Jump to the live view"@, "Shift+End"@, PaletteAction::ScrollToBottom),
        item("Clear Screen"@, "Clear the terminal screen"@, ""@, PaletteAction::ClearScreen),
    ]
}

/// The most actions that are remembered as used.
pub const MRU_CAP: usize = 16;

/// The state of the palette.
#[derive(Debug)]
pub struct PaletteState {
    pub is_open: bool,
    pub query: String,
    /// The highlighted position in the list.
    pub selected: usize,
    pub all: Vec<PaletteItem>,
    /// The actions that were used, the most recent first.
    pub mru: Vec<PaletteAction>,
}

/// What a [`PaletteState`] holds, besides the items.
pub struct PaletteModel {
    pub is_open: bool,
    pub query: Seq<char>,
    pub selected: int,
    pub mru: Seq<PaletteAction>,
}

impl View for PaletteState {
    type V = PaletteModel;

    open spec fn view(&self) -> PaletteModel {
        PaletteModel {
            is_open: self.is_open,
            query: self.query@,
            selected: self.selected as int,
            mru: self.mru@,
        }
    }
}

/// The position of the first item with an action, from `i` on.
pub open spec fn item_of(action: PaletteAction, i: int) -> Option<int>
    decreases palette_items().len() - i,
{
    if i < 0 || i >= palette_items().len() {
        None
    } else if palette_items()[i].action == action {
        Some(i)
    } else {
        item_of(action, i + 1)
    }
}

/// The items of the first `n` used actions, each once.
pub open spec fn recent(mru: Seq<PaletteAction>, n: int) -> Seq<int>
    decreases n,
{
    if n <= 0 {
        Seq::empty()
    } else {
        let before = recent(mru, n - 1);
        match item_of(mru[n - 1], 0) {
            Some(i) => if before.contains(i) {
                before
            } else {
                before.push(i)
            },
            None => before,
        }
    }
}

/// Some items, and those of the first `n` that are not among them.
pub open spec fn completed(first: Seq<int>, n: int) -> Seq<int>
    decreases n,
{
    if n <= 0 {
        first
    } else {
        let before = completed(first, n - 1);
        if first.contains(n - 1) {
            before
        } else {
            before.push(n - 1)
        }
    }
}

/// How well a query matches an item.
pub open spec fn item_score(query: Seq<char>, i: int) -> Option<i64> {
    let it = palette_items()[i];
    fuzzy_score(it.name + " "@ + it.description, query)
}

/// An item put behind all that match no worse.
pub open spec fn ranked(items: Seq<int>, i: int, query: Seq<char>) -> Seq<int>
    decreases items.len(),
{
    if items.len() == 0 || item_score(query, items.last())->0 >= item_score(query, i)->0 {
        items.push(i)
    } else {
        ranked(items.drop_last(), i, query).push(items.last())
    }
}

/// Those of the first `n` items that a query matches, the best first.
pub open spec fn matching(query: Seq<char>, n: int) -> Seq<int>
    decreases n,
{
    if n <= 0 {
        Seq::empty()
    } else {
        let before = matching(query, n - 1);
        if item_score(query, n - 1) is Some {
            ranked(before, n - 1, query)
        } else {
            before
        }
    }
}

impl PaletteModel {
    /// The items that are listed: without a query those used last, then all others;
    /// else those that match it.
    pub open spec fn shown(self) -> Seq<int> {
        let n = palette_items().len() as int;
        if self.query.len() == 0 {
            completed(recent(self.mru, self.mru.len() as int), n)
        } else {
            matching(self.query, n)
        }
    }

    /// An action remembered as the one used last.
    pub open spec fn used(self, action: PaletteAction) -> Self {
        let all = seq![action] + without_action(self.mru, action);
        PaletteModel {
            mru: if all.len() > MRU_CAP {
                all.subrange(0, MRU_CAP as int)
            } else {
                all
            },
            ..self
        }
    }

    /// The highlight moved down, and around.
    pub open spec fn next_selected(self) -> Self {
        let n = self.shown().len() as int;
        PaletteModel {
            selected: if n == 0 {
                0
            } else {
                (self.selected + 1) % n
            },
            ..self
        }
    }

    /// The highlight moved up, and around.
    pub open spec fn prev_selected(self) -> Self {
        let n = self.shown().len() as int;
        PaletteModel {
            selected: if n == 0 {
                0
            } else if self.selected == 0 {
                n - 1
            } else {
                self.selected - 1
            },
            ..self
        }
    }
}

/// The actions but for one.
pub open spec fn without_action(mru: Seq<PaletteAction>, action: PaletteAction) -> Seq<
    PaletteAction,
>
    decreases mru.len(),
{
    if mru.len() == 0 {
        mru
    } else {
        let before = without_action(mru.drop_last(), action);
        if mru.last() == action {
            before
        } else {
            before.push(mru.last())
        }
    }
}

/// The positions of some listed items.
pub open spec fn positions(listed: Seq<(usize, &PaletteItem)>) -> Seq<int> {
    Seq::new(listed.len(), |i: int| listed[i].0 as int)
}

impl PaletteState {
    /// What holds of every palette: the items are those there are.
    pub open spec fn wf(&self) -> bool {
        items_view(self.all@) == palette_items()
    }

    pub fn new() -> (state: Self)
        ensures
            state.wf(),
            state@ == (PaletteModel {
                is_open: false,
                query: Seq::empty(),
                selected: 0,
                mru: Seq::empty(),
            }),
    {
        let mut all: Vec<PaletteItem> = Vec::new();
        all.push(PaletteItem {
            name: "New Tab",
            description: "Open a new terminal tab",
            shortcut: "Ctrl+Shift+T",
            action: PaletteAction::NewTab,
        });
        all.push(PaletteItem {
            name: "Close Tab",
            description: "Close the current tab",
            shortcut: "Ctrl+Shift+W",
            action: PaletteAction::CloseTab,
        });
        all.push(PaletteItem {
            name: "Next Tab",
            description: "Switch to the next tab",
            shortcut: "",
            action: PaletteAction::NextTab,
        });
        all.push(PaletteItem {
            name: "Previous Tab",
            description: "Switch to the previous tab",
            shortcut: "",
            action: PaletteAction::PrevTab,
        });
        all.push(PaletteItem {
            name: "Copy",
            description: "Copy selected text to the clipboard",
            shortcut: "Ctrl+Shift+C",
            action: PaletteAction::Copy,
        });
        all.push(PaletteItem {
            name: "Paste",
            description: "Paste from the clipboard",
            shortcut: "Ctrl+Shift+V",
            action: PaletteAction::Paste,
        });
        all.push(PaletteItem {
            name: "Find",
            description: "Open the search overlay",
            shortcut: "Ctrl+Shift+F",
            action: PaletteAction::OpenSearch,
        });
        all.push(PaletteItem {
            name: "Split Right",
            description: "Split the terminal into left and right panes",
            shortcut: "Ctrl+Shift+E",
            action: PaletteAction::SplitVertical,
        });
        all.push(PaletteItem {
            name: "Split Down",
            description: "Split the terminal into top and bottom panes",
            shortcut: "Ctrl+Shift+D",
            action: PaletteAction::SplitHorizontal,
        });
        all.push(PaletteItem {
            name: "Focus Next Pane",
            description: "Move keyboard focus to the other pane",
            shortcut: "Ctrl+Alt+Arrow",
            action: PaletteAction::FocusNextPane,
        });
        all.push(PaletteItem {
            name: "Close Focused Pane",
            description: "Close the current pane, or its tab when unsplit",
            shortcut: "Ctrl+Shift+W",
            action: PaletteAction::ClosePane,
        });
        all.push(PaletteItem {
            name: "Toggle Sidebar",
            description: "Show or hide the tabs and files sidebar",
            shortcut: "Ctrl+\\",
            action: PaletteAction::ToggleSidebar,
        });
        all.push(PaletteItem {
            name: "Settings",
            description: "Open terminal appearance and behavior settings",
            shortcut: "Ctrl+Shift+O",
            action: PaletteAction::OpenSettings,
        });
        all.push(PaletteItem {
            name: "Switch Tab",
            description: "Fuzzy-find and switch to an open tab",
            shortcut: "Ctrl+Shift+L",
            action: PaletteAction::QuickTabSwitch,
        });
        all.push(PaletteItem {
            name: "Keyboard Shortcuts",
            description: "Show the built-in shortcut reference",
            shortcut: "Ctrl+Shift+/",
            action: PaletteAction::OpenHelp,
        });
        all.push(PaletteItem {
            name: "Zoom In",
            description: "Increase terminal font size",
            shortcut: "Ctrl+=",
            action: PaletteAction::ZoomIn,
        });
        all.push(PaletteItem {
            name: "Zoom Out",
            description: "Decrease terminal font size",
            shortcut: "Ctrl+-",
            action: PaletteAction::ZoomOut,
        });
        all.push(PaletteItem {
            name: "Reset Zoom",
            description: "Restore the configured terminal font size",
            shortcut: "Ctrl+0",
            action: PaletteAction::ZoomReset,
        });
        all.push(PaletteItem {
            name: "Scroll to Top",
            description: "Jump to the top of the scrollback",
            shortcut: "Shift+Home",
            action: PaletteAction::ScrollToTop,
        });
        all.push(PaletteItem {
            name: "Scroll to Bottom",
            description: "Jump to the live view",
            shortcut: "Shift+End",
            action: PaletteAction::ScrollToBottom,
        });
        all.push(PaletteItem {
            name: "Clear Screen",
            description: "Clear the terminal screen",
            shortcut: "",
            action: PaletteAction::ClearScreen,
        });
        proof {
            reveal(palette_items);
            assert(items_view(all@) =~= palette_items());
        }
        let state = PaletteState {
            is_open: false,
            query: String::new(),
            selected: 0,
            all,
            mru: Vec::new(),
        };
        proof {
            assert(state.query@ =~= Seq::empty());
        }
        state
    }

    /// Remembers an action as the one used last.
    pub fn record_use(&mut self, action: PaletteAction)
        requires
            old(self).wf(),
        ensures
            final(self).wf(),
            final(self)@ == old(self)@.used(action),
    {
        let mut mru: Vec<PaletteAction> = Vec::new();
        mru.push(action);
        let mut i: usize = 0;
        proof {
            assert(mru@ =~= seq![action] + without_action(self.mru@.subrange(0, 0), action));
        }
        while i < self.mru.len()
            invariant
                i <= self.mru@.len(),
                mru@ == seq![action] + without_action(self.mru@.subrange(0, i as int), action),
            decreases self.mru@.len() - i,
        {
            proof {
                let next = self.mru@.subrange(0, i + 1);
                assert(next.drop_last() =~= self.mru@.subrange(0, i as int));
                let before = without_action(self.mru@.subrange(0, i as int), action);
                assert((seq![action] + before).push(self.mru@[i as int]) =~= seq![action]
                    + before.push(self.mru@[i as int]));
            }
            if self.mru[i] != action {
                mru.push(self.mru[i]);
            }
            i = i + 1;
        }
        proof {
            assert(self.mru@.subrange(0, i as int) =~= self.mru@);
        }
        if mru.len() > MRU_CAP {
            mru.truncate(MRU_CAP);
        }
        proof {
            assert(mru@ =~= self@.used(action).mru);
        }
        self.mru = mru;
    }

    pub fn open(&mut self)
        requires
            old(self).wf(),
        ensures
            final(self).wf(),
            final(self)@ == (PaletteModel {
                is_open: true,
                query: Seq::empty(),
                selected: 0,
                ..old(self)@
            }),
    {
        self.is_open = true;
        self.query = String::new();
        self.selected = 0;
        proof {
            assert(self.query@ =~= Seq::empty());
        }
    }

    pub fn close(&mut self)
        requires
            old(self).wf(),
        ensures
            final(self).wf(),
            final(self)@ == (PaletteModel { is_open: false, ..old(self)@ }),
    {
        self.is_open = false;
    }

    pub fn toggle(&mut self)
        requires
            old(self).wf(),
        ensures
            final(self).wf(),
            final(self)@ == (if old(self)@.is_open {
                PaletteModel { is_open: false, ..old(self)@ }
            } else {
                PaletteModel { is_open: true, query: Seq::empty(), selected: 0, ..old(self)@ }
            }),
    {
        if self.is_open {
            self.close();
        } else {
            self.open();
        }
    }

    /// The position of the first item with an action.
    fn find_item(&self, action: PaletteAction) -> (at: Option<usize>)
        requires
            self.wf(),
        ensures
            at is Some <==> item_of(action, 0) is Some,
            at matches Some(i) ==> item_of(action, 0) == Some(i as int) && i < self.all@.len(),
    {
        let mut i: usize = 0;
        while i < self.all.len()
            invariant
                self.wf(),
                i <= self.all@.len(),
                item_of(action, i as int) == item_of(action, 0),
            decreases self.all@.len() - i,
        {
            proof {
                assert(palette_items()[i as int] == self.all@[i as int]@);
            }
            if self.all[i].action == action {
                return Some(i);
            }
            i = i + 1;
        }
        None
    }

    /// The items used last, then all others.
    fn recent_first(&self) -> (listed: Vec<usize>)
        requires
            self.wf(),
        ensures
            as_ints(listed@) == completed(
                recent(self.mru@, self.mru@.len() as int),
                palette_items().len() as int,
            ),
    {
        let n: usize = self.all.len();
        let mut listed: Vec<usize> = Vec::new();
        let mut i: usize = 0;
        proof {
            assert(as_ints(listed@) =~= recent(self.mru@, 0));
            assert(n == palette_items().len());
        }
        while i < self.mru.len()
            invariant
                self.wf(),
                n == self.all@.len() == palette_items().len(),
                i <= self.mru@.len(),
                as_ints(listed@) == recent(self.mru@, i as int),
            decreases self.mru@.len() - i,
        {
            if let Some(at) = self.find_item(self.mru[i]) {
                if !contains_position(&listed, at) {
                    let ghost before = as_ints(listed@);
                    listed.push(at);
                    proof {
                        assert(as_ints(listed@) =~= before.push(at as int));
                    }
                }
            }
            i = i + 1;
        }
        let first = copy_positions(&listed);
        let ghost used = as_ints(first@);
        let mut k: usize = 0;
        while k < n
            invariant
                k <= n,
                used == as_ints(first@),
                as_ints(listed@) == completed(used, k as int),
            decreases n - k,
        {
            if !contains_position(&first, k) {
                let ghost before = as_ints(listed@);
                listed.push(k);
                proof {
                    assert(as_ints(listed@) =~= before.push(k as int));
                }
            }
            k = k + 1;
        }
        listed
    }

    /// How well the query matches an item.
    fn score(&self, i: usize) -> (score: Option<i64>)
        requires
            self.wf(),
            i < self.all@.len(),
        ensures
            score == item_score(self.query@, i as int),
    {
        proof {
            assert(palette_items()[i as int] == self.all@[i as int]@);
        }
        let mut text = owned(self.all[i].name);
        append_text(&mut text, " ");
        append_text(&mut text, self.all[i].description);
        fuzzy_match(text.as_str(), self.query.as_str())
    }

    /// The items that the query matches, the best first.
    fn best_first(&self) -> (listed: Vec<usize>)
        requires
            self.wf(),
        ensures
            as_ints(listed@) == matching(self.query@, palette_items().len() as int),
    {
        let n: usize = self.all.len();
        let mut listed: Vec<usize> = Vec::new();
        let mut scores: Vec<i64> = Vec::new();
        let mut k: usize = 0;
        proof {
            assert(n == palette_items().len());
            assert(as_ints(listed@) =~= matching(self.query@, 0));
        }
        while k < n
            invariant
                self.wf(),
                k <= n == self.all@.len() == palette_items().len(),
                as_ints(listed@) == matching(self.query@, k as int),
                scores@.len() == listed@.len(),
                forall|i: int|
                    0 <= i < listed@.len() ==> item_score(self.query@, #[trigger] listed@[i] as int)
                        == Some(scores@[i]),
            decreases n - k,
        {
            if let Some(score) = self.score(k) {
                rank(&mut listed, &mut scores, k, score, Ghost(self.query@));
            }
            k = k + 1;
        }
        listed
    }

    /// What is listed: the position of each item, and the item.
    pub fn filtered(&self) -> (listed: Vec<(usize, &PaletteItem)>)
        requires
            self.wf(),
        ensures
            positions(listed@) == self@.shown(),
            forall|i: int|
                0 <= i < listed@.len() ==> 0 <= (#[trigger] listed@[i]).0 < self.all@.len()
                    && *listed@[i].1 == self.all@[listed@[i].0 as int],
    {
        let query = chars_of(self.query.as_str());
        let order = if query.len() == 0 {
            self.recent_first()
        } else {
            self.best_first()
        };
        proof {
            lemma_shown_in_range(self@);
        }
        let mut listed: Vec<(usize, &PaletteItem)> = Vec::new();
        let mut i: usize = 0;
        while i < order.len()
            invariant
                self.wf(),
                i <= order@.len(),
                as_ints(order@) == self@.shown(),
                self.all@.len() == palette_items().len(),
                forall|k: int|
                    0 <= k < self@.shown().len() ==> 0 <= #[trigger] self@.shown()[k]
                        < palette_items().len(),
                listed@.len() == i,
                forall|k: int|
                    0 <= k < i ==> (#[trigger] listed@[k]).0 == order@[k] && listed@[k].0
                        < self.all@.len() && *listed@[k].1 == self.all@[listed@[k].0 as int],
            decreases order@.len() - i,
        {
            proof {
                assert(self@.shown()[i as int] == order@[i as int]);
            }
            let at: usize = order[i];
            listed.push((at, &self.all[at]));
            i = i + 1;
        }
        proof {
            assert(positions(listed@) =~= as_ints(order@));
        }
        listed
    }

    /// Moves the highlight down, and around.
    pub fn select_next(&mut self)
        requires
            old(self).wf(),
        ensures
            final(self).wf(),
            final(self)@ == old(self)@.next_selected(),
    {
        let n: usize = self.filtered().len();
        if n == 0 {
            self.selected = 0;
        } else {
            let at: usize = self.selected % n;
            proof {
                lemma_next(self.selected as int, n as int);
            }
            self.selected = if at + 1 == n {
                0
            } else {
                at + 1
            };
        }
    }

    /// Moves the highlight up, and around.
    pub fn select_prev(&mut self)
        requires
            old(self).wf(),
        ensures
            final(self).wf(),
            final(self)@ == old(self)@.prev_selected(),
    {
        let n: usize = self.filtered().len();
        if n == 0 {
            self.selected = 0;
        } else if self.selected == 0 {
            self.selected = n - 1;
        } else {
            self.selected = self.selected - 1;
        }
    }

    /// The highlighted action.
    pub fn selected_action(&self) -> (action: Option<PaletteAction>)
        requires
            self.wf(),
        ensures
            action == (if self@.selected < self@.shown().len() {
                Some(palette_items()[self@.shown()[self@.selected]].action)
            } else {
                None
            }),
    {
        let listed = self.filtered();
        proof {
            assert(positions(listed@).len() == listed@.len());
        }
        if self.selected < listed.len() {
            let (at, it) = listed[self.selected];
            proof {
                assert(positions(listed@)[self.selected as int] == at);
                assert(palette_items()[at as int] == self.all@[at as int]@);
            }
            Some(it.action)
        } else {
            None
        }
    }

    /// The action of an item.
    pub fn action_at(&self, index: usize) -> (action: Option<PaletteAction>)
        requires
            self.wf(),
        ensures
            action == (if index < palette_items().len() {
                Some(palette_items()[index as int].action)
            } else {
                None
            }),
    {
        proof {
            assert(self.all@.len() == palette_items().len());
        }
        if index < self.all.len() {
            proof {
                assert(palette_items()[index as int] == self.all@[index as int]@);
            }
            Some(self.all[index].action)
        } else {
            None
        }
    }
}

impl Default for PaletteState {
    fn default() -> (state: Self)
        ensures
            state.wf(),
            state@ == (PaletteModel {
                is_open: false,
                query: Seq::empty(),
                selected: 0,
                mru: Seq::empty(),
            }),
    {
        Self::new()
    }
}

/// Positions as integers.
pub open spec fn as_ints(positions: Seq<usize>) -> Seq<int> {
    Seq::new(positions.len(), |i: int| positions[i] as int)
}

fn contains_position(positions: &Vec<usize>, at: usize) -> (v: bool)
    ensures
        v == as_ints(positions@).contains(at as int),
{
    let mut i: usize = 0;
    while i < positions.len()
        invariant
            i <= positions@.len(),
            forall|k: int| 0 <= k < i ==> #[trigger] as_ints(positions@)[k] != at,
        decreases positions@.len() - i,
    {
        if positions[i] == at {
            proof {
                assert(as_ints(positions@)[i as int] == at);
            }
            return true;
        }
        i = i + 1;
    }
    false
}

fn copy_positions(positions: &Vec<usize>) -> (copy: Vec<usize>)
    ensures
        copy@ == positions@,
{
    let mut copy: Vec<usize> = Vec::new();
    let mut i: usize = 0;
    while i < positions.len()
        invariant
            i <= positions@.len(),
            copy@ == positions@.subrange(0, i as int),
        decreases positions@.len() - i,
    {
        copy.push(positions[i]);
        i = i + 1;
    }
    proof {
        assert(positions@.subrange(0, i as int) =~= positions@);
    }
    copy
}

/// Puts an item behind all that match no worse.
fn rank(
    listed: &mut Vec<usize>,
    scores: &mut Vec<i64>,
    item: usize,
    score: i64,
    Ghost(query): Ghost<Seq<char>>,
)
    requires
        old(scores)@.len() == old(listed)@.len(),
        item_score(query, item as int) == Some(score),
        forall|i: int|
            0 <= i < old(listed)@.len() ==> item_score(query, #[trigger] old(listed)@[i] as int)
                == Some(old(scores)@[i]),
    ensures
        as_ints(final(listed)@) == ranked(as_ints(old(listed)@), item as int, query),
        final(scores)@.len() == final(listed)@.len(),
        forall|i: int|
            0 <= i < final(listed)@.len() ==> item_score(
                query,
                #[trigger] final(listed)@[i] as int,
            ) == Some(final(scores)@[i]),
{
    let ghost all = as_ints(listed@);
    let mut at: usize = listed.len();
    proof {
        assert(all.subrange(0, all.len() as int) =~= all);
        assert(ranked(all, item as int, query) + all.subrange(all.len() as int, all.len() as int)
            =~= ranked(all, item as int, query));
    }
    while at > 0 && scores[at - 1] < score
        invariant
            listed@ == old(listed)@,
            scores@ == old(scores)@,
            all == as_ints(listed@),
            scores@.len() == listed@.len(),
            at <= listed@.len(),
            item_score(query, item as int) == Some(score),
            forall|i: int|
                0 <= i < listed@.len() ==> item_score(query, #[trigger] listed@[i] as int) == Some(
                    scores@[i],
                ),
            ranked(all, item as int, query) == ranked(
                all.subrange(0, at as int),
                item as int,
                query,
            ) + all.subrange(at as int, all.len() as int),
        decreases at,
    {
        proof {
            let head = all.subrange(0, at as int);
            assert(head.drop_last() =~= all.subrange(0, at - 1));
            assert(head.last() == listed@[at - 1]);
            assert(item_score(query, head.last()) == Some(scores@[at - 1]));
            let sub = ranked(all.subrange(0, at - 1), item as int, query);
            assert(sub.push(head.last()) + all.subrange(at as int, all.len() as int) =~= sub
                + all.subrange(at - 1, all.len() as int));
        }
        at = at - 1;
    }
    proof {
        let head = all.subrange(0, at as int);
        if at > 0 {
            assert(head.last() == listed@[at - 1]);
            assert(item_score(query, head.last()) == Some(scores@[at - 1]));
        }
        assert(ranked(head, item as int, query) == head.push(item as int));
        assert(head.push(item as int) + all.subrange(at as int, all.len() as int) =~= all.insert(
            at as int,
            item as int,
        ));
    }
    listed.insert(at, item);
    scores.insert(at, score);
    proof {
        assert(as_ints(listed@) =~= all.insert(at as int, item as int));
    }
}

/// One step further, around.
proof fn lemma_next(a: int, n: int)
    requires
        n > 0,
        a >= 0,
    ensures
        (a + 1) % n == (if a % n + 1 == n {
            0
        } else {
            a % n + 1
        }),
{
    vstd::arithmetic::div_mod::lemma_fundamental_div_mod(a, n);
    let q = a / n;
    let r = a % n;
    assert(n * q == q * n) by (nonlinear_arith);
    assert(0 <= r < n) by {
        vstd::arithmetic::div_mod::lemma_mod_bound(a, n);
    }
    if r + 1 == n {
        assert(q * n + n == (q + 1) * n) by (nonlinear_arith);
        vstd::arithmetic::div_mod::lemma_fundamental_div_mod_converse(a + 1, n, q + 1, 0);
    } else {
        vstd::arithmetic::div_mod::lemma_fundamental_div_mod_converse(a + 1, n, q, r + 1);
    }
}

/// What is listed are items.
proof fn lemma_shown_in_range(m: PaletteModel)
    ensures
        forall|k: int| 0 <= k < m.shown().len() ==> 0 <= #[trigger] m.shown()[k] < palette_items().len(),
{
    let n = palette_items().len() as int;
    if m.query.len() == 0 {
        lemma_recent_in_range(m.mru, m.mru.len() as int);
        lemma_completed_in_range(recent(m.mru, m.mru.len() as int), n);
    } else {
        lemma_matching_in_range(m.query, n);
    }
}

proof fn lemma_item_of(action: PaletteAction, i: int)
    requires
        i >= 0,
    ensures
        item_of(action, i) matches Some(k) ==> 0 <= k < palette_items().len()
            && palette_items()[k].action == action,
    decreases palette_items().len() - i,
{
    if i < palette_items().len() && palette_items()[i].action != action {
        lemma_item_of(action, i + 1);
    }
}

proof fn lemma_recent_in_range(mru: Seq<PaletteAction>, n: int)
    ensures
        forall|k: int| 0 <= k < recent(mru, n).len() ==> 0 <= #[trigger] recent(mru, n)[k]
            < palette_items().len(),
    decreases n,
{
    if n > 0 {
        lemma_recent_in_range(mru, n - 1);
        lemma_item_of(mru[n - 1], 0);
        let before = recent(mru, n - 1);
        let all = recent(mru, n);
        assert forall|k: int| 0 <= k < all.len() implies 0 <= #[trigger] all[k]
            < palette_items().len() by {
            if k < before.len() {
                assert(all[k] == before[k]);
            }
        }
    }
}

proof fn lemma_completed_in_range(first: Seq<int>, n: int)
    requires
        n <= palette_items().len(),
        forall|k: int| 0 <= k < first.len() ==> 0 <= #[trigger] first[k] < palette_items().len(),
    ensures
        forall|k: int| 0 <= k < completed(first, n).len() ==> 0 <= #[trigger] completed(first, n)[k]
            < palette_items().len(),
    decreases n,
{
    if n > 0 {
        lemma_completed_in_range(first, n - 1);
        let before = completed(first, n - 1);
        let all = completed(first, n);
        assert forall|k: int| 0 <= k < all.len() implies 0 <= #[trigger] all[k]
            < palette_items().len() by {
            if k < before.len() {
                assert(all[k] == before[k]);
            }
        }
    }
}

proof fn lemma_ranked(items: Seq<int>, i: int, query: Seq<char>)
    ensures
        ranked(items, i, query).len() == items.len() + 1,
        ranked(items, i, query).to_multiset() == items.to_multiset().insert(i),
        forall|k: int| 0 <= k < ranked(items, i, query).len() ==> #[trigger] ranked(items, i, query)[k]
            == i || items.contains(ranked(items, i, query)[k]),
    decreases items.len(),
{
    broadcast use vstd::seq_lib::group_to_multiset_ensures;

    if items.len() > 0 && !(item_score(query, items.last())->0 >= item_score(query, i)->0) {
        let init = items.drop_last();
        lemma_ranked(init, i, query);
        assert(items =~= init.push(items.last()));
        let sub = ranked(init, i, query);
        let all = ranked(items, i, query);
        assert forall|k: int| 0 <= k < all.len() implies #[trigger] all[k] == i || items.contains(
            all[k],
        ) by {
            if k < sub.len() {
                assert(all[k] == sub[k]);
                if sub[k] != i {
                    let m = choose|m: int| 0 <= m < init.len() && init[m] == sub[k];
                    assert(items[m] == sub[k]);
                }
            } else {
                assert(items[items.len() - 1] == all[k]);
            }
        }
    } else {
        let all = items.push(i);
        assert forall|k: int| 0 <= k < all.len() implies #[trigger] all[k] == i || items.contains(
            all[k],
        ) by {
            if k < items.len() {
                assert(items[k] == all[k]);
            }
        }
    }
}

proof fn lemma_matching_in_range(query: Seq<char>, n: int)
    requires
        n <= palette_items().len(),
    ensures
        forall|k: int| 0 <= k < matching(query, n).len() ==> 0 <= #[trigger] matching(query, n)[k]
            < palette_items().len(),
    decreases n,
{
    if n > 0 {
        lemma_matching_in_range(query, n - 1);
        let before = matching(query, n - 1);
        lemma_ranked(before, n - 1, query);
        let all = matching(query, n);
        assert forall|k: int| 0 <= k < all.len() implies 0 <= #[trigger] all[k]
            < palette_items().len() by {
            if item_score(query, n - 1) is Some && all[k] != n - 1 {
                assert(before.contains(all[k]));
            }
        }
    }
}

/// Moving the highlight down and up again leads back to where it was.
pub proof fn next_and_previous_are_inverse(m: PaletteModel)
    requires
        0 <= m.selected < m.shown().len(),
    ensures
        m.next_selected().prev_selected() == m,
        m.prev_selected().next_selected() == m,
{
    let n = m.shown().len() as int;
    let next = m.next_selected();
    let prev = m.prev_selected();
    assert(next.shown() == m.shown());
    assert(prev.shown() == m.shown());
    lemma_next(m.selected, n);
    lemma_next(prev.selected, n);
    assert(m.selected % n == m.selected) by {
        vstd::arithmetic::div_mod::lemma_small_mod(m.selected as nat, n as nat);
    }
    assert(prev.selected % n == prev.selected) by {
        vstd::arithmetic::div_mod::lemma_small_mod(prev.selected as nat, n as nat);
    }
}

proof fn lemma_without_action(mru: Seq<PaletteAction>, action: PaletteAction)
    requires
        mru.no_duplicates(),
    ensures
        without_action(mru, action).no_duplicates(),
        without_action(mru, action).len() <= mru.len(),
        forall|k: int|
            0 <= k < without_action(mru, action).len() ==> #[trigger] without_action(
                mru,
                action,
            )[k] != action && mru.contains(without_action(mru, action)[k]),
    decreases mru.len(),
{
    if mru.len() > 0 {
        let init = mru.drop_last();
        assert(init.no_duplicates());
        lemma_without_action(init, action);
        let sub = without_action(init, action);
        let all = without_action(mru, action);
        assert forall|k: int| 0 <= k < sub.len() implies mru.contains(#[trigger] sub[k]) && sub[k]
            != mru.last() by {
            assert(init.contains(sub[k]));
            let m = choose|m: int| 0 <= m < init.len() && init[m] == sub[k];
            assert(mru[m] == sub[k]);
            assert(mru[mru.len() - 1] == mru.last());
        }
        assert(mru[mru.len() - 1] == mru.last());
        assert forall|k: int| 0 <= k < all.len() implies #[trigger] all[k] != action
            && mru.contains(all[k]) by {
            if k < sub.len() {
                assert(all[k] == sub[k]);
            }
        }
        assert(all.no_duplicates()) by {
            assert forall|i: int, j: int|
                0 <= i < all.len() && 0 <= j < all.len() && i != j implies all[i] != all[j] by {
                if i < sub.len() {
                    assert(all[i] == sub[i]);
                }
                if j < sub.len() {
                    assert(all[j] == sub[j]);
                }
            }
        }
    }
}

/// An action that is used comes first, no action comes twice, and no more than
/// sixteen are remembered.
pub proof fn the_last_used_comes_first(m: PaletteModel, action: PaletteAction)
    requires
        m.mru.no_duplicates(),
    ensures
        m.used(action).mru[0] == action,
        m.used(action).mru.no_duplicates(),
        0 < m.used(action).mru.len() <= MRU_CAP,
{
    lemma_without_action(m.mru, action);
    let rest = without_action(m.mru, action);
    let all = seq![action] + rest;
    assert(all.no_duplicates()) by {
        assert forall|i: int, j: int|
            0 <= i < all.len() && 0 <= j < all.len() && i != j implies all[i] != all[j] by {
            if i > 0 {
                assert(all[i] == rest[i - 1]);
            }
            if j > 0 {
                assert(all[j] == rest[j - 1]);
            }
        }
    }
}

proof fn lemma_recent_distinct(mru: Seq<PaletteAction>, n: int)
    ensures
        recent(mru, n).no_duplicates(),
    decreases n,
{
    if n > 0 {
        lemma_recent_distinct(mru, n - 1);
        let before = recent(mru, n - 1);
        match item_of(mru[n - 1], 0) {
            Some(i) => {
                if !before.contains(i) {
                    let all = before.push(i);
                    assert forall|a: int, b: int|
                        0 <= a < all.len() && 0 <= b < all.len() && a != b implies all[a]
                        != all[b] by {
                        if a < before.len() {
                            assert(before.contains(before[a]));
                        }
                        if b < before.len() {
                            assert(before.contains(before[b]));
                        }
                    }
                }
            },
            None => {},
        }
    }
}

proof fn lemma_completed(first: Seq<int>, n: int)
    requires
        first.no_duplicates(),
        0 <= n,
    ensures
        completed(first, n).no_duplicates(),
        forall|i: int| 0 <= i < n ==> #[trigger] completed(first, n).contains(i),
        forall|i: int| #[trigger] first.contains(i) ==> completed(first, n).contains(i),
        forall|i: int| #[trigger] completed(first, n).contains(i) ==> first.contains(i) || 0 <= i < n,
    decreases n,
{
    if n > 0 {
        lemma_completed(first, n - 1);
        let before = completed(first, n - 1);
        let all = completed(first, n);
        if !first.contains(n - 1) {
            assert(!before.contains(n - 1));
            assert forall|i: int| before.contains(i) implies all.contains(i) by {
                let k = choose|k: int| 0 <= k < before.len() && before[k] == i;
                assert(all[k] == i);
            }
            assert(all[before.len() as int] == n - 1);
            assert forall|i: int| #[trigger] all.contains(i) implies first.contains(i) || 0 <= i
                < n by {
                let k = choose|k: int| 0 <= k < all.len() && all[k] == i;
                if k < before.len() {
                    assert(before[k] == i);
                    assert(before.contains(i));
                }
            }
            assert forall|a: int, b: int|
                0 <= a < all.len() && 0 <= b < all.len() && a != b implies all[a] != all[b] by {
                if a < before.len() {
                    assert(before.contains(before[a]));
                }
                if b < before.len() {
                    assert(before.contains(before[b]));
                }
            }
        }
    }
}

/// Without a query the list holds every item, and each once.
pub proof fn everything_is_listed_without_a_query(m: PaletteModel)
    requires
        m.query.len() == 0,
    ensures
        m.shown().no_duplicates(),
        forall|i: int| m.shown().contains(i) <==> 0 <= i < palette_items().len(),
{
    let n = palette_items().len() as int;
    let first = recent(m.mru, m.mru.len() as int);
    lemma_recent_distinct(m.mru, m.mru.len() as int);
    lemma_recent_in_range(m.mru, m.mru.len() as int);
    lemma_completed(first, n);
    assert forall|i: int| m.shown().contains(i) implies 0 <= i < n by {
        if first.contains(i) {
            let k = choose|k: int| 0 <= k < first.len() && first[k] == i;
        }
    }
}

proof fn lemma_matching(query: Seq<char>, n: int)
    requires
        0 <= n <= palette_items().len(),
        palette_items().len() <= usize::MAX,
    ensures
        matching(query, n) == as_ints(
            crate::tab_switcher::best_first(
                Seq::new(palette_items().len(), |i: int| item_score(query, i)),
                n,
            ),
        ),
    decreases n,
{
    let scores = Seq::new(palette_items().len(), |i: int| item_score(query, i));
    if n > 0 {
        lemma_matching(query, n - 1);
        if scores[n - 1] is Some {
            let before = crate::tab_switcher::best_first(scores, n - 1);
            crate::tab_switcher::the_best_come_first(scores, n - 1);
            lemma_ranked_alike(scores, before, (n - 1) as usize, query);
        }
    } else {
        assert(matching(query, n) =~= as_ints(crate::tab_switcher::best_first(scores, n)));
    }
}

proof fn lemma_ranked_alike(
    scores: Seq<Option<i64>>,
    listed: Seq<usize>,
    i: usize,
    query: Seq<char>,
)
    requires
        scores == Seq::new(palette_items().len(), |i: int| item_score(query, i)),
        i < scores.len(),
        forall|a: int| 0 <= a < listed.len() ==> #[trigger] listed[a] < scores.len(),
    ensures
        ranked(as_ints(listed), i as int, query) == as_ints(
            crate::tab_switcher::ranked(scores, listed, i),
        ),
    decreases listed.len(),
{
    let ints = as_ints(listed);
    if listed.len() == 0 {
        assert(ints.push(i as int) =~= as_ints(listed.push(i)));
    } else {
        assert(listed[listed.len() - 1] < scores.len());
        assert(ints.last() == listed.last());
        if scores[listed.last() as int]->0 >= scores[i as int]->0 {
            assert(ints.push(i as int) =~= as_ints(listed.push(i)));
        } else {
            let rest = listed.drop_last();
            assert forall|a: int| 0 <= a < rest.len() implies #[trigger] rest[a] < scores.len() by {
                assert(rest[a] == listed[a]);
            }
            lemma_ranked_alike(scores, rest, i, query);
            assert(ints.drop_last() =~= as_ints(rest));
            let sub = crate::tab_switcher::ranked(scores, rest, i);
            assert(as_ints(sub).push(ints.last()) =~= as_ints(sub.push(listed.last())));
        }
    }
}

/// With a query, exactly the items that it matches are listed, and one that matches better
/// comes before one that matches worse.
pub proof fn the_best_items_come_first(m: PaletteModel)
    requires
        m.query.len() > 0,
        palette_items().len() <= usize::MAX,
    ensures
        forall|i: int|
            0 <= i < palette_items().len() ==> (#[trigger] m.shown().contains(i) <==> item_score(
                m.query,
                i,
            ) is Some),
        forall|a: int, b: int|
            0 <= a < b < m.shown().len() ==> item_score(m.query, #[trigger] m.shown()[a])->0
                >= item_score(m.query, #[trigger] m.shown()[b])->0,
{
    let n = palette_items().len() as int;
    let scores = Seq::new(palette_items().len(), |i: int| item_score(m.query, i));
    let best = crate::tab_switcher::best_first(scores, n);
    lemma_matching(m.query, n);
    crate::tab_switcher::the_best_come_first(scores, n);
    assert forall|i: int| 0 <= i < n implies (#[trigger] m.shown().contains(i) <==> item_score(
        m.query,
        i,
    ) is Some) by {
        assert(best.contains(i as usize) <==> scores[i] is Some);
        if best.contains(i as usize) {
            let k = choose|k: int| 0 <= k < best.len() && best[k] == i as usize;
            assert(m.shown()[k] == i);
        }
        if m.shown().contains(i) {
            let k = choose|k: int| 0 <= k < m.shown().len() && m.shown()[k] == i;
            assert(best[k] == i as usize);
        }
    }
    assert forall|a: int, b: int| 0 <= a < b < m.shown().len() implies item_score(
        m.query,
        #[trigger] m.shown()[a],
    )->0 >= item_score(m.query, #[trigger] m.shown()[b])->0 by {
        assert(m.shown()[a] == best[a] && m.shown()[b] == best[b]);
        assert(best[a] < n && best[b] < n);
    }
}

/// Down goes to the item below and up to the one above, around the ends.
pub proof fn the_highlight_goes_down_and_up(m: PaletteModel)
    requires
        0 <= m.selected < m.shown().len(),
    ensures
        ({
            let n = m.shown().len() as int;
            &&& m.selected + 1 < n ==> m.next_selected().selected == m.selected + 1
            &&& m.selected + 1 == n ==> m.next_selected().selected == 0
            &&& m.selected > 0 ==> m.prev_selected().selected == m.selected - 1
            &&& m.selected == 0 ==> m.prev_selected().selected == n - 1
            &&& m.next_selected().query == m.query
            &&& m.prev_selected().query == m.query
        }),
{
    let n = m.shown().len() as int;
    if m.selected + 1 < n {
        assert((m.selected + 1) % n == m.selected + 1) by (nonlinear_arith)
            requires
                0 <= m.selected,
                m.selected + 1 < n,
        ;
    } else {
        assert((m.selected + 1) % n == 0) by (nonlinear_arith)
            requires
                m.selected + 1 == n,
                n > 0,
        ;
    }
}

} // verus!
